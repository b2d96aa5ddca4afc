//! Instruction kinds and located instructions.

use vstd::prelude::*;

verus! {

/// The eight instruction kinds of the language.
#[derive(Debug, PartialEq, Eq, Clone, Copy, Structural)]
pub enum Instruction {
    /// Move the tape head one cell towards the start of the tape.
    MoveLeft,
    /// Move the tape head one cell towards the end of the tape.
    MoveRight,
    /// Increment the cell under the head, wrapping on overflow.
    Increment,
    /// Decrement the cell under the head, wrapping on underflow.
    Decrement,
    /// Read one byte of input into the cell under the head.
    Input,
    /// Write the cell under the head to the output.
    Output,
    /// If the cell under the head is zero, jump past the matching
    /// backward-jump instruction.
    ConditionalJumpForward,
    /// If the cell under the head is nonzero, jump back past the matching
    /// forward-jump instruction.
    ConditionalJumpBackward,
}

/// The fixed mapping from source characters to instruction kinds.
/// Characters outside the eight-symbol alphabet are comments and map to
/// `None`.
pub open spec fn instruction_of_char(c: char) -> Option<Instruction> {
    if c == '<' {
        Some(Instruction::MoveLeft)
    } else if c == '>' {
        Some(Instruction::MoveRight)
    } else if c == '+' {
        Some(Instruction::Increment)
    } else if c == '-' {
        Some(Instruction::Decrement)
    } else if c == '.' {
        Some(Instruction::Output)
    } else if c == ',' {
        Some(Instruction::Input)
    } else if c == '[' {
        Some(Instruction::ConditionalJumpForward)
    } else if c == ']' {
        Some(Instruction::ConditionalJumpBackward)
    } else {
        None
    }
}

impl Instruction {
    /// Parse a single character. If the character represents an instruction,
    /// return the corresponding kind; otherwise return `None`.
    pub fn from_char(c: char) -> (r: Option<Instruction>)
        ensures
            r == instruction_of_char(c),
    {
        match c {
            '<' => Some(Instruction::MoveLeft),
            '>' => Some(Instruction::MoveRight),
            '+' => Some(Instruction::Increment),
            '-' => Some(Instruction::Decrement),
            '.' => Some(Instruction::Output),
            ',' => Some(Instruction::Input),
            '[' => Some(Instruction::ConditionalJumpForward),
            ']' => Some(Instruction::ConditionalJumpBackward),
            _ => None,
        }
    }

    /// A short human-readable description of the instruction.
    pub fn description(&self) -> (r: &'static str)
        ensures
            r@ == match *self {
                Instruction::MoveLeft => "Move tape head left"@,
                Instruction::MoveRight => "Move tape head right"@,
                Instruction::Increment => "Increment the value in the cell under the head"@,
                Instruction::Decrement => "Decrement the value in the cell under the head"@,
                Instruction::Input => "Input a byte"@,
                Instruction::Output => "Output a byte"@,
                Instruction::ConditionalJumpForward => "Jump forward to the matching ] if the cell is zero"@,
                Instruction::ConditionalJumpBackward => "Jump backwards to the matching [ if the cell is not zero"@,
            },
    {
        match self {
            Instruction::MoveLeft => "Move tape head left",
            Instruction::MoveRight => "Move tape head right",
            Instruction::Increment => "Increment the value in the cell under the head",
            Instruction::Decrement => "Decrement the value in the cell under the head",
            Instruction::Input => "Input a byte",
            Instruction::Output => "Output a byte",
            Instruction::ConditionalJumpForward => {
                "Jump forward to the matching ] if the cell is zero"
            },
            Instruction::ConditionalJumpBackward => {
                "Jump backwards to the matching [ if the cell is not zero"
            },
        }
    }
}

/// A single program [`Instruction`] together with the line and column it
/// appeared on in the source text. Line and column numbers are 1-indexed and
/// serve diagnostics only; they never affect execution.
#[derive(Debug, PartialEq, Eq, Clone, Copy, Structural)]
pub struct LocalisedInstruction {
    /// The kind of operation this instruction performs.
    pub instruction: Instruction,
    /// The 1-indexed source line this instruction appears on.
    pub line_num: usize,
    /// The 1-indexed source column this instruction appears on.
    pub column_num: usize,
}

impl LocalisedInstruction {
    /// Construct an instruction annotated with its source position.
    pub fn new(instruction: Instruction, line_num: usize, column_num: usize) -> (r: Self)
        ensures
            r == (LocalisedInstruction { instruction, line_num, column_num }),
    {
        Self { instruction, line_num, column_num }
    }

    /// The inner [`Instruction`].
    pub fn instruction(&self) -> (r: Instruction)
        ensures
            r == self.instruction,
    {
        self.instruction
    }

    /// The 1-indexed line number where this instruction appears.
    pub fn line_num(&self) -> (r: usize)
        ensures
            r == self.line_num,
    {
        self.line_num
    }

    /// The 1-indexed column number where this instruction appears.
    pub fn column_num(&self) -> (r: usize)
        ensures
            r == self.column_num,
    {
        self.column_num
    }
}

} // verus!
