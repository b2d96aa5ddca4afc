//! The execution engine: a virtual machine with a tape of cells, a head,
//! and a program counter, interpreting a validated [`BfProgram`] against
//! byte streams.

use vstd::prelude::*;

use crate::instructions::Instruction;
use crate::instructions::LocalisedInstruction;
use crate::program::BfProgram;
use crate::semantics::MState;
use crate::semantics::can_run;
use crate::semantics::can_step;
use crate::semantics::jump_dest;
use crate::semantics::run_n;
use crate::semantics::step1;
use crate::semantics::wrap_dec;
use crate::semantics::wrap_inc;
use crate::semantics::lemma_run_snoc;
use crate::streams::ByteSink;
use crate::streams::ByteSource;

verus! {

broadcast use vstd::std_specs::vec::axiom_spec_len;

/// The length of a vector fits the machine's word.
proof fn lemma_vec_len_bound<T>(v: &Vec<T>)
    ensures
        v@.len() <= usize::MAX,
{
    vstd::std_specs::vec::axiom_spec_len(v);
}

/// Error types the [`VirtualMachine`] can emit. Each carries the located
/// instruction that caused it.
#[derive(Debug, PartialEq, Eq, Clone)]
pub enum VMError {
    /// The head ran off the start of the tape. The tape never extends at
    /// the start.
    HeadUnderrun(LocalisedInstruction),
    /// The head ran off the end of a tape that may not grow.
    HeadOverrun(LocalisedInstruction),
    /// Reading a byte failed. The text of the underlying error is included.
    ReadError(LocalisedInstruction, String),
    /// Writing a byte failed. The text of the underlying error is included.
    WriteError(LocalisedInstruction, String),
    /// The run was cut off after taking the interpreter's whole step
    /// budget without halting; no physical run reaches this.
    StepLimitExceeded(LocalisedInstruction),
}

/// The number of successful instruction steps a single run may take.
pub const STEP_LIMIT: u64 = 0xffff_ffff_ffff_ffff;

/// Trait requirements for the tape cells of a [`VirtualMachine`]: a cell
/// carries one byte with wrapping arithmetic, read, write and a zero test.
pub trait CellKind: Sized + Copy {
    /// The byte value this cell holds.
    spec fn cell_value(&self) -> u8;

    /// A cell holding zero: the value of every fresh tape cell.
    fn zeroed() -> (r: Self)
        ensures
            r.cell_value() == 0,
    ;

    /// Increment the value, wrapping on overflow.
    fn wrapping_increment(&mut self)
        ensures
            final(self).cell_value() == wrap_inc(old(self).cell_value()),
    ;

    /// Decrement the value, wrapping on underflow.
    fn wrapping_decrement(&mut self)
        ensures
            final(self).cell_value() == wrap_dec(old(self).cell_value()),
    ;

    /// Set the value of the cell.
    fn set_value(&mut self, value: u8)
        ensures
            final(self).cell_value() == value,
    ;

    /// Get the value of the cell.
    fn get_value(&self) -> (r: u8)
        ensures
            r == self.cell_value(),
    ;

    /// Whether the value of the cell is zero.
    fn is_zero(&self) -> (r: bool)
        ensures
            r == (self.cell_value() == 0),
    ;
}

impl CellKind for u8 {
    open spec fn cell_value(&self) -> u8 {
        *self
    }

    fn zeroed() -> (r: Self) {
        0
    }

    fn wrapping_increment(&mut self) {
        *self = self.wrapping_add(1);
    }

    fn wrapping_decrement(&mut self) {
        *self = self.wrapping_sub(1);
    }

    fn set_value(&mut self, value: u8) {
        *self = value;
    }

    fn get_value(&self) -> (r: u8) {
        *self
    }

    fn is_zero(&self) -> (r: bool) {
        *self == 0
    }
}

/// A virtual machine: a tape of cells under a movable head, a program
/// counter, and the program it runs. The cell type is anything
/// implementing [`CellKind`].
#[derive(Debug)]
pub struct VirtualMachine<'a, T> {
    /// The tape.
    pub cells: Vec<T>,
    /// The index of the cell under the head.
    pub head: usize,
    /// Whether the tape may grow at its end.
    pub tape_can_grow: bool,
    /// The index of the next instruction to execute.
    pub program_counter: usize,
    /// The validated program this machine runs.
    pub program: &'a BfProgram,
}

impl<'a, T: CellKind> VirtualMachine<'a, T> {
    /// The bytes on the tape, in order.
    pub open spec fn tape(&self) -> Seq<u8> {
        self.cells@.map_values(|c: T| c.cell_value())
    }

    /// The machine's state as the semantics sees it, joined with the bytes
    /// still unread on a source and the bytes already written to a sink.
    pub open spec fn mstate(&self, input: Seq<u8>, output: Seq<u8>) -> MState {
        MState {
            cells: self.tape(),
            head: self.head as int,
            pc: self.program_counter as int,
            grow: self.tape_can_grow,
            input,
            output,
        }
    }

    /// A machine fit to run: the head rests on the tape and the program's
    /// jump table is fully resolved.
    pub open spec fn wf(&self) -> bool {
        &&& self.head < self.cells@.len()
        &&& self.program.wf()
    }

    /// Create a new machine for `program`. The tape gets `tape_size` cells
    /// — 30,000 if unspecified — all zero, with the head on the first cell
    /// and the program counter on the first instruction.
    pub fn new(program: &'a BfProgram, tape_size: Option<usize>, tape_can_grow: bool) -> (r: Self)
        requires
            tape_size matches Some(n) ==> n > 0,
            program.wf(),
        ensures
            r.program == program,
            r.head == 0,
            r.program_counter == 0,
            r.tape_can_grow == tape_can_grow,
            r.cells@.len() == match tape_size {
                Some(n) => n,
                None => 30000usize,
            },
            forall|i: int| 0 <= i < r.tape().len() ==> r.tape()[i] == 0,
            r.wf(),
    {
        let tape_size: usize = match tape_size {
            Some(n) => n,
            None => 30_000,
        };
        let mut cells: Vec<T> = Vec::new();
        let mut i: usize = 0;
        while i < tape_size
            invariant
                i <= tape_size,
                cells@.len() == i,
                forall|k: int| 0 <= k < i ==> (#[trigger] cells@[k]).cell_value() == 0,
            decreases tape_size - i,
        {
            cells.push(T::zeroed());
            i = i + 1;
        }
        Self { cells, head: 0, tape_can_grow, program, program_counter: 0 }
    }

    /// Move the head one cell towards the start of the tape. At the first
    /// cell the move fails, and nothing changes.
    pub fn move_head_left(&mut self) -> (r: Result<usize, VMError>)
        requires
            old(self).wf(),
            old(self).program_counter < old(self).program.instructions@.len(),
        ensures
            final(self).program == old(self).program,
            final(self).cells == old(self).cells,
            final(self).tape_can_grow == old(self).tape_can_grow,
            final(self).program_counter == old(self).program_counter,
            final(self).wf(),
            old(self).head > 0 ==> r == Ok::<usize, VMError>(
                (old(self).program_counter + 1) as usize,
            ) && final(self).head == old(self).head - 1,
            old(self).head == 0 ==> r == Err::<usize, VMError>(
                VMError::HeadUnderrun(
                    old(self).program.instructions@[old(self).program_counter as int],
                ),
            ) && final(self).head == old(self).head,
    {
        if self.head > 0 {
            self.head = self.head - 1;
            proof {
                lemma_vec_len_bound(&self.program.instructions);
            }
            Ok(self.program_counter + 1)
        } else {
            let bad_instruction = self.program.instructions[self.program_counter];
            Err(VMError::HeadUnderrun(bad_instruction))
        }
    }

    /// Move the head one cell towards the end of the tape. Crossing the end
    /// grows the tape by exactly one zero cell when growth is enabled;
    /// otherwise the move fails, and nothing changes.
    pub fn move_head_right(&mut self) -> (r: Result<usize, VMError>)
        requires
            old(self).wf(),
            old(self).program_counter < old(self).program.instructions@.len(),
        ensures
            final(self).program == old(self).program,
            final(self).tape_can_grow == old(self).tape_can_grow,
            final(self).program_counter == old(self).program_counter,
            final(self).wf(),
            old(self).head + 1 < old(self).cells@.len() ==> r == Ok::<usize, VMError>(
                (old(self).program_counter + 1) as usize,
            ) && final(self).head == old(self).head + 1 && final(self).cells == old(self).cells,
            old(self).head + 1 == old(self).cells@.len() && old(self).tape_can_grow ==> r
                == Ok::<usize, VMError>((old(self).program_counter + 1) as usize) && final(self).head == old(self).head + 1 && final(self).tape() == old(self).tape().push(0),
            old(self).head + 1 == old(self).cells@.len() && !old(self).tape_can_grow ==> r
                == Err::<usize, VMError>(
                VMError::HeadOverrun(
                    old(self).program.instructions@[old(self).program_counter as int],
                ),
            ) && final(self).head == old(self).head && final(self).cells == old(self).cells,
    {
        proof {
            lemma_vec_len_bound(&self.cells);
        }
        if self.head + 1 < self.cells.len() {
            self.head = self.head + 1;
            proof {
                lemma_vec_len_bound(&self.program.instructions);
            }
            Ok(self.program_counter + 1)
        } else if self.tape_can_grow {
            self.head = self.head + 1;
            self.cells.push(T::zeroed());
            proof {
                assert(self.tape() =~= old(self).tape().push(0));
                lemma_vec_len_bound(&self.program.instructions);
            }
            Ok(self.program_counter + 1)
        } else {
            let bad_instruction = self.program.instructions[self.program_counter];
            Err(VMError::HeadOverrun(bad_instruction))
        }
    }

    /// Perform a wrapping increment on the cell under the head.
    pub fn increment_cell(&mut self) -> (r: Result<usize, VMError>)
        requires
            old(self).wf(),
            old(self).program_counter < old(self).program.instructions@.len(),
        ensures
            final(self).program == old(self).program,
            final(self).tape_can_grow == old(self).tape_can_grow,
            final(self).program_counter == old(self).program_counter,
            final(self).head == old(self).head,
            final(self).wf(),
            r == Ok::<usize, VMError>((old(self).program_counter + 1) as usize),
            final(self).tape() == old(self).tape().update(
                old(self).head as int,
                wrap_inc(old(self).tape()[old(self).head as int]),
            ),
    {
        let head = self.head;
        let mut c: T = self.cells[head];
        c.wrapping_increment();
        self.cells.set(head, c);
        proof {
            assert(self.tape() =~= old(self).tape().update(
                old(self).head as int,
                wrap_inc(old(self).tape()[old(self).head as int]),
            ));
            lemma_vec_len_bound(&self.program.instructions);
        }
        Ok(self.program_counter + 1)
    }

    /// Perform a wrapping decrement on the cell under the head.
    pub fn decrement_cell(&mut self) -> (r: Result<usize, VMError>)
        requires
            old(self).wf(),
            old(self).program_counter < old(self).program.instructions@.len(),
        ensures
            final(self).program == old(self).program,
            final(self).tape_can_grow == old(self).tape_can_grow,
            final(self).program_counter == old(self).program_counter,
            final(self).head == old(self).head,
            final(self).wf(),
            r == Ok::<usize, VMError>((old(self).program_counter + 1) as usize),
            final(self).tape() == old(self).tape().update(
                old(self).head as int,
                wrap_dec(old(self).tape()[old(self).head as int]),
            ),
    {
        let head = self.head;
        let mut c: T = self.cells[head];
        c.wrapping_decrement();
        self.cells.set(head, c);
        proof {
            assert(self.tape() =~= old(self).tape().update(
                old(self).head as int,
                wrap_dec(old(self).tape()[old(self).head as int]),
            ));
            lemma_vec_len_bound(&self.program.instructions);
        }
        Ok(self.program_counter + 1)
    }

    /// Read a single byte from `source` into the cell under the head. A
    /// failed read changes neither the tape nor the source.
    pub fn read_value<S: ByteSource>(&mut self, source: &mut S) -> (r: Result<usize, VMError>)
        requires
            old(self).wf(),
            old(self).program_counter < old(self).program.instructions@.len(),
        ensures
            final(self).program == old(self).program,
            final(self).tape_can_grow == old(self).tape_can_grow,
            final(self).program_counter == old(self).program_counter,
            final(self).head == old(self).head,
            final(self).wf(),
            r matches Ok(np) ==> np == old(self).program_counter + 1 && old(source).bytes().len() > 0 && final(source).bytes() == old(source).bytes().drop_first()
                && final(self).tape() == old(self).tape().update(
                old(self).head as int,
                old(source).bytes()[0],
            ),
            r matches Err(e) ==> (e matches VMError::ReadError(li, _) && li == old(self).program.instructions@[old(self).program_counter as int]) && final(source).bytes()
                == old(source).bytes() && final(self).cells == old(self).cells,
    {
        match source.read_byte() {
            Ok(value) => {
                let head = self.head;
                let mut c: T = self.cells[head];
                c.set_value(value);
                self.cells.set(head, c);
                proof {
                    assert(self.tape() =~= old(self).tape().update(
                        old(self).head as int,
                        old(source).bytes()[0],
                    ));
                    lemma_vec_len_bound(&self.program.instructions);
                }
                Ok(self.program_counter + 1)
            },
            Err(cause) => {
                let bad_instruction = self.program.instructions[self.program_counter];
                Err(VMError::ReadError(bad_instruction, cause))
            },
        }
    }

    /// Print the value under the head to `output`, flushing after the
    /// write. A failure on the write appends nothing; a failure on the
    /// flush comes after the byte was already written.
    pub fn print_value<S: ByteSink>(&self, output: &mut S) -> (r: Result<usize, VMError>)
        requires
            self.wf(),
            self.program_counter < self.program.instructions@.len(),
        ensures
            r matches Ok(np) ==> np == self.program_counter + 1 && final(output).bytes() == old(output).bytes().push(self.tape()[self.head as int]),
            r matches Err(e) ==> (e matches VMError::WriteError(li, _) && li
                == self.program.instructions@[self.program_counter as int]) && (final(output).bytes() == old(output).bytes() || final(output).bytes() == old(output).bytes().push(self.tape()[self.head as int])),
    {
        let value = self.cells[self.head].get_value();
        let write_result = output.write_byte(value);
        match write_result {
            Ok(()) => {
                match output.flush_sink() {
                    Ok(()) => {
                        proof {
                            lemma_vec_len_bound(&self.program.instructions);
                        }
                        Ok(self.program_counter + 1)
                    },
                    Err(cause) => {
                        let bad_instruction = self.program.instructions[self.program_counter];
                        Err(VMError::WriteError(bad_instruction, cause))
                    },
                }
            },
            Err(cause) => {
                let bad_instruction = self.program.instructions[self.program_counter];
                Err(VMError::WriteError(bad_instruction, cause))
            },
        }
    }

    /// The next instruction index when the cell under the head decides a
    /// forward jump: one past the partner bracket if the cell is zero, the
    /// next instruction otherwise.
    pub fn conditional_jump_forward(&self) -> (r: Result<usize, VMError>)
        requires
            self.wf(),
            self.program_counter < self.program.instructions@.len(),
        ensures
            r == Ok::<usize, VMError>(
                if self.tape()[self.head as int] == 0 {
                    (jump_dest(self.program.jump_map@, self.program_counter as int)) as usize
                } else {
                    (self.program_counter + 1) as usize
                },
            ),
    {
        if self.cells[self.head].is_zero() {
            Ok(self.program.jump_target(self.program_counter))
        } else {
            proof {
                lemma_vec_len_bound(&self.program.instructions);
            }
            Ok(self.program_counter + 1)
        }
    }

    /// The next instruction index when the cell under the head decides a
    /// backward jump: one past the partner bracket if the cell is nonzero,
    /// the next instruction otherwise.
    pub fn conditional_jump_backward(&self) -> (r: Result<usize, VMError>)
        requires
            self.wf(),
            self.program_counter < self.program.instructions@.len(),
        ensures
            r == Ok::<usize, VMError>(
                if self.tape()[self.head as int] != 0 {
                    (jump_dest(self.program.jump_map@, self.program_counter as int)) as usize
                } else {
                    (self.program_counter + 1) as usize
                },
            ),
    {
        if self.cells[self.head].is_zero() {
            proof {
                lemma_vec_len_bound(&self.program.instructions);
            }
            Ok(self.program_counter + 1)
        } else {
            Ok(self.program.jump_target(self.program_counter))
        }
    }

    /// Interpret the program the machine was instantiated with, reading
    /// single bytes from `input` and writing single bytes to `output`.
    ///
    /// The result is pinned to the mathematical run of the machine: on
    /// `Ok`, the machine took some number of successful steps and the
    /// program counter reached the instruction count; on any other error,
    /// it took some number of successful steps and then failed exactly as
    /// [`step_fails`] describes. A run that takes the whole astronomical
    /// step budget without halting or failing is cut off.
    pub fn interpret<I: ByteSource, O: ByteSink>(&mut self, input: &mut I, output: &mut O) -> (r:
        Result<(), VMError>)
        requires
            old(self).wf(),
            old(self).program_counter <= old(self).program.instructions@.len(),
        ensures
            final(self).program == old(self).program,
            final(self).tape_can_grow == old(self).tape_can_grow,
            final(self).wf(),
            ({
                let code = old(self).program.code();
                let jumps = old(self).program.jump_map@;
                let instrs = old(self).program.instructions@;
                let s0 = old(self).mstate(old(input).bytes(), old(output).bytes());
                let sf = final(self).mstate(final(input).bytes(), final(output).bytes());
                match r {
                    Ok(()) => exists|n: nat|
                        can_run(code, jumps, s0, n) && sf == #[trigger] run_n(code, jumps, s0, n)
                            && sf.pc == code.len(),
                    Err(e) => if e is StepLimitExceeded {
                        &&& can_run(code, jumps, s0, STEP_LIMIT as nat)
                        &&& sf == run_n(code, jumps, s0, STEP_LIMIT as nat)
                        &&& sf.pc < code.len()
                        &&& e == VMError::StepLimitExceeded(instrs[sf.pc])
                    } else {
                        exists|n: nat|
                            can_run(code, jumps, s0, n) && step_fails(
                                code,
                                instrs,
                                #[trigger] run_n(code, jumps, s0, n),
                                e,
                                sf,
                            )
                    },
                }
            }),
    {
        let ghost code = self.program.code();
        let ghost jumps = self.program.jump_map@;
        let ghost instrs = self.program.instructions@;
        let ghost s0 = self.mstate(input.bytes(), output.bytes());
        let mut steps: u64 = 0;
        while self.program_counter < self.program.instructions.len()
            invariant
                self.program == old(self).program,
                self.tape_can_grow == old(self).tape_can_grow,
                self.wf(),
                self.program_counter <= self.program.instructions@.len(),
                code == self.program.code(),
                jumps == self.program.jump_map@,
                instrs == self.program.instructions@,
                s0 == old(self).mstate(old(input).bytes(), old(output).bytes()),
                steps <= STEP_LIMIT,
                can_run(code, jumps, s0, steps as nat),
                self.mstate(input.bytes(), output.bytes()) == run_n(code, jumps, s0, steps as nat),
            decreases STEP_LIMIT - steps,
        {
            if steps == STEP_LIMIT {
                let bad_instruction = self.program.instructions[self.program_counter];
                return Err(VMError::StepLimitExceeded(bad_instruction));
            }
            let kind = self.program.instructions[self.program_counter].instruction;
            let ghost pre = self.mstate(input.bytes(), output.bytes());
            proof {
                assert(code[pre.pc] == kind);
            }
            let step_result = match kind {
                Instruction::MoveLeft => self.move_head_left(),
                Instruction::MoveRight => self.move_head_right(),
                Instruction::Increment => self.increment_cell(),
                Instruction::Decrement => self.decrement_cell(),
                Instruction::Input => self.read_value(input),
                Instruction::Output => self.print_value(output),
                Instruction::ConditionalJumpForward => self.conditional_jump_forward(),
                Instruction::ConditionalJumpBackward => self.conditional_jump_backward(),
            };
            match step_result {
                Ok(next_pc) => {
                    self.program_counter = next_pc;
                    proof {
                        if kind == Instruction::ConditionalJumpForward || kind
                            == Instruction::ConditionalJumpBackward {
                            assert(jumps[pre.pc] is Some && jumps[pre.pc]->0 <= code.len());
                        }
                        assert(can_step(code, jumps, pre));
                        assert(self.mstate(input.bytes(), output.bytes()) =~= step1(
                            code,
                            jumps,
                            pre,
                        ));
                        lemma_run_snoc(code, jumps, s0, steps as nat);
                    }
                    steps = steps + 1;
                },
                Err(e) => {
                    proof {
                        let sf = self.mstate(input.bytes(), output.bytes());
                        assert(step_fails(code, instrs, pre, e, sf));
                        assert(can_run(code, jumps, s0, steps as nat) && step_fails(
                            code,
                            instrs,
                            run_n(code, jumps, s0, steps as nat),
                            e,
                            sf,
                        ));
                    }
                    return Err(e);
                },
            }
        }
        proof {
            let sf = self.mstate(input.bytes(), output.bytes());
            assert(can_run(code, jumps, s0, steps as nat) && sf == run_n(
                code,
                jumps,
                s0,
                steps as nat,
            ) && sf.pc == code.len());
        }
        Ok(())
    }
}

/// How a run can fail on the instruction at `s.pc`: the error it reports
/// and the machine state it leaves behind. Head errors and read failures
/// leave the state exactly as it was; a write failure may come after the
/// byte already went out (the flush failed).
pub open spec fn step_fails(
    code: Seq<Instruction>,
    instrs: Seq<LocalisedInstruction>,
    s: MState,
    e: VMError,
    t: MState,
) -> bool {
    &&& 0 <= s.pc < code.len()
    &&& match code[s.pc] {
        Instruction::MoveLeft => s.head == 0 && e == VMError::HeadUnderrun(instrs[s.pc]) && t == s,
        Instruction::MoveRight => s.head + 1 == s.cells.len() && !s.grow && e
            == VMError::HeadOverrun(instrs[s.pc]) && t == s,
        Instruction::Input => (e matches VMError::ReadError(li, _) && li == instrs[s.pc]) && t
            == s,
        Instruction::Output => (e matches VMError::WriteError(li, _) && li == instrs[s.pc]) && (t
            == s || t == MState { output: s.output.push(s.cells[s.head]), ..s }),
        _ => false,
    }
}

} // verus!
