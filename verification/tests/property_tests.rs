use bft::AnalysisError;
use bft::BfProgram;
use bft::Instruction;
use bft::VMError;
use bft::VecSink;
use bft::VecSource;
use bft::VirtualMachine;

// An empty source text builds an empty program, and running it produces
// nothing.
#[test]
fn empty_program_runs_to_completion() {
    let program = BfProgram::new("empty.bf", "").unwrap();
    assert_eq!(program.localised_instructions().len(), 0);

    let mut vm: VirtualMachine<u8> = VirtualMachine::new(&program, Some(1), false);
    let mut source = VecSource::new(Vec::new());
    let mut sink = VecSink::new();
    assert!(vm.interpret(&mut source, &mut sink).is_ok());
    assert!(sink.data.is_empty());
}

// The lexer records 1-indexed lines and columns and skips comments.
#[test]
fn lexer_records_lines_and_columns() {
    let program = BfProgram::new("located.bf", "a+\n  -").unwrap();
    let instructions = program.localised_instructions();
    assert_eq!(instructions.len(), 2);
    assert_eq!(instructions[0].instruction(), Instruction::Increment);
    assert_eq!(instructions[0].line_num(), 1);
    assert_eq!(instructions[0].column_num(), 2);
    assert_eq!(instructions[1].instruction(), Instruction::Decrement);
    assert_eq!(instructions[1].line_num(), 2);
    assert_eq!(instructions[1].column_num(), 3);
}

// Nested pairs point one past their partners, in both directions.
#[test]
fn nested_brackets_resolve_to_partners() {
    let program = BfProgram::new("nested.bf", "[[]]").unwrap();
    assert_eq!(program.jump_target(0), 4);
    assert_eq!(program.jump_target(3), 1);
    assert_eq!(program.jump_target(1), 3);
    assert_eq!(program.jump_target(2), 2);
}

// With several brackets left open, the outermost one is reported.
#[test]
fn outermost_unmatched_open_bracket_reported() {
    let result = BfProgram::new("open.bf", ".[+[-[");
    let error = result.unwrap_err();
    match error {
        AnalysisError::UnmatchedOpeningBracket(li) => {
            assert_eq!(li.line_num(), 1);
            assert_eq!(li.column_num(), 2);
        }
        _ => panic!("expected an unmatched opening bracket"),
    }
}

// The first excess closing bracket is reported, at its own position.
#[test]
fn first_excess_close_bracket_reported() {
    let result = BfProgram::new("close.bf", "[]]+]");
    let error = result.unwrap_err();
    match error {
        AnalysisError::UnmatchedClosingBracket(li) => {
            assert_eq!(li.line_num(), 1);
            assert_eq!(li.column_num(), 3);
        }
        _ => panic!("expected an unmatched closing bracket"),
    }
}

// Building a program and re-deriving the instruction kinds yields exactly
// the non-comment characters of the text, in order.
#[test]
fn round_trip_keeps_command_characters() {
    let program = BfProgram::new("round.bf", "a+b- <np>\n[,\t.]").unwrap();
    let kinds: Vec<Instruction> = program
        .localised_instructions()
        .iter()
        .map(|li| li.instruction())
        .collect();
    let expected = vec![
        Instruction::Increment,
        Instruction::Decrement,
        Instruction::MoveLeft,
        Instruction::MoveRight,
        Instruction::ConditionalJumpForward,
        Instruction::Input,
        Instruction::Output,
        Instruction::ConditionalJumpBackward,
    ];
    assert_eq!(kinds, expected);
}

// Increment then decrement leaves a cell unchanged, and so does the other
// order, across the wrap boundary included.
#[test]
fn increment_decrement_inverse() {
    let program = BfProgram::new("cells.bf", "+-").unwrap();
    let mut vm: VirtualMachine<u8> = VirtualMachine::new(&program, Some(1), false);

    vm.cells[0] = 200;
    vm.increment_cell().unwrap();
    vm.decrement_cell().unwrap();
    assert_eq!(vm.cells[0], 200);

    vm.cells[0] = 255;
    vm.increment_cell().unwrap();
    assert_eq!(vm.cells[0], 0);
    vm.decrement_cell().unwrap();
    assert_eq!(vm.cells[0], 255);

    vm.cells[0] = 0;
    vm.decrement_cell().unwrap();
    assert_eq!(vm.cells[0], 255);
    vm.increment_cell().unwrap();
    assert_eq!(vm.cells[0], 0);
}

// On a fixed tape of three cells, exactly two right moves from the start
// succeed; the third fails with a head overrun and moves nothing.
#[test]
fn fixed_tape_overruns_after_len_minus_one_moves() {
    let program = BfProgram::new("moves.bf", ">>>").unwrap();
    let mut vm: VirtualMachine<u8> = VirtualMachine::new(&program, Some(3), false);

    assert!(vm.move_head_right().is_ok());
    assert!(vm.move_head_right().is_ok());
    assert_eq!(vm.head, 2);
    let result = vm.move_head_right();
    assert!(matches!(result, Err(VMError::HeadOverrun(_))));
    assert_eq!(vm.head, 2);
    assert_eq!(vm.cells.len(), 3);
}

// On a growable tape, each boundary crossing grows the tape by exactly one
// cell, and the move never fails.
#[test]
fn growable_tape_grows_one_cell_per_crossing() {
    let program = BfProgram::new("moves.bf", ">>>").unwrap();
    let mut vm: VirtualMachine<u8> = VirtualMachine::new(&program, Some(1), true);

    assert!(vm.move_head_right().is_ok());
    assert_eq!(vm.cells.len(), 2);
    assert!(vm.move_head_right().is_ok());
    assert_eq!(vm.cells.len(), 3);
    assert_eq!(vm.head, 2);
}

// A left move at the first cell always fails with a head underrun and
// mutates nothing.
#[test]
fn left_move_at_start_underruns_without_mutation() {
    let program = BfProgram::new("moves.bf", "<").unwrap();
    let mut vm: VirtualMachine<u8> = VirtualMachine::new(&program, Some(2), true);
    vm.cells[0] = 7;
    vm.cells[1] = 9;

    let result = vm.move_head_left();

    assert!(matches!(result, Err(VMError::HeadUnderrun(_))));
    assert_eq!(vm.head, 0);
    assert_eq!(vm.cells, vec![7, 9]);
}

// The echo program copies its two input bytes to the output, on a
// one-cell fixed tape as well as on a large one.
#[test]
fn echo_program_echoes_two_bytes() {
    for tape_size in [1usize, 5, 30_000] {
        let program = BfProgram::new("echo.bf", ",.,.").unwrap();
        let mut vm: VirtualMachine<u8> = VirtualMachine::new(&program, Some(tape_size), false);
        let mut source = VecSource::new(vec![0x41, 0x0A]);
        let mut sink = VecSink::new();

        vm.interpret(&mut source, &mut sink).unwrap();

        assert_eq!(sink.data, vec![0x41, 0x0A]);
    }
}

// A loop that moves a counted value across the tape: cell 1 ends holding
// sixteen.
#[test]
fn loop_program_leaves_sixteen_in_cell_one() {
    let program = BfProgram::new("loop.bf", "++[>++++++++<-]").unwrap();
    let mut vm: VirtualMachine<u8> = VirtualMachine::new(&program, None, false);
    let mut source = VecSource::new(Vec::new());
    let mut sink = VecSink::new();

    vm.interpret(&mut source, &mut sink).unwrap();

    assert_eq!(vm.cells[0], 0);
    assert_eq!(vm.cells[1], 16);
}

// A read from an exhausted source surfaces as a read error carrying the
// located instruction.
#[test]
fn exhausted_source_gives_read_error() {
    let program = BfProgram::new("read.bf", ",").unwrap();
    let mut vm: VirtualMachine<u8> = VirtualMachine::new(&program, Some(1), false);
    let mut source = VecSource::new(Vec::new());
    let mut sink = VecSink::new();

    let result = vm.interpret(&mut source, &mut sink);

    match result {
        Err(VMError::ReadError(li, _)) => {
            assert_eq!(li.line_num(), 1);
            assert_eq!(li.column_num(), 1);
        }
        other => panic!("expected a read error, got {:?}", other),
    }
}

// A write to a full sink surfaces as a write error carrying the located
// instruction.
#[test]
fn full_sink_gives_write_error() {
    let program = BfProgram::new("write.bf", "..").unwrap();
    let mut vm: VirtualMachine<u8> = VirtualMachine::new(&program, Some(1), false);
    let mut source = VecSource::new(Vec::new());
    let mut sink = VecSink::with_capacity(1);

    let result = vm.interpret(&mut source, &mut sink);

    match result {
        Err(VMError::WriteError(li, _)) => {
            assert_eq!(li.line_num(), 1);
            assert_eq!(li.column_num(), 2);
            assert_eq!(sink.data, vec![0]);
        }
        other => panic!("expected a write error, got {:?}", other),
    }
}

// Each instruction kind describes itself the same way the interpreter's
// diagnostics always have.
#[test]
fn instruction_descriptions() {
    assert_eq!(Instruction::MoveLeft.description(), "Move tape head left");
    assert_eq!(
        Instruction::ConditionalJumpForward.description(),
        "Jump forward to the matching ] if the cell is zero"
    );
}
