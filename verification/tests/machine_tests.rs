use bft::BfProgram;
use bft::CellKind;
use bft::VMError;
use bft::VecSink;
use bft::VecSource;
use bft::VirtualMachine;

fn make_placeholder_program() -> BfProgram {
    BfProgram::new("test_file.bf", ",.[test]+++.").unwrap()
}

// Does creating a VM with all parameters explicitly specified work?
#[test]
fn test_create_vm_explicit_params() {
    let placeholder_program = make_placeholder_program();
    let test_program = placeholder_program.clone();
    let tape_size = Some(10_000);
    let vm: VirtualMachine<u8> = VirtualMachine::new(&placeholder_program, tape_size, true);

    assert_eq!(vm.cells.len(), 10_000);
    assert_eq!(vm.head, 0);
    assert!(vm.tape_can_grow);
    assert_eq!(vm.program_counter, 0);
    assert_eq!(*vm.program, test_program);
}

// Does creating a VM with a default tape size work?
#[test]
fn test_create_vm_default_params() {
    let placeholder_program = make_placeholder_program();

    let vm: VirtualMachine<u8> = VirtualMachine::new(&placeholder_program, None, true);

    assert_eq!(vm.cells.len(), 30_000);
}

// Does moving the head left work?
#[test]
fn test_move_head_left_extensible_good() {
    let test_program = make_placeholder_program();
    let mut vm: VirtualMachine<u8> = VirtualMachine::new(&test_program, None, true);
    vm.head = 5;

    let result = vm.move_head_left();

    assert!(result.is_ok());
    assert_eq!(vm.head, 4);
}

// Does moving the head left at the start of the tape error correctly?
#[test]
fn test_move_head_left_extensible_bad() {
    let test_program = make_placeholder_program();
    let bad_instruction = test_program.localised_instructions()[0];

    let mut vm: VirtualMachine<u8> = VirtualMachine::new(&test_program, None, true);

    let result = vm.move_head_left();
    let expected_error: Result<usize, VMError> = Err(VMError::HeadUnderrun(bad_instruction));

    assert!(result.is_err());
    assert_eq!(result, expected_error);
}

// Does moving the head right on an extensible tape work when the head has space to move?
#[test]
fn test_move_head_right_extensible_good() {
    let test_program = make_placeholder_program();
    let tape_len = Some(1000);
    let mut vm: VirtualMachine<u8> = VirtualMachine::new(&test_program, tape_len, true);

    let result = vm.move_head_right();

    assert!(result.is_ok());
    assert_eq!(vm.head, 1);
}

// Does moving the head right on an fixed tape work?
#[test]
fn test_move_head_right_fixed_good() {
    let test_program = make_placeholder_program();
    let mut vm: VirtualMachine<u8> = VirtualMachine::new(&test_program, None, false);

    let result = vm.move_head_right();

    assert!(result.is_ok());
    assert_eq!(vm.head, 1);
}

// Does moving the head right at the end of a fixed tape error correctly?
#[test]
fn test_move_head_right_fixed_bad() {
    let test_program = make_placeholder_program();
    let bad_instruction = test_program.localised_instructions()[0];
    let tape_len = Some(1000);
    let mut vm: VirtualMachine<u8> = VirtualMachine::new(&test_program, tape_len, false);
    vm.head = 999;

    let result = vm.move_head_right();
    let expected_error: Result<usize, VMError> = Err(VMError::HeadOverrun(bad_instruction));

    assert!(result.is_err());
    assert_eq!(result, expected_error);
}

// Does moving the head right at the end of an extensible tape make the tape grow?
#[test]
fn test_auto_tape_extension() {
    let test_program = make_placeholder_program();
    let tape_len = Some(1000);
    let mut vm: VirtualMachine<u8> = VirtualMachine::new(&test_program, tape_len, true);

    vm.head = 999;

    let result = vm.move_head_right();

    assert!(result.is_ok());
    assert_eq!(vm.head, 1000);
    assert_eq!(vm.cells.len(), 1001);
}

// For u8, does incrementing without wrapping work?
#[test]
fn test_u8_increment_no_wrap() {
    let test_program = make_placeholder_program();
    let mut vm: VirtualMachine<u8> = VirtualMachine::new(&test_program, None, false);

    vm.cells[0] = 10;
    let _ = vm.increment_cell();

    assert_eq!(vm.cells[0], 11);
}

// For u8, does incrementing wrap around the max value?
#[test]
fn test_u8_increment_wrap() {
    let test_program = make_placeholder_program();
    let mut vm: VirtualMachine<u8> = VirtualMachine::new(&test_program, None, false);

    vm.cells[0] = u8::MAX;
    let _ = vm.increment_cell();

    assert_eq!(vm.cells[0], u8::MIN);
}

// For u8, does decrementing without wrapping work?
#[test]
fn test_u8_decrement_no_wrap() {
    let test_program = make_placeholder_program();
    let mut vm: VirtualMachine<u8> = VirtualMachine::new(&test_program, None, false);

    vm.cells[0] = 10;
    let _ = vm.decrement_cell();

    assert_eq!(vm.cells[0], 9);
}

// For u8, does decrementing wrap around the min value?
#[test]
fn test_u8_decrement_wrap() {
    let test_program = make_placeholder_program();
    let mut vm: VirtualMachine<u8> = VirtualMachine::new(&test_program, None, false);

    vm.cells[0] = u8::MIN;
    let _ = vm.decrement_cell();

    assert_eq!(vm.cells[0], u8::MAX);
}

// does reading a byte into a cell work?
#[test]
fn test_read() {
    let test_program = make_placeholder_program();
    let mut vm: VirtualMachine<u8> = VirtualMachine::new(&test_program, None, false);
    let mut source = VecSource::new(vec![1, 2, 3]);

    let result = vm.read_value(&mut source);

    assert!(result.is_ok());
    assert_eq!(vm.cells[0], 1);
}

// does reading error when the buffer has nothing to read
#[test]
fn test_read_bad() {
    let test_program = make_placeholder_program();
    let mut vm: VirtualMachine<u8> = VirtualMachine::new(&test_program, None, false);
    let mut source = VecSource::new(Vec::new()); // empty source to break the thing

    let result = vm.read_value(&mut source);

    assert!(result.is_err());
}

// does writing a byte from a cell work?
#[test]
fn test_write() {
    let test_program = make_placeholder_program();
    let mut vm: VirtualMachine<u8> = VirtualMachine::new(&test_program, None, false);
    let mut sink = VecSink::with_capacity(10);

    vm.cells[0] = 65;

    let result = vm.print_value(&mut sink);

    assert!(result.is_ok());
    assert_eq!(sink.data[0], 65);
}

// does writing error correctly when the output has no space?
#[test]
fn test_write_bad() {
    let test_program = make_placeholder_program();
    let vm: VirtualMachine<u8> = VirtualMachine::new(&test_program, None, false);
    let mut sink = VecSink::with_capacity(0);

    let result = vm.print_value(&mut sink);

    assert!(result.is_err());
}

// Helper function for testing jumps
fn jumps_test_program() -> BfProgram {
    let test_program_content = "[..]..";
    BfProgram::new("test_program.bf", test_program_content).unwrap()
}

// Does a conditional jump forward work when the cell under the head is zero
#[test]
fn test_forward_jump_cell_zero() {
    let prog = jumps_test_program();
    let mut vm: VirtualMachine<u8> = VirtualMachine::new(&prog, None, true);

    vm.cells[0].set_value(0);
    vm.program_counter = 0;

    let next_prog_index = vm.conditional_jump_forward().unwrap();

    assert_eq!(next_prog_index, 4)
}

// Does a conditional jump forward work when the cell under the head is not zero
#[test]
fn test_forward_jump_cell_nonzero() {
    let prog = jumps_test_program();
    let mut vm: VirtualMachine<u8> = VirtualMachine::new(&prog, None, true);

    vm.cells[0].set_value(7);
    vm.program_counter = 0;

    let next_prog_index = vm.conditional_jump_forward().unwrap();

    assert_eq!(next_prog_index, 1)
}

// Does a conditional jump backward work when the cell under the head is zero
#[test]
fn test_backward_jump_cell_zero() {
    let prog = jumps_test_program();
    let mut vm: VirtualMachine<u8> = VirtualMachine::new(&prog, None, true);

    vm.cells[0].set_value(0);
    vm.program_counter = 3;

    let next_prog_index = vm.conditional_jump_backward().unwrap();

    assert_eq!(next_prog_index, 4)
}

// Does a conditional jump backward work when the cell under the head is not zero
#[test]
fn test_backward_jump_cell_nonzero() {
    let prog = jumps_test_program();
    let mut vm: VirtualMachine<u8> = VirtualMachine::new(&prog, None, true);

    vm.cells[0].set_value(7);
    vm.program_counter = 3;

    let next_prog_index = vm.conditional_jump_backward().unwrap();

    assert_eq!(next_prog_index, 1)
}

// run a hello world test program
#[test]
fn test_hello_world() {
    let prog_contents = "++++++++++[>+++++++>++++++++++>+++>+<<<<-]>++.>+.+++++++..+++.>++.<<+++++++++++++++.>.+++.------.--------.>+.>.";
    let program = BfProgram::new("hello_world.bf", prog_contents).unwrap();
    let mut vm: VirtualMachine<u8> = VirtualMachine::new(&program, None, false);

    let mut input_source = VecSource::new(vec![0; 10]);
    let mut output_sink = VecSink::new();

    vm.interpret(&mut input_source, &mut output_sink).unwrap();

    let expected = [
        b'H', b'e', b'l', b'l', b'o', b' ', b'W', b'o', b'r', b'l', b'd', b'!', b'\n',
    ];
    assert_eq!(output_sink.data, expected);
}
