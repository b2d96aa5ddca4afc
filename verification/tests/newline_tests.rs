use bft::BfProgram;
use bft::VecSink;
use bft::VecSource;
use bft::VirtualMachine;
use bft::WriterWithTrailingNewline;

#[test]
fn test_output_with_newline() {
    let prog_contents = ",.,."; // simply take one byte and echo it back
    let program = BfProgram::new("echo.bf", prog_contents).unwrap();
    let mut vm: VirtualMachine<u8> = VirtualMachine::new(&program, None, false);

    let mut input_source = VecSource::new(vec![b'A', b'\n']);
    let mut output_writer = WriterWithTrailingNewline::new(VecSink::new());

    vm.interpret(&mut input_source, &mut output_writer).unwrap();
    output_writer.finish().unwrap();

    let expected = [b'A', b'\n'];
    assert_eq!(output_writer.inner_writer.data, expected);
}

#[test]
fn test_output_without_newline() {
    let prog_contents = ",.,."; // simply take one byte and echo it back
    let program = BfProgram::new("echo.bf", prog_contents).unwrap();
    let mut vm: VirtualMachine<u8> = VirtualMachine::new(&program, None, false);

    let mut input_source = VecSource::new(vec![b'A', b'B']);
    let mut output_writer = WriterWithTrailingNewline::new(VecSink::new());

    vm.interpret(&mut input_source, &mut output_writer).unwrap();
    output_writer.finish().unwrap();

    let expected = [b'A', b'B', b'\n'];
    assert_eq!(output_writer.inner_writer.data, expected);
}
