use bft::AnalysisError;
use bft::BfProgram;
use bft::Instruction;

/// Check that each char that represents an instruction parses correctly
#[test]
fn parse_chars() {
    assert_eq!(Instruction::from_char('<'), Some(Instruction::MoveLeft));
    assert_eq!(Instruction::from_char('>'), Some(Instruction::MoveRight));
    assert_eq!(Instruction::from_char('+'), Some(Instruction::Increment));
    assert_eq!(Instruction::from_char('-'), Some(Instruction::Decrement));
    assert_eq!(Instruction::from_char(','), Some(Instruction::Input));
    assert_eq!(Instruction::from_char('.'), Some(Instruction::Output));
    assert_eq!(
        Instruction::from_char('['),
        Some(Instruction::ConditionalJumpForward)
    );
    assert_eq!(
        Instruction::from_char(']'),
        Some(Instruction::ConditionalJumpBackward)
    );
}

/// Check that a program can be constructed and records the jump map correctly
#[test]
fn parse_program() {
    let filename = "test_file.bf";
    let lines = "..[<>]..[]..";
    let expected_jump_map: Vec<Option<usize>> = vec![
        None,
        None,
        Some(6),
        None,
        None,
        Some(3),
        None,
        None,
        Some(10),
        Some(9),
        None,
        None,
    ];

    let bf_program = BfProgram::new(filename, lines).unwrap();

    assert_eq!(bf_program.name(), filename);
    assert_eq!(bf_program.jump_map, expected_jump_map);
}

/// check that we find an unmatched [
#[test]
fn test_analyse_unmatched_open_square_bracket() {
    let filename = "test_file.bf";
    let lines = "_>>[<\n][[].,,<\n";

    let result = BfProgram::new(filename, lines);

    // Note: error message text matches the test program specifically
    let expected_message = String::from("test_file.bf: Unmatched bracket on line 2, col 2");

    let error = result.unwrap_err();
    assert!(matches!(error, AnalysisError::UnmatchedOpeningBracket(_)));
    assert_eq!(error.message(filename), expected_message);
}

/// check that we find an unmatched ]
#[test]
fn test_analyse_unmatched_close_square_bracket() {
    let filename = "test_file.bf";
    let lines = "_>>[<\n]].,,<\n";

    let result = BfProgram::new(filename, lines);

    // Note: error message text matches the test program specifically
    let expected_message = String::from("test_file.bf: Unmatched bracket on line 2, col 2");

    let error = result.unwrap_err();
    assert!(matches!(error, AnalysisError::UnmatchedClosingBracket(_)));
    assert_eq!(error.message(filename), expected_message);
}
