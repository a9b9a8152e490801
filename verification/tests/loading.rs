use karma::error::Error;
use karma::execution::State;
use karma::load::{load_file_text, parse_file};
use karma::parse::{interpret, parse_str};
use karma::syntax::Instruction::{Exit, Jump, OutputNumber, Push, SkipIfNotOne};
use karma::syntax::ValueSource::{Constant, Pop};
use karma::syntax::{Direction, Start};

#[test]
fn valid_bytes_are_the_text_they_encode() {
    assert_eq!(load_file_text(b"5;").unwrap(), "5;");
    assert_eq!(load_file_text("1 \u{e9}\u{4e16}".as_bytes()).unwrap(), "1 \u{e9}\u{4e16}");
    assert_eq!(load_file_text(b"").unwrap(), "");
}

#[test]
fn bytes_that_are_not_utf8_are_an_encoding_error() {
    assert!(matches!(
        load_file_text(&[0x35, 0xff, 0x3b]),
        Err(Error::IncompatibleEncoding(_))
    ));
    assert!(matches!(
        load_file_text(&[0xc3]),
        Err(Error::IncompatibleEncoding(_))
    ));
    assert!(matches!(
        parse_file(&[0xe4, 0xb8]),
        Err(Error::IncompatibleEncoding(_))
    ));
}

#[test]
fn a_file_parses_as_its_text_does() {
    assert_eq!(parse_file(b"12+;\n3.").unwrap(), parse_str("12+;\n3.").unwrap());
    assert_eq!(
        parse_file("1 \t2".as_bytes()).unwrap(),
        parse_str("12").unwrap()
    );
    assert!(matches!(parse_file(b"1\n2@"), Err(Error::TrailingSkip(2))));
    assert!(matches!(
        parse_file("1 caf\u{e9}".as_bytes()),
        Err(Error::InvalidCommand('c'))
    ));
    assert!(matches!(
        parse_file("1\n\u{e9}".as_bytes()),
        Err(Error::InvalidCommand('\u{e9}'))
    ));
}

#[test]
fn interpret_keeps_the_instructions_of_a_line_together() {
    assert_eq!(
        interpret("1@2;\n.").unwrap(),
        vec![
            vec![Exit],
            vec![
                Push(Constant(1)),
                SkipIfNotOne,
                Push(Constant(2)),
                OutputNumber(Pop),
                Exit,
            ],
            vec![Jump(Direction::Next, Start::Continue), Exit],
            vec![Exit],
        ]
    );
    assert_eq!(interpret("").unwrap(), vec![vec![Exit], vec![Exit]]);
}

#[test]
fn interpret_goes_on_after_an_empty_line() {
    assert_eq!(
        interpret("1\n\n2").unwrap(),
        vec![
            vec![Exit],
            vec![Push(Constant(1)), Exit],
            vec![Exit],
            vec![Push(Constant(2)), Exit],
            vec![Exit],
        ]
    );
    assert_eq!(interpret("\n").unwrap(), vec![vec![Exit], vec![Exit], vec![Exit]]);
    assert_eq!(interpret("1\r\n").unwrap(), interpret("1").unwrap());
}

#[test]
fn interpret_refuses_a_character_that_is_no_command() {
    assert!(matches!(interpret("1\n\n2@ x"), Err(Error::InvalidCommand('x'))));
    assert!(matches!(interpret("5x"), Err(Error::InvalidCommand('x'))));
    assert!(matches!(interpret("1@\nx"), Err(Error::TrailingSkip(1))));
}

#[test]
fn interpret_refuses_a_line_that_ends_in_a_skip() {
    assert!(matches!(interpret("1\n\n2@ "), Err(Error::TrailingSkip(3))));
    assert!(matches!(interpret("@"), Err(Error::TrailingSkip(1))));
}

#[test]
fn get_instruction_looks_and_advance_passes() {
    let sequences = parse_str("12").unwrap();
    let input = Vec::new();
    let mut state = State::new(&sequences, &input);
    assert_eq!(state.get_instruction(), Some(&Push(Constant(1))));
    assert_eq!(state.get_instruction(), Some(&Push(Constant(1))));
    state.advance();
    assert_eq!(state.get_instruction(), Some(&Push(Constant(2))));
    state.advance();
    state.advance();
    assert_eq!(state.get_instruction(), None);
}
