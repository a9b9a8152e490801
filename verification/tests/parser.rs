use karma::error::Error;
use karma::parse::{characters, parse_line, parse_str, scan_line, split_sections, ControlFlow};
use karma::syntax::Direction::{Current, Next, Previous};
use karma::syntax::Instruction;
use karma::syntax::Instruction::{
    BitwiseNot, Destroy, Exit, Insert, Jump, LogicalNot, OutputCharacter, OutputNumber, Push,
    SkipIfNotOne,
};
use karma::syntax::Operator::{Add, And, Div, Mod, Mul, Or, Sub, Xor};
use karma::syntax::QueueEnd::{Back, Front};
use karma::syntax::Start::{Continue, Restart};
use karma::syntax::ValueSource::{
    CloneTop, Constant, Equal, Greater, Input, Operate, Pop, Remove,
};
use karma::syntax::{Operator, Sequence};

fn binary(operator: Operator) -> Instruction {
    Push(Operate(Box::new(Pop), operator, Box::new(Pop)))
}

fn line(text: &str) -> Result<Sequence, Error> {
    parse_line(&text.chars().collect(), 1)
}

#[test]
fn every_command_character_has_its_instruction() {
    assert_eq!(Instruction::from('+'), Ok(binary(Add)));
    assert_eq!(Instruction::from('-'), Ok(binary(Sub)));
    assert_eq!(Instruction::from('*'), Ok(binary(Mul)));
    assert_eq!(Instruction::from('/'), Ok(binary(Div)));
    assert_eq!(Instruction::from('%'), Ok(binary(Mod)));
    assert_eq!(Instruction::from('&'), Ok(binary(And)));
    assert_eq!(Instruction::from('|'), Ok(binary(Or)));
    assert_eq!(Instruction::from('^'), Ok(binary(Xor)));
    assert_eq!(Instruction::from('~'), Ok(BitwiseNot));
    assert_eq!(Instruction::from('!'), Ok(LogicalNot));
    assert_eq!(Instruction::from('='), Ok(Push(Equal)));
    assert_eq!(Instruction::from('>'), Ok(Push(Greater)));
    assert_eq!(Instruction::from('@'), Ok(SkipIfNotOne));
    assert_eq!(Instruction::from('}'), Ok(Insert(Pop, Front)));
    assert_eq!(Instruction::from('{'), Ok(Push(Remove(Front))));
    assert_eq!(Instruction::from('['), Ok(Insert(Pop, Back)));
    assert_eq!(Instruction::from(']'), Ok(Push(Remove(Back))));
    assert_eq!(Instruction::from('#'), Ok(Destroy));
    assert_eq!(Instruction::from('\\'), Ok(Push(CloneTop)));
    assert_eq!(Instruction::from('?'), Ok(Push(Input)));
    assert_eq!(Instruction::from(':'), Ok(OutputCharacter(Pop)));
    assert_eq!(Instruction::from(';'), Ok(OutputNumber(Pop)));
    assert_eq!(Instruction::from(','), Ok(Jump(Next, Restart)));
    assert_eq!(Instruction::from('.'), Ok(Jump(Next, Continue)));
    assert_eq!(Instruction::from('\''), Ok(Jump(Previous, Continue)));
    assert_eq!(Instruction::from('<'), Ok(Jump(Current, Restart)));
}

#[test]
fn digits_push_their_value() {
    for (value, digit) in "0123456789".chars().enumerate() {
        assert_eq!(Instruction::from(digit), Ok(Push(Constant(value as i64))));
    }
}

#[test]
fn blanks_are_passed_over_and_other_characters_are_not_recognized() {
    assert_eq!(Instruction::from(' '), Err(ControlFlow::Continue));
    assert_eq!(Instruction::from('\t'), Err(ControlFlow::Continue));
    assert_eq!(Instruction::from('a'), Err(ControlFlow::Break));
    assert_eq!(Instruction::from('\r'), Err(ControlFlow::Break));
    assert_eq!(Instruction::from('\u{663}'), Err(ControlFlow::Break));
    assert_eq!(Instruction::from('"'), Err(ControlFlow::Break));
}

#[test]
fn only_jumps_and_skips_break_a_section() {
    assert!(Jump(Next, Restart).breaks_section());
    assert!(Jump(Previous, Continue).breaks_section());
    assert!(SkipIfNotOne.breaks_section());
    assert!(!Exit.breaks_section());
    assert!(!Push(Constant(1)).breaks_section());
    assert!(!Destroy.breaks_section());
    assert!(!OutputNumber(Pop).breaks_section());
}

#[test]
fn characters_are_those_of_the_text() {
    assert_eq!(characters("a1\u{e9};"), vec!['a', '1', '\u{e9}', ';']);
    assert_eq!(characters(""), Vec::<char>::new());
}

#[test]
fn scan_skips_blanks() {
    let scanned = scan_line(&"1 2\t+  3".chars().collect()).unwrap();
    assert_eq!(
        scanned,
        vec![Push(Constant(1)), Push(Constant(2)), binary(Add), Push(Constant(3))]
    );
    assert_eq!(scan_line(&Vec::new()).unwrap(), Vec::<Instruction>::new());
    assert_eq!(scan_line(&" \t".chars().collect()).unwrap(), Vec::<Instruction>::new());
}

#[test]
fn a_character_that_is_no_command_is_an_error() {
    assert!(matches!(
        scan_line(&"1 2\t+ hello 3".chars().collect()),
        Err(Error::InvalidCommand('h'))
    ));
    assert!(matches!(line("5x"), Err(Error::InvalidCommand('x'))));
    assert!(matches!(line("x12"), Err(Error::InvalidCommand('x'))));
    assert!(matches!(line("12yz"), Err(Error::InvalidCommand('y'))));
    assert!(matches!(line("1\r2"), Err(Error::InvalidCommand('\r'))));
    assert!(matches!(line("\u{663}"), Err(Error::InvalidCommand('\u{663}'))));
    assert!(matches!(parse_str("5x"), Err(Error::InvalidCommand('x'))));
    assert!(matches!(parse_str("1\n2\n3 a\n4 b"), Err(Error::InvalidCommand('a'))));
    assert!(matches!(parse_str("\r"), Err(Error::InvalidCommand('\r'))));
}

#[test]
fn the_first_error_of_a_source_is_reported() {
    assert!(matches!(line("1@ x"), Err(Error::InvalidCommand('x'))));
    assert!(matches!(line("x@"), Err(Error::InvalidCommand('x'))));
    assert!(matches!(parse_str("1@\n2x"), Err(Error::TrailingSkip(1))));
    assert!(matches!(parse_str("1x\n2@"), Err(Error::InvalidCommand('x'))));
    assert!(parse_str("1\n\n2x").is_ok());
}

#[test]
fn a_line_without_jumps_is_one_section() {
    assert_eq!(
        line("5;").unwrap(),
        vec![vec![Push(Constant(5)), OutputNumber(Pop), Exit]]
    );
    assert_eq!(line("").unwrap(), vec![vec![Exit]]);
    assert_eq!(line(" \t ").unwrap(), vec![vec![Exit]]);
}

#[test]
fn a_jump_ends_its_section() {
    assert_eq!(
        line("1,2.").unwrap(),
        vec![
            vec![Push(Constant(1)), Jump(Next, Restart)],
            vec![Push(Constant(2)), Jump(Next, Continue)],
            vec![Exit],
        ]
    );
}

#[test]
fn a_skip_is_followed_by_a_section_of_one_instruction() {
    assert_eq!(
        line("1@23;4;").unwrap(),
        vec![
            vec![Push(Constant(1)), SkipIfNotOne],
            vec![Push(Constant(2))],
            vec![
                Push(Constant(3)),
                OutputNumber(Pop),
                Push(Constant(4)),
                OutputNumber(Pop),
                Exit,
            ],
        ]
    );
    assert_eq!(
        line("@1").unwrap(),
        vec![vec![SkipIfNotOne], vec![Push(Constant(1))], vec![Exit]]
    );
}

#[test]
fn a_skipped_jump_or_skip_is_a_section_of_its_own() {
    assert_eq!(
        line("@,").unwrap(),
        vec![vec![SkipIfNotOne], vec![Jump(Next, Restart)], vec![Exit]]
    );
    assert_eq!(
        line("@@1").unwrap(),
        vec![
            vec![SkipIfNotOne],
            vec![SkipIfNotOne],
            vec![Push(Constant(1))],
            vec![Exit],
        ]
    );
}

#[test]
fn split_sections_of_no_instructions_is_exit_alone() {
    assert_eq!(split_sections(&Vec::new()), vec![vec![Exit]]);
}

#[test]
fn a_trailing_skip_is_an_error_with_the_line_number() {
    assert!(matches!(
        parse_line(&"1@".chars().collect(), 7),
        Err(Error::TrailingSkip(7))
    ));
    assert!(matches!(line("@"), Err(Error::TrailingSkip(1))));
    assert!(matches!(line("1@ \t"), Err(Error::TrailingSkip(1))));
    assert!(matches!(line("@@"), Err(Error::TrailingSkip(1))));
    assert!(matches!(line("1@2@"), Err(Error::TrailingSkip(1))));
    assert!(matches!(
        parse_str("1\n2\n3@\n4@"),
        Err(Error::TrailingSkip(3))
    ));
}

#[test]
fn a_source_is_its_lines_between_two_sentinels() {
    assert_eq!(parse_str("").unwrap(), vec![vec![vec![Exit]], vec![vec![Exit]]]);
    assert_eq!(
        parse_str("1\n2.").unwrap(),
        vec![
            vec![vec![Exit]],
            vec![vec![Push(Constant(1)), Exit]],
            vec![vec![Push(Constant(2)), Jump(Next, Continue)], vec![Exit]],
            vec![vec![Exit]],
        ]
    );
    assert_eq!(parse_str("1\n").unwrap(), parse_str("1").unwrap());
}

#[test]
fn parsing_stops_at_the_first_empty_line() {
    let expected = vec![
        vec![vec![Exit]],
        vec![vec![Push(Constant(1)), Exit]],
        vec![vec![Exit]],
    ];
    assert_eq!(parse_str("1\n\n2@").unwrap(), expected);
    assert_eq!(parse_str("1\r\n\r\n2").unwrap(), expected);
    assert_eq!(parse_str("\n1").unwrap().len(), 2);
}

#[test]
fn a_carriage_return_before_a_line_feed_belongs_to_the_line_ending() {
    assert_eq!(parse_str("1\r\n2\r\n").unwrap(), parse_str("1\n2").unwrap());
    assert_eq!(
        parse_str(" ").unwrap(),
        vec![vec![vec![Exit]], vec![vec![Exit]], vec![vec![Exit]]]
    );
    assert_eq!(parse_str("1\n \n2").unwrap().len(), 5);
}
