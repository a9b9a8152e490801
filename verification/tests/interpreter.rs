use karma::compiler::compile;
use karma::execution::{execute, State};
use karma::failure::Failure;
use karma::machine::{run, Action};
use karma::parse::parse_str;
use karma::syntax::Instruction::{Exit, Jump, Push};
use karma::syntax::Operator::{Add, Sub};
use karma::syntax::QueueEnd::{Back, Front};
use karma::syntax::ValueSource::{CloneTop, Constant, Equal, Greater, Input, Operate, Pop, Remove};
use karma::syntax::{Direction, Start};

fn interpreted(source: &str, input: &str) -> (Option<i32>, String) {
    let sequences = parse_str(source).unwrap();
    let outcome = execute(&sequences, &input.as_bytes().to_vec(), 100_000);
    (outcome.status, String::from_utf8(outcome.output).unwrap())
}

fn compiled(source: &str, input: &str) -> (Option<i32>, String) {
    let sequences = parse_str(source).unwrap();
    let (builder, _) = compile(&sequences).unwrap();
    let outcome = run(&builder, &input.as_bytes().to_vec(), 1_000_000);
    (outcome.status, String::from_utf8(outcome.output).unwrap())
}

#[test]
fn the_interpreter_prints_what_the_scenarios_ask_for() {
    assert_eq!(interpreted("5;", ""), (Some(0), "5".to_string()));
    assert_eq!(interpreted("1@23;4;", ""), (Some(0), "34".to_string()));
    assert_eq!(interpreted("0@23;4;", ""), (Some(0), "34".to_string()));
    assert_eq!(interpreted("7}7={;;", ""), (Some(0), "71".to_string()));
    assert_eq!(interpreted("1}.\n{\\;1+}6=@.<\n9;", ""), (Some(0), "123459".to_string()));
}

#[test]
fn the_interpreter_fails_as_the_runtime_does() {
    assert_eq!(interpreted("#", ""), (Some(14), "".to_string()));
    assert_eq!(interpreted("{", ""), (Some(13), "".to_string()));
    assert_eq!(interpreted("]", ""), (Some(13), "".to_string()));
    assert_eq!(interpreted("?", ""), (Some(15), "".to_string()));
    assert_eq!(interpreted("05/", ""), (Some(16), "".to_string()));
    assert_eq!(interpreted("1=", ""), (Some(13), "".to_string()));
}

#[test]
fn the_interpreter_and_the_compiled_program_agree() {
    let sources = [
        "5;",
        "1@23;4;",
        "0@23;4;",
        "7}7={;;",
        "7}8>{;;",
        "93-;27/;27%;",
        "65&;65|;65^;5~;5!;0!;",
        "88*1+:",
        "4\\;;",
        "1}2}3}];];];",
        "1[2[3[{;{;{;",
        "1;.\n2;",
        "1;.3;\n2;'",
        "1}.\n{\\;1+}6=@.<\n9;",
        "#",
        "1;;",
        "{",
        "05/;",
        "1@",
        "12@@3;4;5;",
        "02@@3;4;5;",
        "1;,\n2;'",
    ];
    for source in sources {
        if parse_str(source).is_err() {
            continue;
        }
        assert_eq!(interpreted(source, ""), compiled(source, ""), "{}", source);
    }
    for (source, input) in [("?:?:", "hi"), ("?;?;?;", "ab"), ("??+;", "\u{1}\u{2}")] {
        assert_eq!(interpreted(source, input), compiled(source, input), "{}", source);
    }
}

#[test]
fn a_program_that_loops_has_no_status_when_the_steps_are_used_up() {
    let sequences = parse_str("1;<").unwrap();
    let outcome = execute(&sequences, &Vec::new(), 50);
    assert_eq!(outcome.status, None);
    assert!(outcome.output.starts_with(b"111"));
}

#[test]
fn next_instruction_passes_the_instructions_of_a_section_in_order() {
    let sequences = parse_str("12").unwrap();
    let input = Vec::new();
    let mut state = State::new(&sequences, &input);
    assert_eq!(state.next_instruction(), Some(&Push(Constant(1))));
    assert_eq!(state.next_instruction(), Some(&Push(Constant(2))));
    assert_eq!(state.next_instruction(), Some(&Exit));
    assert_eq!(state.next_instruction(), None);
    assert_eq!(state.status(), None);
}

#[test]
fn the_stack_and_the_deque_of_the_interpreter() {
    let sequences = parse_str("").unwrap();
    let input = b"x".to_vec();
    let mut state = State::new(&sequences, &input);
    assert_eq!(state.pop(), Err(Failure::StackUnderflow));
    assert_eq!(state.remove(&Front), Err(Failure::DequeUnderflow));
    assert_eq!(state.remove(&Back), Err(Failure::DequeUnderflow));
    state.push(3);
    state.push(4);
    assert_eq!(state.pop(), Ok(4));
    state.insert(10, &Front);
    state.insert(20, &Back);
    state.insert(30, &Front);
    assert_eq!(state.remove(&Back), Ok(20));
    assert_eq!(state.remove(&Front), Ok(30));
    assert_eq!(state.value_from_source(&Remove(Front)), Ok(10));
    assert_eq!(state.value_from_source(&CloneTop), Ok(3));
    assert_eq!(state.value_from_source(&Pop), Ok(3));
    assert_eq!(state.value_from_source(&Constant(-2)), Ok(-2));
    assert_eq!(state.value_from_source(&Input), Ok(120));
    assert_eq!(state.value_from_source(&Input), Err(Failure::EndOfInput));
}

#[test]
fn a_failed_evaluation_lets_the_containers_go() {
    let sequences = parse_str("").unwrap();
    let input = b"xy".to_vec();
    let mut state = State::new(&sequences, &input);
    state.insert(1, &Front);
    assert_eq!(state.value_from_source(&CloneTop), Err(Failure::StackUnderflow));
    assert_eq!(state.remove(&Front), Err(Failure::DequeUnderflow));
    assert_eq!(state.value_from_source(&Input), Err(Failure::EndOfInput));

    let mut state = State::new(&sequences, &input);
    state.push(5);
    state.push(0);
    state.push(4);
    let division = Operate(Box::new(Pop), karma::syntax::Operator::Div, Box::new(Pop));
    assert_eq!(state.value_from_source(&division), Err(Failure::DivisionByZero));
    assert_eq!(state.pop(), Err(Failure::StackUnderflow));
}

#[test]
fn operands_are_evaluated_left_to_right() {
    let sequences = parse_str("").unwrap();
    let input = Vec::new();
    let mut state = State::new(&sequences, &input);
    state.push(1);
    state.push(10);
    let source = Operate(Box::new(Pop), Sub, Box::new(Pop));
    assert_eq!(state.value_from_source(&source), Ok(9));
    let nested = Operate(
        Box::new(Operate(Box::new(Constant(2)), Add, Box::new(Constant(3)))),
        Sub,
        Box::new(Constant(1)),
    );
    assert_eq!(state.value_from_source(&nested), Ok(4));
}

#[test]
fn equal_and_greater_pop_the_stack_and_keep_the_front() {
    let sequences = parse_str("").unwrap();
    let input = Vec::new();
    let mut state = State::new(&sequences, &input);
    state.insert(7, &Front);
    state.push(7);
    assert_eq!(state.value_from_source(&Equal), Ok(1));
    assert_eq!(state.pop(), Err(Failure::StackUnderflow));
    state.push(8);
    assert_eq!(state.value_from_source(&Greater), Ok(1));
    state.push(7);
    assert_eq!(state.value_from_source(&Greater), Ok(0));
    assert_eq!(state.remove(&Front), Ok(7));
    assert_eq!(state.remove(&Front), Err(Failure::DequeUnderflow));
}

#[test]
fn a_jump_enters_the_target_through_its_cursor() {
    let sequences = vec![
        vec![vec![Exit]],
        vec![vec![Jump(Direction::Next, Start::Restart)], vec![Exit]],
        vec![vec![Push(Constant(1))], vec![Exit]],
    ];
    let input = Vec::new();
    let mut state = State::new(&sequences, &input);
    assert_eq!(state.jump(&Direction::Next, &Start::Restart), Action::Continue);
    assert_eq!(state.next_instruction(), Some(&Push(Constant(1))));
    assert_eq!(state.jump(&Direction::Next, &Start::Continue), Action::Exit(1));
    assert_eq!(state.status(), Some(1));
}

#[test]
fn an_interpreter_of_too_few_sequences_panics() {
    let outcome = execute(&Vec::new(), &Vec::new(), 10);
    assert_eq!(outcome.status, Some(1));
    let outcome = execute(&vec![vec![vec![Exit]], vec![]], &Vec::new(), 10);
    assert_eq!(outcome.status, Some(1));
}

#[test]
fn an_interpreter_is_starved_when_the_next_instruction_lacks_input() {
    let sequences = parse_str("1?;").unwrap();
    let input = Vec::new();
    let mut state = State::new(&sequences, &input);
    assert!(!state.starved());
    assert_eq!(state.step(), Action::Continue);
    assert!(state.starved());
    assert!(state.starved());
    state.supply(65);
    assert!(!state.starved());
    assert_eq!(state.step(), Action::Continue);
    assert!(!state.starved());
    assert_eq!(state.step(), Action::PutNumber(65));
    assert_eq!(state.step(), Action::Exit(0));
    assert!(!state.starved());
}

#[test]
fn a_starved_interpreter_that_gets_no_byte_ends_with_end_of_input() {
    let sequences = parse_str("?").unwrap();
    let input = Vec::new();
    let mut state = State::new(&sequences, &input);
    assert!(state.starved());
    assert_eq!(state.step(), Action::Exit(15));
    assert!(!state.starved());
}

#[test]
fn an_instruction_that_fails_before_it_reads_is_not_starved() {
    let sequences = vec![
        vec![vec![Exit]],
        vec![vec![
            Push(Operate(Box::new(Pop), Add, Box::new(Input))),
            Push(Operate(Box::new(Input), Add, Box::new(Input))),
            Exit,
        ]],
    ];
    let input = Vec::new();
    let mut state = State::new(&sequences, &input);
    assert!(!state.starved());
    assert_eq!(state.step(), Action::Exit(14));

    let mut state = State::new(&sequences, &input);
    state.push(1);
    assert!(state.starved());
    state.supply(2);
    assert!(!state.starved());
    assert_eq!(state.step(), Action::Continue);
    assert!(state.starved());
    state.supply(3);
    assert!(state.starved());
    state.supply(4);
    assert!(!state.starved());
    assert_eq!(state.step(), Action::Continue);
    assert_eq!(state.pop(), Ok(7));
    assert_eq!(state.pop(), Ok(3));
}

#[test]
fn bytes_that_are_supplied_follow_the_input_given_at_the_start() {
    let sequences = parse_str("?;?;").unwrap();
    let input = vec![1];
    let mut state = State::new(&sequences, &input);
    state.supply(2);
    let mut written = Vec::new();
    loop {
        match state.step() {
            Action::PutNumber(number) => written.push(number),
            Action::Exit(status) => {
                assert_eq!(status, 0);
                break;
            }
            _ => {}
        }
    }
    assert_eq!(written, vec![1, 2]);
}
