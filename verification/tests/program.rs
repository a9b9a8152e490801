use karma::builder::{Block, Builder, Function, Operation, Value};
use karma::compiler::{compile, validate};
use karma::machine::{run, Action, Input, Machine};
use karma::optimize;
use karma::parse::parse_str;
use karma::syntax::Instruction::{Exit, Jump, Push, SkipIfNotOne};
use karma::syntax::ValueSource::Constant;
use karma::syntax::{Direction, Start};

fn compiled(source: &str) -> Builder {
    let sequences = parse_str(source).unwrap();
    assert!(validate(&sequences));
    let (builder, _) = compile(&sequences).unwrap();
    assert!(builder.is_working());
    builder
}

fn output_of(source: &str, input: &str) -> (Option<i32>, String) {
    let plain = run(&compiled(source), &input.as_bytes().to_vec(), 100_000);
    let sequences = optimize::all(parse_str(source).unwrap());
    let (builder, _) = compile(&sequences).unwrap();
    assert!(builder.is_working());
    let folded = run(&builder, &input.as_bytes().to_vec(), 100_000);
    assert_eq!(plain.status, folded.status);
    assert_eq!(plain.output, folded.output);
    (plain.status, String::from_utf8(plain.output).unwrap())
}

#[test]
fn control_flow_scenario() {
    let sequences = parse_str("5;").unwrap();
    assert_eq!(sequences.len(), 3);
    assert_eq!(output_of("5;", ""), (Some(0), "5".to_string()));
}

#[test]
fn skip_scenario() {
    assert_eq!(output_of("1@23;4;", ""), (Some(0), "34".to_string()));
}

#[test]
fn skip_of_a_value_that_is_not_one_passes_over_one_instruction() {
    assert_eq!(output_of("0@23;4;", ""), (Some(0), "34".to_string()));
    assert_eq!(output_of("1@2;3;", ""), (Some(0), "23".to_string()));
    assert_eq!(output_of("0@2;3;", ""), (Some(14), "".to_string()));
    assert_eq!(output_of("50@2;", ""), (Some(0), "5".to_string()));
    assert_eq!(output_of("51@2;;", ""), (Some(0), "25".to_string()));
    assert_eq!(output_of("52@2;;", ""), (Some(14), "5".to_string()));
}

#[test]
fn equal_and_greater_leave_the_front_of_the_deque() {
    assert_eq!(output_of("7}7={;;", ""), (Some(0), "71".to_string()));
    assert_eq!(output_of("7}8={;;", ""), (Some(0), "70".to_string()));
    assert_eq!(output_of("7}8>{;;", ""), (Some(0), "71".to_string()));
    assert_eq!(output_of("7}7>{;;", ""), (Some(0), "70".to_string()));
    assert_eq!(output_of("1}2}3[2={;{;{;;", ""), (Some(0), "2131".to_string()));
}

#[test]
fn underflow_ends_the_program_with_its_status() {
    assert_eq!(output_of("#", ""), (Some(14), "".to_string()));
    assert_eq!(output_of("1;;", ""), (Some(14), "1".to_string()));
    assert_eq!(output_of("{", ""), (Some(13), "".to_string()));
    assert_eq!(output_of("]", ""), (Some(13), "".to_string()));
    assert_eq!(output_of("1=", ""), (Some(13), "".to_string()));
    assert_eq!(output_of("1}=", ""), (Some(14), "".to_string()));
}

#[test]
fn arithmetic_takes_the_top_of_the_stack_as_left_hand_side() {
    assert_eq!(output_of("93-;", ""), (Some(0), "-6".to_string()));
    assert_eq!(output_of("27/;", ""), (Some(0), "3".to_string()));
    assert_eq!(output_of("27%;", ""), (Some(0), "1".to_string()));
    assert_eq!(output_of("99*9*9*;", ""), (Some(0), "6561".to_string()));
    assert_eq!(output_of("65&;65|;65^;", ""), (Some(0), "473".to_string()));
    assert_eq!(output_of("5~;", ""), (Some(0), "-6".to_string()));
    assert_eq!(output_of("5!;0!;", ""), (Some(0), "01".to_string()));
}

#[test]
fn division_by_zero_ends_the_program() {
    assert_eq!(output_of("05/;", ""), (Some(16), "".to_string()));
    assert_eq!(output_of("05%;", ""), (Some(16), "".to_string()));
}

#[test]
fn characters_and_input() {
    assert_eq!(output_of("88*1+:", ""), (Some(0), "A".to_string()));
    assert_eq!(output_of("?:?:", "hi"), (Some(0), "hi".to_string()));
    assert_eq!(output_of("?;", "A"), (Some(0), "65".to_string()));
    assert_eq!(output_of("?:?:", "h"), (Some(15), "h".to_string()));
    assert_eq!(output_of("?", ""), (Some(15), "".to_string()));
}

#[test]
fn clone_top_pushes_a_second_copy() {
    assert_eq!(output_of("4\\;;", ""), (Some(0), "44".to_string()));
    assert_eq!(output_of("\\", ""), (Some(14), "".to_string()));
}

#[test]
fn deque_ends_in_programs() {
    assert_eq!(output_of("1}2}3}];];];", ""), (Some(0), "123".to_string()));
    assert_eq!(output_of("1}2}3}{;{;{;", ""), (Some(0), "321".to_string()));
    assert_eq!(output_of("1[2[3[{;{;{;", ""), (Some(0), "123".to_string()));
    assert_eq!(output_of("1}2[3}];{;{;", ""), (Some(0), "231".to_string()));
}

#[test]
fn jumps_between_sequences() {
    assert_eq!(output_of("1;.\n2;", ""), (Some(0), "12".to_string()));
    assert_eq!(output_of("1;,\n2;", ""), (Some(0), "12".to_string()));
    assert_eq!(output_of("1;'", ""), (Some(0), "1".to_string()));
    assert_eq!(output_of("1;.", ""), (Some(0), "1".to_string()));
    assert_eq!(output_of("1;.3;\n2;'", ""), (Some(0), "123".to_string()));
}

#[test]
fn a_restart_runs_the_sequence_from_its_first_section() {
    let source = "1}.\n{\\;1+}6=@.<\n9;";
    assert_eq!(output_of(source, ""), (Some(0), "123459".to_string()));
}

#[test]
fn a_section_that_ends_in_a_jump_leaves_the_cursor_alone() {
    let source = "1@.2;.3;\n4;'";
    let outcome = run(&compiled(source), &Vec::new(), 400);
    assert_eq!(outcome.status, None);
    let text = String::from_utf8(outcome.output).unwrap();
    assert!(text.starts_with("444"));
    assert!(!text.contains('2'));
    assert!(!text.contains('3'));
}

#[test]
fn a_run_that_is_out_of_steps_has_no_status() {
    let builder = compiled("<");
    let outcome = run(&builder, &Vec::new(), 1000);
    assert_eq!(outcome.status, None);
    assert!(outcome.output.is_empty());
    let outcome = run(&compiled("5;"), &Vec::new(), 3);
    assert_eq!(outcome.status, None);
}

#[test]
fn programs_that_cannot_be_compiled_are_refused() {
    assert!(!validate(&Vec::new()));
    assert!(compile(&Vec::new()).is_none());
    assert!(!validate(&vec![vec![vec![Exit]]]));
    assert!(!validate(&vec![vec![vec![Exit]], vec![]]));
    assert!(validate(&vec![vec![vec![Exit]], vec![vec![]]]));
    let dangling = vec![
        vec![vec![Exit]],
        vec![vec![Push(Constant(1)), SkipIfNotOne], vec![Exit]],
    ];
    assert!(!validate(&dangling));
    assert!(compile(&dangling).is_none());
    let early = vec![vec![vec![Exit]], vec![vec![Exit, Push(Constant(1))]]];
    assert!(!validate(&early));
    let outside = vec![
        vec![vec![Exit]],
        vec![vec![Jump(Direction::Next, Start::Restart)]],
    ];
    assert!(!validate(&outside));
    let before = vec![
        vec![vec![Jump(Direction::Previous, Start::Restart)]],
        vec![vec![Exit]],
    ];
    assert!(!validate(&before));
    let inside = vec![
        vec![vec![Jump(Direction::Next, Start::Restart)]],
        vec![vec![Jump(Direction::Previous, Start::Continue)]],
    ];
    assert!(validate(&inside));
}

#[test]
fn the_compiled_program_starts_with_its_five_fixed_blocks() {
    let builder = compiled("5;");
    assert_eq!(builder.global_count(), 3);
    assert_eq!(builder.block_count(), 5 + 2 + 2 + 2);
    assert_eq!(
        builder.block_operations(Block(0)),
        &vec![
            Operation::Call(Function::StackResize, Some(Value::Int64(16))),
            Operation::Branch(Block(1)),
        ]
    );
    assert_eq!(
        builder.block_operations(Block(1)),
        &vec![
            Operation::Call(Function::DequeResize, Some(Value::Int64(1))),
            Operation::Branch(Block(2)),
        ]
    );
    assert_eq!(
        builder.block_operations(Block(2)),
        &vec![
            Operation::Store(Value::Int64(1), Value::Global(1)),
            Operation::Branch(Block(7)),
        ]
    );
    assert_eq!(
        builder.block_operations(Block(3)),
        &vec![Operation::ReturnValue(Value::Int32(0))]
    );
    assert_eq!(
        builder.block_operations(Block(4)),
        &vec![Operation::ReturnValue(Value::Int32(1))]
    );
}

#[test]
fn a_section_stores_its_successor_and_a_jump_table_dispatches() {
    let builder = compiled("5;");
    assert_eq!(
        builder.block_operations(Block(7)),
        &vec![
            Operation::Store(Value::Int64(1), Value::Global(1)),
            Operation::Call(Function::Push, Some(Value::Int64(5))),
            Operation::Call(Function::Pop, None),
            Operation::Call(Function::PutI64, Some(Value::Result(2))),
            Operation::Branch(Block(3)),
        ]
    );
    assert_eq!(
        builder.block_operations(Block(8)),
        &vec![
            Operation::Load(Value::Global(1)),
            Operation::Switch(Value::Result(0), Block(4), 1),
            Operation::Case(Value::Int64(0), Block(7)),
        ]
    );
}

#[test]
fn a_machine_asks_for_input_and_takes_the_byte() {
    let builder = compiled("?;");
    let mut machine = Machine::new(&builder);
    let mut actions = Vec::new();
    loop {
        let action = machine.step(&builder, Input::Nothing);
        actions.push(action);
        match action {
            Action::GetChar => break,
            Action::Exit(_) => unreachable!(),
            _ => {}
        }
    }
    assert_eq!(machine.step(&builder, Input::Nothing), Action::GetChar);
    assert_eq!(machine.step(&builder, Input::Byte(66)), Action::Continue);
    let mut written = Vec::new();
    loop {
        match machine.step(&builder, Input::Nothing) {
            Action::PutNumber(number) => written.push(number),
            Action::Exit(status) => {
                assert_eq!(status, 0);
                break;
            }
            Action::Continue => {}
            other => panic!("unexpected {:?}", other),
        }
    }
    assert_eq!(written, vec![66]);
    assert_eq!(machine.status(), Some(0));
    assert_eq!(machine.step(&builder, Input::Byte(1)), Action::Exit(0));
    assert_eq!(machine.stack_len(), 0);
    assert_eq!(machine.deque_len(), 0);
}

#[test]
fn a_jump_table_with_a_cursor_past_its_sections_panics() {
    let sequences = vec![
        vec![vec![Exit]],
        vec![vec![Push(Constant(1))]],
    ];
    assert!(validate(&sequences));
    let (builder, _) = compile(&sequences).unwrap();
    let outcome = run(&builder, &Vec::new(), 100);
    assert_eq!(outcome.status, Some(1));
}

#[test]
fn the_first_blocks_give_the_containers_their_buffers() {
    let builder = compiled("12345678");
    let mut machine = Machine::new(&builder);
    assert_eq!((machine.stack_capacity(), machine.deque_capacity()), (0, 0));
    assert_eq!(machine.block(), Block(0));
    assert_eq!(machine.step(&builder, Input::Nothing), Action::Continue);
    assert_eq!((machine.stack_capacity(), machine.deque_capacity()), (16, 0));
    assert_eq!(machine.step(&builder, Input::Nothing), Action::Continue);
    assert_eq!(machine.block(), Block(1));
    assert_eq!(machine.step(&builder, Input::Nothing), Action::Continue);
    assert_eq!((machine.stack_capacity(), machine.deque_capacity()), (16, 1));
    assert_eq!(machine.cursor(1), Some(0));
    assert_eq!(machine.step(&builder, Input::Nothing), Action::Continue);
    assert_eq!(machine.block(), Block(2));
    assert_eq!(machine.step(&builder, Input::Nothing), Action::Continue);
    assert_eq!(machine.cursor(1), Some(1));
    assert_eq!(machine.cursor(3), None);
    assert_eq!(machine.step(&builder, Input::Nothing), Action::Continue);
    assert_eq!(machine.block(), Block(7));
    while machine.status().is_none() {
        machine.step(&builder, Input::Nothing);
    }
    assert_eq!(machine.stack_len(), 8);
    assert_eq!(machine.stack_capacity(), 16);
}

#[test]
fn the_containers_of_the_machine_double_when_they_are_full() {
    let builder = compiled("1}2}3}12345678123456789");
    let mut machine = Machine::new(&builder);
    while machine.status().is_none() {
        machine.step(&builder, Input::Nothing);
    }
    assert_eq!(machine.status(), Some(0));
    assert_eq!((machine.stack_len(), machine.stack_capacity()), (17, 32));
    assert_eq!((machine.deque_len(), machine.deque_capacity()), (3, 4));
}
