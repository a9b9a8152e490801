use karma::operation::{can_operate, perform_operation};
use karma::optimize;
use karma::optimize::{compute_constant_operation, compute_constants_section};
use karma::parse::parse_str;
use karma::syntax::Instruction;
use karma::syntax::Instruction::{
    Destroy, Exit, Insert, OutputCharacter, OutputNumber, Push, SkipIfNotOne,
};
use karma::syntax::Operator::{Add, And, Div, Mod, Mul, Or, Sub, Xor};
use karma::syntax::QueueEnd::{Back, Front};
use karma::syntax::ValueSource::{CloneTop, Constant, Input, Operate, Pop, Remove};
use karma::syntax::{Operator, ValueSource};

fn binary(operator: Operator) -> Instruction {
    Push(Operate(Box::new(Pop), operator, Box::new(Pop)))
}

fn folded(source: &str) -> Vec<Instruction> {
    let sequences = optimize::compute_constants(parse_str(source).unwrap());
    assert_eq!(sequences.len(), 3);
    assert_eq!(sequences[1].len(), 1);
    sequences[1][0].clone()
}

#[test]
fn optimize_constant_arithmetic() {
    let sequences = parse_str("155+55+55+**-").unwrap();
    let sequences = optimize::compute_constants(sequences);

    assert_eq!(
        sequences,
        vec![
            vec![vec![Exit]],
            vec![vec![Push(Constant(999)), Exit]],
            vec![vec![Exit]],
        ]
    );
}

#[test]
fn optimize_insert() {
    let sequences = parse_str("77+}").unwrap();
    let sequences = optimize::compute_constants(sequences);

    assert_eq!(
        sequences,
        vec![
            vec![vec![Exit]],
            vec![vec![Insert(Constant(14), Front), Exit]],
            vec![vec![Exit]],
        ]
    );
}

#[test]
fn optimize_constant_clone() {
    let sequences = parse_str("79+\\+").unwrap();
    let sequences = optimize::compute_constants(sequences);

    assert_eq!(
        sequences,
        vec![
            vec![vec![Exit]],
            vec![vec![Push(Constant(32)), Exit]],
            vec![vec![Exit]],
        ]
    );
}

#[test]
fn all_folds_constants() {
    let sequences = optimize::all(parse_str("12+;\n3[").unwrap());
    assert_eq!(
        sequences,
        vec![
            vec![vec![Exit]],
            vec![vec![OutputNumber(Constant(3)), Exit]],
            vec![vec![Insert(Constant(3), Back), Exit]],
            vec![vec![Exit]],
        ]
    );
}

#[test]
fn the_constant_pushed_last_is_the_left_hand_side() {
    assert_eq!(folded("93-"), vec![Push(Constant(-6)), Exit]);
    assert_eq!(folded("39-"), vec![Push(Constant(6)), Exit]);
    assert_eq!(folded("27/"), vec![Push(Constant(3)), Exit]);
    assert_eq!(folded("27%"), vec![Push(Constant(1)), Exit]);
}

#[test]
fn outputs_take_the_constant() {
    assert_eq!(folded("8;"), vec![OutputNumber(Constant(8)), Exit]);
    assert_eq!(folded("8:"), vec![OutputCharacter(Constant(8)), Exit]);
    assert_eq!(
        folded("8\\;"),
        vec![Push(Constant(8)), OutputNumber(Constant(8)), Exit]
    );
}

#[test]
fn what_is_not_constant_is_kept() {
    assert_eq!(folded("+"), vec![binary(Add), Exit]);
    assert_eq!(folded("1+"), vec![Push(Constant(1)), binary(Add), Exit]);
    assert_eq!(
        folded("?1+"),
        vec![Push(Input), Push(Constant(1)), binary(Add), Exit]
    );
    assert_eq!(
        folded("1?+"),
        vec![Push(Constant(1)), Push(Input), binary(Add), Exit]
    );
    assert_eq!(folded("\\"), vec![Push(CloneTop), Exit]);
    assert_eq!(folded("{\\"), vec![Push(Remove(Front)), Push(CloneTop), Exit]);
    assert_eq!(folded("}"), vec![Insert(Pop, Front), Exit]);
    assert_eq!(folded(";"), vec![OutputNumber(Pop), Exit]);
    assert_eq!(folded("?:"), vec![Push(Input), OutputCharacter(Pop), Exit]);
    assert_eq!(folded("1#"), vec![Push(Constant(1)), Destroy, Exit]);
}

#[test]
fn a_division_by_a_constant_zero_is_left_to_the_running_program() {
    assert_eq!(
        folded("05/"),
        vec![Push(Constant(0)), Push(Constant(5)), binary(Div), Exit]
    );
    assert_eq!(
        folded("05%"),
        vec![Push(Constant(0)), Push(Constant(5)), binary(Mod), Exit]
    );
    assert_eq!(folded("50/"), vec![Push(Constant(0)), Exit]);
}

#[test]
fn folding_does_not_cross_sections() {
    let sequences = optimize::compute_constants(parse_str("1@23+").unwrap());
    assert_eq!(
        sequences[1],
        vec![
            vec![Push(Constant(1)), SkipIfNotOne],
            vec![Push(Constant(2))],
            vec![Push(Constant(3)), binary(Add), Exit],
        ]
    );
}

#[test]
fn operands_that_are_not_both_popped_are_not_folded() {
    let odd = Push(Operate(Box::new(Pop), Add, Box::new(ValueSource::Constant(1))));
    let section = vec![Push(Constant(2)), Push(Constant(3)), odd.clone()];
    assert_eq!(compute_constants_section(&section), section);
}

#[test]
fn operations_wrap_and_round_towards_zero() {
    assert_eq!(perform_operation(i64::MAX, 1, &Add), i64::MIN);
    assert_eq!(perform_operation(i64::MIN, 1, &Sub), i64::MAX);
    assert_eq!(perform_operation(i64::MAX, 2, &Mul), -2);
    assert_eq!(perform_operation(7, 2, &Div), 3);
    assert_eq!(perform_operation(-7, 2, &Div), -3);
    assert_eq!(perform_operation(7, -2, &Div), -3);
    assert_eq!(perform_operation(-7, -2, &Div), 3);
    assert_eq!(perform_operation(7, 2, &Mod), 1);
    assert_eq!(perform_operation(-7, 2, &Mod), -1);
    assert_eq!(perform_operation(7, -2, &Mod), 1);
    assert_eq!(perform_operation(-7, -2, &Mod), -1);
    assert_eq!(perform_operation(0, -2, &Div), 0);
    assert_eq!(perform_operation(i64::MIN, -1, &Div), i64::MIN);
    assert_eq!(perform_operation(i64::MIN, -1, &Mod), 0);
    assert_eq!(perform_operation(12, 10, &And), 8);
    assert_eq!(perform_operation(12, 10, &Or), 14);
    assert_eq!(perform_operation(12, 10, &Xor), 6);
    assert_eq!(perform_operation(-1, 10, &And), 10);
}

#[test]
fn division_and_remainder_are_not_defined_on_zero() {
    assert!(!can_operate(Div, 0));
    assert!(!can_operate(Mod, 0));
    assert!(can_operate(Div, 1));
    assert!(can_operate(Mod, -1));
    for operator in [Add, Sub, Mul, And, Or, Xor] {
        assert!(can_operate(operator, 0));
    }
}

#[test]
fn a_constant_operation_takes_the_left_hand_side_first() {
    assert_eq!(compute_constant_operation(10, &Sub, 4), 6);
    assert_eq!(compute_constant_operation(10, &Div, 4), 2);
    assert_eq!(compute_constant_operation(10, &Mod, 4), 2);
}
