//! Constant folding: instructions that only move constants around are
//! replaced by the constants they produce.

use vstd::prelude::*;
use crate::operation::{can_operate, is_defined, operation_result, perform_operation};
use crate::parse::lemma_section_view;
use crate::syntax::{Instruction, Operator, Section, Sequence, ValueSource};

verus! {

/// The constant that an instruction pushes, if that is all it does.
pub open spec fn pushed_constant(instruction: Instruction) -> Option<i64> {
    match instruction {
        Instruction::Push(ValueSource::Constant(value)) => Some(value),
        _ => None,
    }
}

/// The constant that the instruction `depth` places from the end of `folded`
/// pushes, if there is such an instruction and that is all it does.
pub open spec fn constant_below(folded: Seq<Instruction>, depth: int) -> Option<i64> {
    if 0 <= depth < folded.len() {
        pushed_constant(folded[folded.len() - 1 - depth])
    } else {
        None
    }
}

/// The folded instructions after one more instruction has been taken in.
///
/// An operation on two popped values, after two pushes of constants on which
/// it is defined, becomes one push of its result; the constant pushed last is
/// its left-hand side. A copy of the top, after a push of a constant, becomes
/// a second push of that constant. An insertion or an output of a popped
/// value, after a push of a constant, takes the constant itself. Any other
/// instruction is kept as it is.
pub open spec fn fold_step(folded: Seq<Instruction>, instruction: Instruction) -> Seq<
    Instruction,
> {
    let top = constant_below(folded, 0);
    let below = constant_below(folded, 1);
    match instruction {
        Instruction::Push(ValueSource::Operate(lhs, operator, rhs)) => {
            if *lhs == ValueSource::Pop && *rhs == ValueSource::Pop && top is Some && below is Some
                && is_defined(operator, below->0) {
                folded.take(folded.len() - 2).push(
                    Instruction::Push(
                        ValueSource::Constant(operation_result(top->0, operator, below->0)),
                    ),
                )
            } else {
                folded.push(instruction)
            }
        },
        Instruction::Push(ValueSource::CloneTop) => {
            if top is Some {
                folded.push(Instruction::Push(ValueSource::Constant(top->0)))
            } else {
                folded.push(instruction)
            }
        },
        Instruction::Insert(ValueSource::Pop, end) => {
            if top is Some {
                folded.drop_last().push(Instruction::Insert(ValueSource::Constant(top->0), end))
            } else {
                folded.push(instruction)
            }
        },
        Instruction::OutputNumber(ValueSource::Pop) => {
            if top is Some {
                folded.drop_last().push(Instruction::OutputNumber(ValueSource::Constant(top->0)))
            } else {
                folded.push(instruction)
            }
        },
        Instruction::OutputCharacter(ValueSource::Pop) => {
            if top is Some {
                folded.drop_last().push(
                    Instruction::OutputCharacter(ValueSource::Constant(top->0)),
                )
            } else {
                folded.push(instruction)
            }
        },
        _ => folded.push(instruction),
    }
}

/// A section after each of its instructions has been folded in, the first
/// one first.
pub open spec fn folded_section(section: Seq<Instruction>) -> Seq<Instruction>
    decreases section.len(),
{
    if section.len() == 0 {
        Seq::empty()
    } else {
        fold_step(folded_section(section.drop_last()), section.last())
    }
}

/// A sequence with every section folded.
pub open spec fn folded_sequence(sequence: Seq<Seq<Instruction>>) -> Seq<Seq<Instruction>> {
    Seq::new(sequence.len(), |i: int| folded_section(sequence[i]))
}

/// A program with every section of every sequence folded.
pub open spec fn folded_program(program: Seq<Seq<Seq<Instruction>>>) -> Seq<
    Seq<Seq<Instruction>>,
> {
    Seq::new(program.len(), |i: int| folded_sequence(program[i]))
}

/// Apply all optimizations to the sequences.
pub fn all(sequences: Vec<Sequence>) -> (optimized: Vec<Sequence>)
    ensures
        optimized.deep_view() == folded_program(sequences.deep_view()),
{
    compute_constants(sequences)
}

/// Precompute the values that are constant.
pub fn compute_constants(sequences: Vec<Sequence>) -> (optimized: Vec<Sequence>)
    ensures
        optimized.deep_view() == folded_program(sequences.deep_view()),
{
    let mut optimized: Vec<Sequence> = Vec::new();
    let mut index: usize = 0;
    while index < sequences.len()
        invariant
            index <= sequences.len(),
            optimized.deep_view() == folded_program(sequences.deep_view()).take(index as int),
        decreases sequences.len() - index,
    {
        let sequence = &sequences[index];
        let mut folded: Sequence = Vec::new();
        let mut inner: usize = 0;
        while inner < sequence.len()
            invariant
                inner <= sequence.len(),
                folded.deep_view() == folded_sequence(sequence.deep_view()).take(inner as int),
            decreases sequence.len() - inner,
        {
            let section = compute_constants_section(&sequence[inner]);
            proof {
                lemma_section_view(section);
                lemma_section_view(sequence[inner as int]);
            }
            let ghost before = folded.deep_view();
            folded.push(section);
            assert(folded.deep_view() =~= before.push(section@));
            assert(folded_sequence(sequence.deep_view()).take(inner + 1) =~= folded_sequence(
                sequence.deep_view(),
            ).take(inner as int).push(section@));
            inner += 1;
        }
        assert(folded_sequence(sequence.deep_view()).take(inner as int) =~= folded_sequence(
            sequence.deep_view(),
        ));
        let ghost before = optimized.deep_view();
        optimized.push(folded);
        assert(optimized.deep_view() =~= before.push(folded.deep_view()));
        assert(folded_program(sequences.deep_view()).take(index + 1) =~= folded_program(
            sequences.deep_view(),
        ).take(index as int).push(folded.deep_view()));
        index += 1;
    }
    assert(folded_program(sequences.deep_view()).take(index as int) =~= folded_program(
        sequences.deep_view(),
    ));
    optimized
}

/// Folds the constants of one section.
pub fn compute_constants_section(section: &Section) -> (folded: Section)
    ensures
        folded@ == folded_section(section@),
{
    let mut folded: Section = Vec::new();
    let mut index: usize = 0;
    while index < section.len()
        invariant
            index <= section.len(),
            folded@ == folded_section(section@.take(index as int)),
        decreases section.len() - index,
    {
        assert(section@.take(index + 1).drop_last() =~= section@.take(index as int));
        fold_instruction(&mut folded, &section[index]);
        index += 1;
    }
    assert(section@.take(index as int) =~= section@);
    folded
}

/// The constant that the instruction `depth` places from the end pushes.
fn constant_at(folded: &Section, depth: usize) -> (constant: Option<i64>)
    ensures
        constant == constant_below(folded@, depth as int),
{
    if depth < folded.len() {
        match &folded[folded.len() - 1 - depth] {
            Instruction::Push(ValueSource::Constant(value)) => Some(*value),
            _ => None,
        }
    } else {
        None
    }
}

/// Takes one more instruction into the folded instructions.
fn fold_instruction(folded: &mut Section, instruction: &Instruction)
    ensures
        final(folded)@ == fold_step(old(folded)@, *instruction),
{
    let top = constant_at(folded, 0);
    let below = constant_at(folded, 1);
    match (instruction, top) {
        (Instruction::Push(ValueSource::Operate(lhs, operator, rhs)), Some(first)) => {
            match (&**lhs, &**rhs, below) {
                (ValueSource::Pop, ValueSource::Pop, Some(second)) => {
                    if can_operate(*operator, second) {
                        let result = compute_constant_operation(first, operator, second);
                        folded.pop();
                        folded.pop();
                        folded.push(Instruction::Push(ValueSource::Constant(result)));
                        assert(folded@ =~= fold_step(old(folded)@, *instruction));
                    } else {
                        folded.push(instruction.clone());
                    }
                },
                _ => {
                    folded.push(instruction.clone());
                },
            }
        },
        (Instruction::Push(ValueSource::CloneTop), Some(value)) => {
            folded.push(Instruction::Push(ValueSource::Constant(value)));
        },
        (Instruction::Insert(ValueSource::Pop, end), Some(value)) => {
            folded.pop();
            folded.push(Instruction::Insert(ValueSource::Constant(value), *end));
        },
        (Instruction::OutputNumber(ValueSource::Pop), Some(value)) => {
            folded.pop();
            folded.push(Instruction::OutputNumber(ValueSource::Constant(value)));
        },
        (Instruction::OutputCharacter(ValueSource::Pop), Some(value)) => {
            folded.pop();
            folded.push(Instruction::OutputCharacter(ValueSource::Constant(value)));
        },
        _ => {
            folded.push(instruction.clone());
        },
    }
}

/// The constant that an operation on two constants produces.
pub fn compute_constant_operation(lhs: i64, operator: &Operator, rhs: i64) -> (result: i64)
    requires
        is_defined(*operator, rhs),
    ensures
        result == operation_result(lhs, *operator, rhs),
{
    perform_operation(lhs, rhs, operator)
}

} // verus!
