//! The operations that a value source or an instruction is lowered to do
//! what the interpreter does with the source or the instruction.

use vstd::prelude::*;
use crate::builder::{Compare, Function, Operation, Type, Value};
use crate::execution::{compared, evaluate, perform};
use crate::failure::Failure;
use crate::instruction_builder::{
    leaves_block, lowered_comparison, lowered_instruction, lowered_source, Place,
};
use crate::machine::{
    comparison_result, emitted, has_room, lemma_ended_stays, lemma_run_for_adds, run_for, value_of,
    Action, World,
};
use crate::operation::is_defined;
use crate::steps::{
    lemma_arithmetic_runs, lemma_at_part, lemma_bit_not_runs, lemma_cast_runs, lemma_compare_runs,
    lemma_extend_runs, lemma_insert_runs, lemma_pop_runs, lemma_push_runs, lemma_put_runs,
    lemma_read_runs, lemma_remove_runs, lemma_stands_at_part, operands_of, stands_at,
};
use crate::syntax::{Instruction, QueueEnd, ValueSource};

verus! {

/// Whether a world differs from an earlier one of the same block by the
/// results of further operations only: the registers have grown, and the
/// cursors, the block and the output are the same.
pub open spec fn continues(earlier: World, later: World, operations: nat) -> bool {
    &&& later.state.status is None
    &&& later.state.block == earlier.state.block
    &&& later.state.cursors == earlier.state.cursors
    &&& later.output == earlier.output
    &&& later.state.registers.len() == earlier.state.registers.len() + operations
    &&& later.state.registers.take(earlier.state.registers.len() as int)
        == earlier.state.registers
    &&& later.state.stack.len() <= earlier.state.stack.len()
    &&& later.state.deque.len() <= earlier.state.deque.len()
}

/// Whether a world has ended with this failure and has written no more than
/// an earlier one.
pub open spec fn ended_with(earlier: World, later: World, failure: Failure) -> bool {
    &&& later.state.status == Some(failure.spec_status())
    &&& later.output == earlier.output
}

/// Worlds that continue one another continue the first.
pub proof fn lemma_continues_adds(first: World, second: World, third: World, early: nat, late: nat)
    requires
        continues(first, second, early),
        continues(second, third, late),
    ensures
        continues(first, third, early + late),
{
    let base = first.state.registers.len() as int;
    assert(third.state.registers.take(base) =~= third.state.registers.take(
        second.state.registers.len() as int,
    ).take(base));
}

/// A value that is defined keeps its meaning when the registers grow.
pub proof fn lemma_value_stays(earlier: World, later: World, operations: nat, value: Value)
    requires
        continues(earlier, later, operations),
        value_of(earlier.state.registers, value) is Some,
    ensures
        value_of(later.state.registers, value) == value_of(earlier.state.registers, value),
{
    match value {
        Value::Result(index) => {
            assert(later.state.registers.take(earlier.state.registers.len() as int)[index as int]
                == later.state.registers[index as int]);
        },
        _ => {},
    }
}

/// The comparison of the top of the stack with the front of the deque: the
/// five operations that it is lowered to pop the stack, leave the deque as it
/// was, and produce 1 if the comparison holds, else 0; or they end the
/// program with the underflow of the container that is empty.
pub proof fn lemma_comparison_runs(blocks: Seq<Seq<Operation>>, world: World, comparison: Compare)
    requires
        stands_at(
            blocks,
            world.state,
            lowered_comparison(comparison, world.state.registers.len()).0,
        ),
        world.state.deque.len() <= world.state.deque_capacity || has_room(
            world.state.deque.len(),
        ),
    ensures
        ({
            let lowered = lowered_comparison(comparison, world.state.registers.len());
            let after = run_for(blocks, world, 5);
            match compared(operands_of(world), comparison) {
                Ok((value, rest)) => {
                    &&& continues(world, after, 5)
                    &&& operands_of(after) == rest
                    &&& after.state.deque == world.state.deque
                    &&& value_of(after.state.registers, lowered.1) == Some(value)
                },
                Err(failure) => ended_with(world, after, failure),
            }
        }),
{
    let base = world.state.registers.len();
    let lowered = lowered_comparison(comparison, base).0;
    lemma_at_part(blocks, world.state, world.state, lowered, 0);
    lemma_pop_runs(blocks, world);
    let first = run_for(blocks, world, 1);
    lemma_run_for_adds(blocks, world, 1, 4);
    if world.state.stack.len() == 0 {
        lemma_ended_stays(blocks, first, 4);
    } else {
        lemma_at_part(blocks, world.state, first.state, lowered, 1);
        lemma_remove_runs(blocks, first, QueueEnd::Front);
        let second = run_for(blocks, first, 1);
        lemma_run_for_adds(blocks, first, 1, 3);
        if world.state.deque.len() == 0 {
            lemma_ended_stays(blocks, second, 3);
        } else {
            lemma_at_part(blocks, world.state, second.state, lowered, 2);
            lemma_compare_runs(
                blocks,
                second,
                Value::Result(base as usize),
                comparison,
                Value::Result((base + 1) as usize),
            );
            let third = run_for(blocks, second, 1);
            lemma_run_for_adds(blocks, second, 1, 2);
            lemma_at_part(blocks, world.state, third.state, lowered, 3);
            lemma_insert_runs(blocks, third, QueueEnd::Front, Value::Result((base + 1) as usize));
            let fourth = run_for(blocks, third, 1);
            lemma_run_for_adds(blocks, third, 1, 1);
            lemma_at_part(blocks, world.state, fourth.state, lowered, 4);
            lemma_extend_runs(blocks, fourth, Value::Result((base + 2) as usize), Type::I64);
            let fifth = run_for(blocks, fourth, 1);
            assert(fifth.state.deque =~= world.state.deque);
            assert(fifth.state.registers.take(base as int) =~= world.state.registers);
        }
    }
}

/// What holds after the operations of a value source have run: the world is
/// as the interpreter leaves it, with the value of the source as the value
/// that the operations produce; or it has ended with the failure that the
/// interpreter runs into.
pub open spec fn source_ran(world: World, after: World, source: ValueSource) -> bool {
    let lowered = lowered_source(source, world.state.registers.len());
    match evaluate(source, operands_of(world)) {
        Ok((value, rest)) => {
            &&& continues(world, after, lowered.0.len())
            &&& operands_of(after) == rest
            &&& value_of(after.state.registers, lowered.1) == Some(value)
        },
        Err(failure) => ended_with(world, after, failure),
    }
}

/// The case of a constant, a pop or a removal: no operation, or one call.
pub proof fn lemma_single_runs(blocks: Seq<Seq<Operation>>, world: World, source: ValueSource)
    requires
        source is Constant || source is Pop || source is Remove,
        stands_at(blocks, world.state, lowered_source(source, world.state.registers.len()).0),
    ensures
        source_ran(
            world,
            run_for(
                blocks,
                world,
                lowered_source(source, world.state.registers.len()).0.len(),
            ),
            source,
        ),
{
    let base = world.state.registers.len() as int;
    let lowered = lowered_source(source, base as nat);
    let after = run_for(blocks, world, lowered.0.len());
    match source {
        ValueSource::Pop => {
            lemma_at_part(blocks, world.state, world.state, lowered.0, 0);
            lemma_pop_runs(blocks, world);
        },
        ValueSource::Remove(end) => {
            lemma_at_part(blocks, world.state, world.state, lowered.0, 0);
            lemma_remove_runs(blocks, world, end);
        },
        _ => {},
    }
    assert(after.state.registers.take(base) =~= world.state.registers);
}

/// The case of a copy of the top: a pop, and a push of what was popped.
pub proof fn lemma_clone_runs(blocks: Seq<Seq<Operation>>, world: World)
    requires
        stands_at(
            blocks,
            world.state,
            lowered_source(ValueSource::CloneTop, world.state.registers.len()).0,
        ),
        has_room(world.state.stack.len()),
    ensures
        source_ran(world, run_for(blocks, world, 2), ValueSource::CloneTop),
{
    let base = world.state.registers.len();
    let lowered = lowered_source(ValueSource::CloneTop, base).0;
    lemma_at_part(blocks, world.state, world.state, lowered, 0);
    lemma_pop_runs(blocks, world);
    let first = run_for(blocks, world, 1);
    lemma_run_for_adds(blocks, world, 1, 1);
    if world.state.stack.len() == 0 {
        lemma_ended_stays(blocks, first, 1);
    } else {
        lemma_at_part(blocks, world.state, first.state, lowered, 1);
        lemma_push_runs(blocks, first, Value::Result(base as usize));
        let second = run_for(blocks, first, 1);
        assert(second.state.stack =~= world.state.stack);
        assert(second.state.registers.take(base as int) =~= world.state.registers);
    }
}

/// The case of a read from the input: the call that reads, and the cast of
/// the byte.
pub proof fn lemma_input_runs(blocks: Seq<Seq<Operation>>, world: World)
    requires
        stands_at(
            blocks,
            world.state,
            lowered_source(ValueSource::Input, world.state.registers.len()).0,
        ),
    ensures
        source_ran(world, run_for(blocks, world, 2), ValueSource::Input),
{
    let base = world.state.registers.len();
    let lowered = lowered_source(ValueSource::Input, base).0;
    lemma_at_part(blocks, world.state, world.state, lowered, 0);
    lemma_read_runs(blocks, world);
    let first = run_for(blocks, world, 1);
    lemma_run_for_adds(blocks, world, 1, 1);
    if world.input.len() == 0 {
        lemma_ended_stays(blocks, first, 1);
    } else {
        lemma_at_part(blocks, world.state, first.state, lowered, 1);
        lemma_cast_runs(blocks, first, Value::Result(base as usize), Type::I64);
        let second = run_for(blocks, first, 1);
        assert(second.state.registers.take(base as int) =~= world.state.registers);
    }
}

/// The operations that a value source is lowered to do what the interpreter
/// does when it evaluates the source, as long as the containers have room.
pub proof fn lemma_source_runs(blocks: Seq<Seq<Operation>>, world: World, source: ValueSource)
    requires
        stands_at(blocks, world.state, lowered_source(source, world.state.registers.len()).0),
        has_room(world.state.stack.len()),
        has_room(world.state.deque.len()),
    ensures
        source_ran(
            world,
            run_for(
                blocks,
                world,
                lowered_source(source, world.state.registers.len()).0.len(),
            ),
            source,
        ),
    decreases source, 1nat,
{
    match source {
        ValueSource::Operate(_, _, _) => {
            lemma_operate_runs(blocks, world, source);
        },
        ValueSource::CloneTop => {
            lemma_clone_runs(blocks, world);
        },
        ValueSource::Input => {
            lemma_input_runs(blocks, world);
        },
        ValueSource::Equal => {
            lemma_comparison_runs(blocks, world, Compare::Equal);
        },
        ValueSource::Greater => {
            lemma_comparison_runs(blocks, world, Compare::Greater);
        },
        _ => {
            lemma_single_runs(blocks, world, source);
        },
    }
}

/// The case of an operator: the operations of the left-hand side run first,
/// then those of the right-hand side, then the operator itself.
pub proof fn lemma_operate_runs(blocks: Seq<Seq<Operation>>, world: World, source: ValueSource)
    requires
        source is Operate,
        stands_at(blocks, world.state, lowered_source(source, world.state.registers.len()).0),
        has_room(world.state.stack.len()),
        has_room(world.state.deque.len()),
    ensures
        source_ran(
            world,
            run_for(
                blocks,
                world,
                lowered_source(source, world.state.registers.len()).0.len(),
            ),
            source,
        ),
    decreases source, 0nat,
{
    let lhs = *source->Operate_0;
    let operator = source->Operate_1;
    let rhs = *source->Operate_2;
    let base = world.state.registers.len();
    let lowered = lowered_source(source, base);
    let left = lowered_source(lhs, base);
    let right = lowered_source(rhs, base + left.0.len());
    let operation = Operation::Arithmetic(left.1, operator, right.1);
    let early = left.0.len();
    let late = right.0.len();
    assert(lowered.0 == left.0 + right.0 + seq![operation]);
    lemma_stands_at_part(blocks, world.state, world.state, lowered.0, left.0, 0);
    lemma_source_runs(blocks, world, lhs);
    let middle = run_for(blocks, world, early);
    lemma_run_for_adds(blocks, world, early, late + 1);
    match evaluate(lhs, operands_of(world)) {
        Err(failure) => {
            lemma_ended_stays(blocks, middle, late + 1);
        },
        Ok((left_value, after_left)) => {
            lemma_stands_at_part(
                blocks,
                world.state,
                middle.state,
                lowered.0,
                right.0,
                early as int,
            );
            lemma_source_runs(blocks, middle, rhs);
            let end = run_for(blocks, middle, late);
            lemma_run_for_adds(blocks, middle, late, 1);
            match evaluate(rhs, after_left) {
                Err(failure) => {
                    lemma_ended_stays(blocks, end, 1);
                },
                Ok((right_value, after_right)) => {
                    lemma_continues_adds(world, middle, end, early, late);
                    lemma_value_stays(middle, end, late, left.1);
                    lemma_at_part(blocks, world.state, end.state, lowered.0, (early + late) as int);
                    lemma_arithmetic_runs(blocks, end, left.1, operator, right.1);
                    let after = run_for(blocks, end, 1);
                    if is_defined(operator, right_value) {
                        assert(after.state.registers.take(end.state.registers.len() as int)
                            =~= end.state.registers);
                        lemma_continues_adds(world, end, after, early + late, 1);
                    }
                },
            }
        },
    }
}

/// The operations that `Equal` and `Greater` are lowered to leave the deque
/// as it was, whatever it holds and however much: they take its front out to
/// compare it with the top of the stack, and put it back into the cell that
/// this has freed. The stack loses its top, and the value is 1 if the
/// comparison holds, else 0.
pub proof fn lemma_peek_keeps_deque(blocks: Seq<Seq<Operation>>, world: World, source: ValueSource)
    requires
        source is Equal || source is Greater,
        stands_at(blocks, world.state, lowered_source(source, world.state.registers.len()).0),
        world.state.deque.len() <= world.state.deque_capacity,
        world.state.stack.len() > 0,
        world.state.deque.len() > 0,
    ensures
        ({
            let after = run_for(blocks, world, 5);
            let comparison = if source is Equal {
                Compare::Equal
            } else {
                Compare::Greater
            };
            &&& after.state.status is None
            &&& after.state.deque == world.state.deque
            &&& after.state.stack == world.state.stack.drop_last()
            &&& value_of(
                after.state.registers,
                lowered_source(source, world.state.registers.len()).1,
            ) == Some(
                comparison_result(world.state.stack.last(), comparison, world.state.deque.last()),
            )
        }),
{
    if source is Equal {
        lemma_comparison_runs(blocks, world, Compare::Equal);
    } else {
        lemma_comparison_runs(blocks, world, Compare::Greater);
    }
}

/// What holds after the operations of an instruction that stays in its
/// section have run: the world is as the interpreter leaves it and has
/// written what the interpreter writes; or it has ended with the failure
/// that the interpreter runs into.
pub open spec fn instruction_ran(
    world: World,
    after: World,
    instruction: Instruction,
    operations: nat,
) -> bool {
    match perform(instruction, operands_of(world)) {
        Ok((rest, action)) => {
            &&& after.state.status is None
            &&& after.state.block == world.state.block
            &&& after.state.cursors == world.state.cursors
            &&& after.state.registers.len() == world.state.registers.len() + operations
            &&& operands_of(after) == rest
            &&& after.output == world.output + emitted(action)
        },
        Err(failure) => ended_with(world, after, failure),
    }
}

/// An instruction that writes nothing leaves the output as it is.
pub proof fn lemma_silent(output: Seq<u8>)
    ensures
        output + emitted(Action::Continue) == output,
{
    assert(output + Seq::<u8>::empty() =~= output);
}

/// The operations of a push do what the interpreter does.
pub proof fn lemma_push_instruction_runs(
    blocks: Seq<Seq<Operation>>,
    world: World,
    source: ValueSource,
    place: Place,
)
    requires
        stands_at(
            blocks,
            world.state,
            lowered_instruction(Instruction::Push(source), world.state.registers.len(), place),
        ),
        has_room(world.state.stack.len()),
        has_room(world.state.deque.len()),
    ensures
        instruction_ran(
            world,
            run_for(
                blocks,
                world,
                lowered_source(source, world.state.registers.len()).0.len() + 1,
            ),
            Instruction::Push(source),
            lowered_source(source, world.state.registers.len()).0.len() + 1,
        ),
{
    let base = world.state.registers.len();
    let lowered = lowered_instruction(Instruction::Push(source), base, place);
    let value = lowered_source(source, base);
    let early = value.0.len();
    lemma_stands_at_part(blocks, world.state, world.state, lowered, value.0, 0);
    lemma_source_runs(blocks, world, source);
    let middle = run_for(blocks, world, early);
    lemma_run_for_adds(blocks, world, early, 1);
    lemma_silent(world.output);
    match evaluate(source, operands_of(world)) {
        Err(failure) => {
            lemma_ended_stays(blocks, middle, 1);
        },
        Ok((result, rest)) => {
            lemma_at_part(blocks, world.state, middle.state, lowered, early as int);
            lemma_push_runs(blocks, middle, value.1);
        },
    }
}

/// The operations of an insertion do what the interpreter does.
pub proof fn lemma_insert_instruction_runs(
    blocks: Seq<Seq<Operation>>,
    world: World,
    source: ValueSource,
    end: QueueEnd,
    place: Place,
)
    requires
        stands_at(
            blocks,
            world.state,
            lowered_instruction(
                Instruction::Insert(source, end),
                world.state.registers.len(),
                place,
            ),
        ),
        has_room(world.state.stack.len()),
        has_room(world.state.deque.len()),
    ensures
        instruction_ran(
            world,
            run_for(
                blocks,
                world,
                lowered_source(source, world.state.registers.len()).0.len() + 1,
            ),
            Instruction::Insert(source, end),
            lowered_source(source, world.state.registers.len()).0.len() + 1,
        ),
{
    let base = world.state.registers.len();
    let lowered = lowered_instruction(Instruction::Insert(source, end), base, place);
    let value = lowered_source(source, base);
    let early = value.0.len();
    lemma_stands_at_part(blocks, world.state, world.state, lowered, value.0, 0);
    lemma_source_runs(blocks, world, source);
    let middle = run_for(blocks, world, early);
    lemma_run_for_adds(blocks, world, early, 1);
    lemma_silent(world.output);
    match evaluate(source, operands_of(world)) {
        Err(failure) => {
            lemma_ended_stays(blocks, middle, 1);
        },
        Ok((result, rest)) => {
            lemma_at_part(blocks, world.state, middle.state, lowered, early as int);
            lemma_insert_runs(blocks, middle, end, value.1);
        },
    }
}

/// The operations of the output of a number do what the interpreter does.
pub proof fn lemma_output_number_runs(
    blocks: Seq<Seq<Operation>>,
    world: World,
    source: ValueSource,
    place: Place,
)
    requires
        stands_at(
            blocks,
            world.state,
            lowered_instruction(
                Instruction::OutputNumber(source),
                world.state.registers.len(),
                place,
            ),
        ),
        has_room(world.state.stack.len()),
        has_room(world.state.deque.len()),
    ensures
        instruction_ran(
            world,
            run_for(
                blocks,
                world,
                lowered_source(source, world.state.registers.len()).0.len() + 1,
            ),
            Instruction::OutputNumber(source),
            lowered_source(source, world.state.registers.len()).0.len() + 1,
        ),
{
    let base = world.state.registers.len();
    let lowered = lowered_instruction(Instruction::OutputNumber(source), base, place);
    let value = lowered_source(source, base);
    let early = value.0.len();
    lemma_stands_at_part(blocks, world.state, world.state, lowered, value.0, 0);
    lemma_source_runs(blocks, world, source);
    let middle = run_for(blocks, world, early);
    lemma_run_for_adds(blocks, world, early, 1);
    match evaluate(source, operands_of(world)) {
        Err(failure) => {
            lemma_ended_stays(blocks, middle, 1);
        },
        Ok((result, rest)) => {
            lemma_at_part(blocks, world.state, middle.state, lowered, early as int);
            lemma_put_runs(blocks, middle, Function::PutI64, value.1);
        },
    }
}

/// The operations of the output of a character do what the interpreter
/// does: the cast to 32 bits does not change the byte that is written.
pub proof fn lemma_output_character_runs(
    blocks: Seq<Seq<Operation>>,
    world: World,
    source: ValueSource,
    place: Place,
)
    requires
        stands_at(
            blocks,
            world.state,
            lowered_instruction(
                Instruction::OutputCharacter(source),
                world.state.registers.len(),
                place,
            ),
        ),
        has_room(world.state.stack.len()),
        has_room(world.state.deque.len()),
    ensures
        instruction_ran(
            world,
            run_for(
                blocks,
                world,
                lowered_source(source, world.state.registers.len()).0.len() + 2,
            ),
            Instruction::OutputCharacter(source),
            lowered_source(source, world.state.registers.len()).0.len() + 2,
        ),
{
    let base = world.state.registers.len();
    let lowered = lowered_instruction(Instruction::OutputCharacter(source), base, place);
    let value = lowered_source(source, base);
    let early = value.0.len();
    lemma_stands_at_part(blocks, world.state, world.state, lowered, value.0, 0);
    lemma_source_runs(blocks, world, source);
    let middle = run_for(blocks, world, early);
    lemma_run_for_adds(blocks, world, early, 2);
    match evaluate(source, operands_of(world)) {
        Err(failure) => {
            lemma_ended_stays(blocks, middle, 2);
        },
        Ok((result, rest)) => {
            lemma_at_part(blocks, world.state, middle.state, lowered, early as int);
            lemma_cast_runs(blocks, middle, value.1, Type::I32);
            let cut = run_for(blocks, middle, 1);
            lemma_run_for_adds(blocks, middle, 1, 1);
            lemma_at_part(blocks, world.state, cut.state, lowered, early as int + 1);
            lemma_put_runs(
                blocks,
                cut,
                Function::PutChar,
                Value::Result((base + early) as usize),
            );
            assert((((result as i32) as i64) as u8) == (result as u8)) by (bit_vector);
        },
    }
}

/// The operations of `Destroy` do what the interpreter does.
pub proof fn lemma_destroy_runs(blocks: Seq<Seq<Operation>>, world: World, place: Place)
    requires
        stands_at(
            blocks,
            world.state,
            lowered_instruction(Instruction::Destroy, world.state.registers.len(), place),
        ),
    ensures
        instruction_ran(world, run_for(blocks, world, 1), Instruction::Destroy, 1),
{
    let lowered = lowered_instruction(Instruction::Destroy, world.state.registers.len(), place);
    lemma_at_part(blocks, world.state, world.state, lowered, 0);
    lemma_pop_runs(blocks, world);
    lemma_silent(world.output);
}

/// The operations of `BitwiseNot` do what the interpreter does.
pub proof fn lemma_bitwise_not_runs(blocks: Seq<Seq<Operation>>, world: World, place: Place)
    requires
        stands_at(
            blocks,
            world.state,
            lowered_instruction(Instruction::BitwiseNot, world.state.registers.len(), place),
        ),
        has_room(world.state.stack.len()),
    ensures
        instruction_ran(world, run_for(blocks, world, 3), Instruction::BitwiseNot, 3),
{
    let base = world.state.registers.len();
    let lowered = lowered_instruction(Instruction::BitwiseNot, base, place);
    lemma_at_part(blocks, world.state, world.state, lowered, 0);
    lemma_pop_runs(blocks, world);
    lemma_silent(world.output);
    let first = run_for(blocks, world, 1);
    lemma_run_for_adds(blocks, world, 1, 2);
    if world.state.stack.len() == 0 {
        lemma_ended_stays(blocks, first, 2);
    } else {
        lemma_at_part(blocks, world.state, first.state, lowered, 1);
        lemma_bit_not_runs(blocks, first, Value::Result(base as usize));
        let second = run_for(blocks, first, 1);

        lemma_run_for_adds(blocks, first, 1, 1);
        lemma_at_part(blocks, world.state, second.state, lowered, 2);
        lemma_push_runs(blocks, second, Value::Result((base + 1) as usize));
    }
}

/// The operations of `LogicalNot` do what the interpreter does.
pub proof fn lemma_logical_not_runs(blocks: Seq<Seq<Operation>>, world: World, place: Place)
    requires
        stands_at(
            blocks,
            world.state,
            lowered_instruction(Instruction::LogicalNot, world.state.registers.len(), place),
        ),
        has_room(world.state.stack.len()),
    ensures
        instruction_ran(world, run_for(blocks, world, 4), Instruction::LogicalNot, 4),
{
    let base = world.state.registers.len();
    let lowered = lowered_instruction(Instruction::LogicalNot, base, place);
    lemma_at_part(blocks, world.state, world.state, lowered, 0);
    lemma_pop_runs(blocks, world);
    lemma_silent(world.output);
    let first = run_for(blocks, world, 1);
    lemma_run_for_adds(blocks, world, 1, 3);
    if world.state.stack.len() == 0 {
        lemma_ended_stays(blocks, first, 3);
    } else {
        lemma_at_part(blocks, world.state, first.state, lowered, 1);
        lemma_compare_runs(
            blocks,
            first,
            Value::Result(base as usize),
            Compare::Equal,
            Value::Int64(0),
        );
        let second = run_for(blocks, first, 1);
        lemma_run_for_adds(blocks, first, 1, 2);
        lemma_at_part(blocks, world.state, second.state, lowered, 2);
        lemma_extend_runs(blocks, second, Value::Result((base + 1) as usize), Type::I64);
        let third = run_for(blocks, second, 1);
        lemma_run_for_adds(blocks, second, 1, 1);
        lemma_at_part(blocks, world.state, third.state, lowered, 3);
        lemma_push_runs(blocks, third, Value::Result((base + 2) as usize));
    }
}

/// The operations that an instruction which stays in its section is lowered
/// to do what the interpreter does when it runs the instruction, as long as
/// the containers have room.
pub proof fn lemma_instruction_runs(
    blocks: Seq<Seq<Operation>>,
    world: World,
    instruction: Instruction,
    place: Place,
)
    requires
        !leaves_block(instruction),
        stands_at(
            blocks,
            world.state,
            lowered_instruction(instruction, world.state.registers.len(), place),
        ),
        has_room(world.state.stack.len()),
        has_room(world.state.deque.len()),
    ensures
        instruction_ran(
            world,
            run_for(
                blocks,
                world,
                lowered_instruction(instruction, world.state.registers.len(), place).len(),
            ),
            instruction,
            lowered_instruction(instruction, world.state.registers.len(), place).len(),
        ),
{
    match instruction {
        Instruction::Push(source) => {
            lemma_push_instruction_runs(blocks, world, source, place);
        },
        Instruction::Insert(source, end) => {
            lemma_insert_instruction_runs(blocks, world, source, end, place);
        },
        Instruction::OutputNumber(source) => {
            lemma_output_number_runs(blocks, world, source, place);
        },
        Instruction::OutputCharacter(source) => {
            lemma_output_character_runs(blocks, world, source, place);
        },
        Instruction::BitwiseNot => {
            lemma_bitwise_not_runs(blocks, world, place);
        },
        Instruction::LogicalNot => {
            lemma_logical_not_runs(blocks, world, place);
        },
        Instruction::Destroy => {
            lemma_destroy_runs(blocks, world, place);
        },
        _ => {},
    }
}

} // verus!
