//! What one operation does to a world: a machine with its input and output.

use vstd::prelude::*;
use crate::builder::{Block, Compare, Function, Operation, Type, Value};
use crate::execution::{inserted, Operands};
use crate::failure::Failure;
use crate::instruction_builder::{insert_function, remove_function};
use crate::machine::{
    call_step, cast_result, cell_of, comparison_result, emitted, operation_step,
    resized_capacity, run_for, step, switch_target, value_of, Action, Input, State, World,
};
use crate::operation::{bitwise_not, is_defined, operation_result};
use crate::stack::{can_take, grown_capacity};
use crate::syntax::{Operator, QueueEnd};

verus! {

/// What a value source may consume in a world.
pub open spec fn operands_of(world: World) -> Operands {
    Operands { stack: world.state.stack, deque: world.state.deque, input: world.input }
}

/// Whether the machine is running and `operation` is the one that it runs
/// next.
pub open spec fn at(blocks: Seq<Seq<Operation>>, state: State, operation: Operation) -> bool {
    &&& state.status is None
    &&& 0 <= state.block < blocks.len()
    &&& state.registers.len() < blocks[state.block].len()
    &&& state.registers.len() < usize::MAX
    &&& blocks[state.block][state.registers.len() as int] == operation
}

/// Whether the machine is running and the block that it is in holds
/// `operations` from the place reached on.
pub open spec fn stands_at(
    blocks: Seq<Seq<Operation>>,
    state: State,
    operations: Seq<Operation>,
) -> bool {
    &&& state.status is None
    &&& 0 <= state.block < blocks.len()
    &&& state.registers.len() + operations.len() <= blocks[state.block].len()
    &&& state.registers.len() + operations.len() <= usize::MAX
    &&& forall|index: int|
        0 <= index < operations.len() ==> blocks[state.block][state.registers.len() + index]
            == #[trigger] operations[index]
}

/// The operation at `offset` of a run of operations is the next one when
/// `offset` operations of the run have run.
pub proof fn lemma_at_part(
    blocks: Seq<Seq<Operation>>,
    start: State,
    state: State,
    whole: Seq<Operation>,
    offset: int,
)
    requires
        stands_at(blocks, start, whole),
        state.status is None,
        state.block == start.block,
        state.registers.len() == start.registers.len() + offset,
        0 <= offset < whole.len(),
    ensures
        at(blocks, state, whole[offset]),
{
}

/// The operations of a part of a longer run stand where the part begins.
pub proof fn lemma_stands_at_part(
    blocks: Seq<Seq<Operation>>,
    start: State,
    state: State,
    whole: Seq<Operation>,
    part: Seq<Operation>,
    offset: int,
)
    requires
        stands_at(blocks, start, whole),
        state.status is None,
        state.block == start.block,
        state.registers.len() == start.registers.len() + offset,
        0 <= offset,
        offset + part.len() <= whole.len(),
        forall|index: int| 0 <= index < part.len() ==> whole[offset + index] == #[trigger] part[index],
    ensures
        stands_at(blocks, state, part),
{
    assert forall|index: int| 0 <= index < part.len() implies blocks[state.block][state.registers.len()
        + index] == #[trigger] part[index] by {
        assert(blocks[start.block][start.registers.len() + (offset + index)] == whole[offset
            + index]);
    }
}

/// The world after an operation with this result.
pub open spec fn with_result(world: World, result: i64) -> World {
    World {
        state: State { registers: world.state.registers.push(result), ..world.state },
        ..world
    }
}

/// The world after the program has ended with a failure.
pub open spec fn stopped_world(world: World, failure: Failure) -> World {
    World { state: State { status: Some(failure.spec_status()), ..world.state }, ..world }
}

/// The world with another stack.
pub open spec fn with_stack(world: World, stack: Seq<i64>) -> World {
    World { state: State { stack, ..world.state }, ..world }
}

/// The world with another deque.
pub open spec fn with_deque(world: World, deque: Seq<i64>) -> World {
    World { state: State { deque, ..world.state }, ..world }
}

/// The world at the start of another block.
pub open spec fn moved_to(world: World, target: Block) -> World {
    World {
        state: State { block: target.0 as int, registers: Seq::empty(), ..world.state },
        ..world
    }
}

/// One step at an operation that reads no input and writes nothing.
proof fn lemma_quiet_step(blocks: Seq<Seq<Operation>>, world: World, operation: Operation)
    requires
        at(blocks, world.state, operation),
        !(operation matches Operation::Call(function, _) && (function == Function::GetChar
            || function == Function::PutChar || function == Function::PutI64)),
    ensures
        run_for(blocks, world, 1) == (World {
            state: operation_step(
                blocks[world.state.block],
                world.state,
                operation,
                Input::Nothing,
            ).0,
            ..world
        }),
{
    reveal(operation_step);
    reveal(call_step);
    assert(run_for(blocks, world, 0) == world);
    let stepped = operation_step(blocks[world.state.block], world.state, operation, Input::Nothing);
    assert(step(blocks, world.state, Input::Nothing) == stepped);
    assert(emitted(stepped.1) =~= Seq::<u8>::empty());
    assert(world.output + Seq::<u8>::empty() =~= world.output);
}

/// A pop: the top of the stack becomes the result, or the program ends with
/// an underflow.
pub proof fn lemma_pop_runs(blocks: Seq<Seq<Operation>>, world: World)
    requires
        at(blocks, world.state, Operation::Call(Function::Pop, None)),
    ensures
        run_for(blocks, world, 1) == if world.state.stack.len() > 0 {
            with_result(
                with_stack(world, world.state.stack.drop_last()),
                world.state.stack.last(),
            )
        } else {
            stopped_world(world, Failure::StackUnderflow)
        },
{
    reveal(operation_step);
    reveal(call_step);
    lemma_quiet_step(blocks, world, Operation::Call(Function::Pop, None));
}

/// A removal from the deque: the value at the end becomes the result, or the
/// program ends with an underflow.
pub proof fn lemma_remove_runs(blocks: Seq<Seq<Operation>>, world: World, end: QueueEnd)
    requires
        at(blocks, world.state, Operation::Call(remove_function(end), None)),
    ensures
        run_for(blocks, world, 1) == if world.state.deque.len() == 0 {
            stopped_world(world, Failure::DequeUnderflow)
        } else {
            match end {
                QueueEnd::Front => with_result(
                    with_deque(world, world.state.deque.drop_last()),
                    world.state.deque.last(),
                ),
                QueueEnd::Back => with_result(
                    with_deque(
                        world,
                        world.state.deque.subrange(1, world.state.deque.len() as int),
                    ),
                    world.state.deque.first(),
                ),
            }
        },
{
    reveal(operation_step);
    reveal(call_step);
    lemma_quiet_step(blocks, world, Operation::Call(remove_function(end), None));
}

/// A push of a defined value onto a stack that can take it.
pub proof fn lemma_push_runs(blocks: Seq<Seq<Operation>>, world: World, value: Value)
    requires
        at(blocks, world.state, Operation::Call(Function::Push, Some(value))),
        value_of(world.state.registers, value) is Some,
        can_take(world.state.stack.len(), world.state.stack_capacity),
    ensures
        run_for(blocks, world, 1) == with_result(
            World {
                state: State {
                    stack: world.state.stack.push(value_of(world.state.registers, value)->0),
                    stack_capacity: grown_capacity(
                        world.state.stack.len(),
                        world.state.stack_capacity,
                    ),
                    ..world.state
                },
                ..world
            },
            0,
        ),
{
    reveal(operation_step);
    reveal(call_step);
    lemma_quiet_step(blocks, world, Operation::Call(Function::Push, Some(value)));
}

/// An insertion of a defined value into a deque that can take it.
pub proof fn lemma_insert_runs(
    blocks: Seq<Seq<Operation>>,
    world: World,
    end: QueueEnd,
    value: Value,
)
    requires
        at(blocks, world.state, Operation::Call(insert_function(end), Some(value))),
        value_of(world.state.registers, value) is Some,
        can_take(world.state.deque.len(), world.state.deque_capacity),
    ensures
        run_for(blocks, world, 1) == with_result(
            World {
                state: State {
                    deque: inserted(
                        world.state.deque,
                        value_of(world.state.registers, value)->0,
                        end,
                    ),
                    deque_capacity: grown_capacity(
                        world.state.deque.len(),
                        world.state.deque_capacity,
                    ),
                    ..world.state
                },
                ..world
            },
            0,
        ),
{
    reveal(operation_step);
    reveal(call_step);
    lemma_quiet_step(blocks, world, Operation::Call(insert_function(end), Some(value)));
}

/// The output of a defined value, as a number or as a character.
pub proof fn lemma_put_runs(
    blocks: Seq<Seq<Operation>>,
    world: World,
    function: Function,
    value: Value,
)
    requires
        function == Function::PutChar || function == Function::PutI64,
        at(blocks, world.state, Operation::Call(function, Some(value))),
        value_of(world.state.registers, value) is Some,
    ensures
        run_for(blocks, world, 1) == ({
            let written = value_of(world.state.registers, value)->0;
            let action = if function == Function::PutChar {
                Action::PutChar(written as u8)
            } else {
                Action::PutNumber(written)
            };
            World { output: world.output + emitted(action), ..with_result(world, 0) }
        }),
{
    reveal(operation_step);
    reveal(call_step);
    assert(run_for(blocks, world, 0) == world);
    let operation = Operation::Call(function, Some(value));
    let stepped = operation_step(blocks[world.state.block], world.state, operation, Input::Nothing);
    assert(step(blocks, world.state, Input::Nothing) == stepped);
}

/// A read from the input: the next byte becomes the result, or the program
/// ends because the input has.
pub proof fn lemma_read_runs(blocks: Seq<Seq<Operation>>, world: World)
    requires
        at(blocks, world.state, Operation::Call(Function::GetChar, None)),
    ensures
        run_for(blocks, world, 1) == if world.input.len() > 0 {
            World {
                input: world.input.drop_first(),
                ..with_result(world, world.input.first() as i64)
            }
        } else {
            stopped_world(world, Failure::EndOfInput)
        },
{
    reveal(operation_step);
    reveal(call_step);
    assert(run_for(blocks, world, 0) == world);
    let operation = Operation::Call(Function::GetChar, None);
    let operations = blocks[world.state.block];
    assert(step(blocks, world.state, Input::Nothing) == operation_step(
        operations,
        world.state,
        operation,
        Input::Nothing,
    ));
    assert(step(blocks, world.state, Input::End) == operation_step(
        operations,
        world.state,
        operation,
        Input::End,
    ));
    if world.input.len() > 0 {
        assert(step(blocks, world.state, Input::Byte(world.input.first())) == operation_step(
            operations,
            world.state,
            operation,
            Input::Byte(world.input.first()),
        ));
    }
}

/// A resize of a container changes its capacity at most.
pub proof fn lemma_resize_runs(
    blocks: Seq<Seq<Operation>>,
    world: World,
    function: Function,
    value: Value,
)
    requires
        function == Function::StackResize || function == Function::DequeResize,
        at(blocks, world.state, Operation::Call(function, Some(value))),
        value_of(world.state.registers, value) is Some,
    ensures
        ({
            let after = run_for(blocks, world, 1);
            let size = value_of(world.state.registers, value)->0;
            &&& after == (World {
                state: State {
                    stack_capacity: after.state.stack_capacity,
                    deque_capacity: after.state.deque_capacity,
                    ..with_result(world, 0).state
                },
                ..world
            })
            &&& after.state.stack_capacity == if function == Function::StackResize {
                resized_capacity(world.state.stack_capacity, size)
            } else {
                world.state.stack_capacity
            }
            &&& after.state.deque_capacity == if function == Function::DequeResize {
                resized_capacity(world.state.deque_capacity, size)
            } else {
                world.state.deque_capacity
            }
        }),
{
    reveal(operation_step);
    reveal(call_step);
    lemma_quiet_step(blocks, world, Operation::Call(function, Some(value)));
}

/// An arithmetic operation on two defined values: its result, or the end of
/// the program when it has none.
pub proof fn lemma_arithmetic_runs(
    blocks: Seq<Seq<Operation>>,
    world: World,
    left: Value,
    operator: Operator,
    right: Value,
)
    requires
        at(blocks, world.state, Operation::Arithmetic(left, operator, right)),
        value_of(world.state.registers, left) is Some,
        value_of(world.state.registers, right) is Some,
    ensures
        run_for(blocks, world, 1) == ({
            let lhs = value_of(world.state.registers, left)->0;
            let rhs = value_of(world.state.registers, right)->0;
            if is_defined(operator, rhs) {
                with_result(world, operation_result(lhs, operator, rhs))
            } else {
                stopped_world(world, Failure::DivisionByZero)
            }
        }),
{
    reveal(operation_step);
    lemma_quiet_step(blocks, world, Operation::Arithmetic(left, operator, right));
}

/// A bitwise NOT of a defined value.
pub proof fn lemma_bit_not_runs(blocks: Seq<Seq<Operation>>, world: World, value: Value)
    requires
        at(blocks, world.state, Operation::BitNot(value)),
        value_of(world.state.registers, value) is Some,
    ensures
        run_for(blocks, world, 1) == with_result(
            world,
            bitwise_not(value_of(world.state.registers, value)->0),
        ),
{
    reveal(operation_step);
    lemma_quiet_step(blocks, world, Operation::BitNot(value));
}

/// A comparison of two defined values.
pub proof fn lemma_compare_runs(
    blocks: Seq<Seq<Operation>>,
    world: World,
    left: Value,
    comparison: Compare,
    right: Value,
)
    requires
        at(blocks, world.state, Operation::Compare(left, comparison, right)),
        value_of(world.state.registers, left) is Some,
        value_of(world.state.registers, right) is Some,
    ensures
        run_for(blocks, world, 1) == with_result(
            world,
            comparison_result(
                value_of(world.state.registers, left)->0,
                comparison,
                value_of(world.state.registers, right)->0,
            ),
        ),
{
    reveal(operation_step);
    lemma_quiet_step(blocks, world, Operation::Compare(left, comparison, right));
}

/// A cast of a defined value.
pub proof fn lemma_cast_runs(blocks: Seq<Seq<Operation>>, world: World, value: Value, target: Type)
    requires
        at(blocks, world.state, Operation::CastInt(value, target)),
        value_of(world.state.registers, value) is Some,
    ensures
        run_for(blocks, world, 1) == with_result(
            world,
            cast_result(value_of(world.state.registers, value)->0, target),
        ),
{
    reveal(operation_step);
    lemma_quiet_step(blocks, world, Operation::CastInt(value, target));
}

/// A zero-extension of a defined value.
pub proof fn lemma_extend_runs(
    blocks: Seq<Seq<Operation>>,
    world: World,
    value: Value,
    target: Type,
)
    requires
        at(blocks, world.state, Operation::ZeroExtendInt(value, target)),
        value_of(world.state.registers, value) is Some,
    ensures
        run_for(blocks, world, 1) == with_result(world, value_of(world.state.registers, value)->0),
{
    reveal(operation_step);
    lemma_quiet_step(blocks, world, Operation::ZeroExtendInt(value, target));
}

/// A load from a global cell that exists.
pub proof fn lemma_load_runs(blocks: Seq<Seq<Operation>>, world: World, address: Value)
    requires
        at(blocks, world.state, Operation::Load(address)),
        cell_of(world.state.cursors, address) is Some,
    ensures
        run_for(blocks, world, 1) == with_result(
            world,
            world.state.cursors[cell_of(world.state.cursors, address)->0],
        ),
{
    reveal(operation_step);
    lemma_quiet_step(blocks, world, Operation::Load(address));
}

/// A store of a defined value to a global cell that exists.
pub proof fn lemma_store_runs(
    blocks: Seq<Seq<Operation>>,
    world: World,
    value: Value,
    address: Value,
)
    requires
        at(blocks, world.state, Operation::Store(value, address)),
        value_of(world.state.registers, value) is Some,
        cell_of(world.state.cursors, address) is Some,
    ensures
        run_for(blocks, world, 1) == with_result(
            World {
                state: State {
                    cursors: world.state.cursors.update(
                        cell_of(world.state.cursors, address)->0,
                        value_of(world.state.registers, value)->0,
                    ),
                    ..world.state
                },
                ..world
            },
            0,
        ),
{
    reveal(operation_step);
    lemma_quiet_step(blocks, world, Operation::Store(value, address));
}

/// A branch.
pub proof fn lemma_branch_runs(blocks: Seq<Seq<Operation>>, world: World, target: Block)
    requires
        at(blocks, world.state, Operation::Branch(target)),
    ensures
        run_for(blocks, world, 1) == moved_to(world, target),
{
    reveal(operation_step);
    lemma_quiet_step(blocks, world, Operation::Branch(target));
}

/// A switch on a defined value.
pub proof fn lemma_switch_runs(
    blocks: Seq<Seq<Operation>>,
    world: World,
    condition: Value,
    default: Block,
    cases: usize,
)
    requires
        at(blocks, world.state, Operation::Switch(condition, default, cases)),
        value_of(world.state.registers, condition) is Some,
    ensures
        run_for(blocks, world, 1) == moved_to(
            world,
            switch_target(
                blocks[world.state.block],
                world.state.registers,
                world.state.registers.len() as int + 1,
                cases as nat,
                value_of(world.state.registers, condition)->0,
                default,
            ),
        ),
{
    reveal(operation_step);
    lemma_quiet_step(blocks, world, Operation::Switch(condition, default, cases));
}

/// A return of an exit status.
pub proof fn lemma_return_runs(blocks: Seq<Seq<Operation>>, world: World, status: i32)
    requires
        at(blocks, world.state, Operation::ReturnValue(Value::Int32(status))),
    ensures
        run_for(blocks, world, 1) == (World {
            state: State { status: Some(status), ..world.state },
            ..world
        }),
{
    reveal(operation_step);
    let operation = Operation::ReturnValue(Value::Int32(status));
    assert(run_for(blocks, world, 0) == world);
    let stepped = operation_step(blocks[world.state.block], world.state, operation, Input::Nothing);
    assert(step(blocks, world.state, Input::Nothing) == stepped);
    assert(((status as i64) as i32) == status) by (bit_vector);
    assert(world.output + Seq::<u8>::empty() =~= world.output);
}

} // verus!
