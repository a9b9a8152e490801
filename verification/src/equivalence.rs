//! A compiled program does what the interpreter does with its sequences: it
//! writes the same output and ends with the same status.

use vstd::prelude::*;
use crate::builder::{switch_operations, Block, Operation, Value};
use crate::compiler::{
    entry_operations, holds_program, init_deque_operations, init_stack_operations,
    return_operations, valid_program, ENTRY_SEQUENCE, FIRST_SEQUENCE_BLOCK,
};
use crate::execution::{
    entered, initial_interpretation, interpret_for, interpreter_step, resumed, Position,
};
use crate::instruction_builder::{
    advance_section, fall_through, jump_target, leaves_block, lowerable, lowered_instruction,
    lowered_instructions, lowered_section, Layout, Place,
};
use crate::machine::{has_room, initial_world, run_for, switch_target, World};
use crate::sequence_builder::{
    block_number, jump_table_cases, jump_table_operations, lemma_offsets_increase, place_of,
    valid_section, Program,
};
use crate::machine::lemma_run_for_adds;
use crate::builder::Compare;
use crate::machine::comparison_result;
use crate::steps::{
    lemma_at_part, lemma_branch_runs, lemma_compare_runs, lemma_load_runs, lemma_pop_runs,
    lemma_return_runs, lemma_store_runs, lemma_switch_runs, moved_to, operands_of, stands_at,
    stopped_world, with_stack,
};
use crate::builder::Function;
use crate::deque::INITIAL_CAPACITY;
use crate::execution::{initial_cursors, Operands};
use crate::failure::Failure;
use crate::folding::{lemma_folding_keeps_runs, ticks};
use crate::optimize::folded_program;
use crate::parse::parsed_source;
use crate::validity::{lemma_folded_program_is_valid, lemma_parsed_source_is_valid};
use crate::stack::INITIAL_SIZE;
use crate::steps::lemma_resize_runs;
use crate::machine::{emitted, State};
use crate::simulation::lemma_instruction_runs;
use crate::syntax::Instruction;

verus! {

/// Whether `blocks` is the program compiled from sequences that can be
/// compiled, laid out as in `layouts`, with blocks of a size that fits in a
/// machine word.
pub open spec fn compiled(blocks: Seq<Seq<Operation>>, program: Program, layouts: Seq<Layout>) -> bool {
    &&& valid_program(program)
    &&& holds_program(blocks, program, layouts)
    &&& forall|block: int| 0 <= block < blocks.len() ==> (#[trigger] blocks[block]).len() <= usize::MAX
}

/// Where a section of the compiled program stands.
pub open spec fn place_at(layouts: Seq<Layout>, sequence: int, section: int) -> Place {
    place_of(layouts, sequence, section, Block(3), Block(4))
}

/// The block of a section is the one that the section was lowered to, and
/// the section could be lowered.
pub proof fn lemma_section_block(
    blocks: Seq<Seq<Operation>>,
    program: Program,
    layouts: Seq<Layout>,
    sequence: int,
    section: int,
)
    requires
        compiled(blocks, program, layouts),
        0 <= sequence < program.len(),
        0 <= section < program[sequence].len(),
    ensures
        0 <= layouts[sequence].sections[section].0 < blocks.len(),
        blocks[layouts[sequence].sections[section].0 as int] == lowered_section(
            program[sequence][section],
            0,
            place_at(layouts, sequence, section),
        ),
        lowerable(program[sequence][section], place_at(layouts, sequence, section)),
        layouts[sequence].sections.len() == program[sequence].len(),
        layouts.len() == program.len(),
{
    let number = block_number(program, FIRST_SEQUENCE_BLOCK as int, sequence, section);
    assert(layouts[sequence].sections[section].0 == number);
    lemma_offsets_increase(program, sequence, program.len() as int);
    assert(valid_section(program, sequence, section));
    let place = place_at(layouts, sequence, section);
    let instructions = program[sequence][section];
    assert forall|index: int| 0 <= index < instructions.len() implies match #[trigger] instructions[index] {
        Instruction::SkipIfNotOne => {
            &&& index == instructions.len() - 1
            &&& place.section + 2 < place.layouts[place.sequence].sections.len()
        },
        Instruction::Jump(direction, _) => {
            &&& index == instructions.len() - 1
            &&& 0 <= jump_target(place.sequence, direction) < place.layouts.len()
        },
        Instruction::Exit => index == instructions.len() - 1,
        _ => true,
    } by {}
}

/// The block of a jump table holds the jump table; the cursor of the
/// sequence is the global cell of its number.
pub proof fn lemma_table_block(
    blocks: Seq<Seq<Operation>>,
    program: Program,
    layouts: Seq<Layout>,
    sequence: int,
)
    requires
        compiled(blocks, program, layouts),
        0 <= sequence < program.len(),
    ensures
        0 <= layouts[sequence].jump_table.block.0 < blocks.len(),
        blocks[layouts[sequence].jump_table.block.0 as int] == jump_table_operations(
            layouts[sequence],
            Block(4),
        ),
        layouts[sequence].jump_table.next_section == Value::Global(sequence as usize),
        layouts[sequence].sections.len() == program[sequence].len(),
        program[sequence].len() + 2 <= usize::MAX,
        program[sequence].len() <= i64::MAX,
        sequence <= usize::MAX,
{
    let layout = layouts[sequence];
    lemma_offsets_increase(program, sequence, program.len() as int);
    let count = program[sequence].len() as int;
    assert(blocks[block_number(program, FIRST_SEQUENCE_BLOCK as int, sequence, count)]
        == jump_table_operations(layout, Block(4)));
    let number = layout.jump_table.block.0 as int;
    assert(blocks[number].len() <= usize::MAX);
    if count > 0 {
        assert(valid_section(program, sequence, count - 1));
    }
}

/// The operations of the first instructions of a section are the first of
/// the operations of the section.
pub proof fn lemma_lowered_take(
    instructions: Seq<Instruction>,
    base: nat,
    place: Place,
    count: int,
)
    requires
        0 <= count <= instructions.len(),
    ensures
        lowered_instructions(instructions.take(count), base, place).len() <= lowered_instructions(
            instructions,
            base,
            place,
        ).len(),
        forall|index: int|
            0 <= index < lowered_instructions(instructions.take(count), base, place).len()
                ==> lowered_instructions(instructions, base, place)[index]
                == #[trigger] lowered_instructions(instructions.take(count), base, place)[index],
    decreases instructions.len(),
{
    if count == instructions.len() {
        assert(instructions.take(count) =~= instructions);
    } else {
        let shorter = instructions.drop_last();
        assert(instructions.take(count) =~= shorter.take(count));
        lemma_lowered_take(shorter, base, place, count);
    }
}

/// The operations of one more instruction follow those of the instructions
/// before it.
pub proof fn lemma_lowered_next(
    instructions: Seq<Instruction>,
    base: nat,
    place: Place,
    count: int,
)
    requires
        0 <= count < instructions.len(),
    ensures
        lowered_instructions(instructions.take(count + 1), base, place) == lowered_instructions(
            instructions.take(count),
            base,
            place,
        ) + lowered_instruction(
            instructions[count],
            base + lowered_instructions(instructions.take(count), base, place).len(),
            place,
        ),
{
    assert(instructions.take(count + 1).drop_last() =~= instructions.take(count));
}

/// A jump table goes on with the section that the cursor names, or with the
/// default when the cursor names none.
pub proof fn lemma_table_target(
    operations: Seq<Operation>,
    registers: Seq<i64>,
    sections: Seq<Block>,
    default: Block,
    cursor: i64,
    from: int,
)
    requires
        0 <= from <= sections.len() <= i64::MAX,
        operations.len() == sections.len() + 2,
        forall|section: int|
            0 <= section < sections.len() ==> #[trigger] operations[2 + section]
                == Operation::Case(Value::Int64(section as i64), sections[section]),
    ensures
        switch_target(
            operations,
            registers,
            2 + from,
            (sections.len() - from) as nat,
            cursor,
            default,
        ) == if from <= cursor < sections.len() {
            sections[cursor as int]
        } else {
            default
        },
    decreases sections.len() - from,
{
    if from < sections.len() {
        assert(operations[2 + from] == Operation::Case(Value::Int64(from as i64), sections[from]));
        lemma_table_target(operations, registers, sections, default, cursor, from + 1);
    }
}

/// Whether the global cells of the machine hold the cursors of the
/// interpreter.
pub open spec fn cursors_agree(cursors: Seq<i64>, wanted: Seq<int>, count: nat) -> bool {
    &&& cursors.len() == count
    &&& wanted.len() == count
    &&& forall|sequence: int| 0 <= sequence < count ==> #[trigger] cursors[sequence] as int == wanted[sequence]
}

/// The number of operations of the block of a section that have run when
/// the interpreter stands at `position`: the store that advances the cursor,
/// and the operations of the instructions that have run.
pub open spec fn reached(program: Program, layouts: Seq<Layout>, position: Position) -> nat {
    let instructions = program[position.sequence][position.section];
    let place = place_at(layouts, position.sequence, position.section);
    let advance = advance_section(instructions, place);
    advance.len() + lowered_instructions(
        instructions.take(position.done),
        advance.len(),
        place,
    ).len()
}

/// Whether the machine stands where the interpreter stands: both have ended
/// with the same status, or both run, with the same stack, deque, input and
/// cursors, the machine in the block of the section of the interpreter,
/// after the operations of the instructions that the interpreter has run.
pub open spec fn aligned(
    program: Program,
    layouts: Seq<Layout>,
    position: Position,
    world: World,
) -> bool {
    &&& world.state.status == position.status
    &&& position.status is None ==> {
        let instructions = program[position.sequence][position.section];
        &&& 0 <= position.sequence < program.len()
        &&& 0 <= position.section < program[position.sequence].len()
        &&& 0 <= position.done <= instructions.len()
        &&& position.done == instructions.len() ==> !(instructions.len() > 0 && leaves_block(
            instructions.last(),
        ))
        &&& operands_of(world) == position.operands
        &&& cursors_agree(world.state.cursors, position.cursors, program.len())
        &&& world.state.block == layouts[position.sequence].sections[position.section].0
        &&& world.state.registers.len() == reached(program, layouts, position)
    }
}

/// The number of steps that the machine takes from the start of the block
/// of a section to the place where the interpreter enters the section; or
/// the one step of the panic block, when there is no such section.
pub open spec fn entry_cost(
    program: Program,
    layouts: Seq<Layout>,
    sequence: int,
    section: int,
) -> nat {
    if 0 <= sequence < program.len() && 0 <= section < program[sequence].len() {
        advance_section(program[sequence][section], place_at(layouts, sequence, section)).len()
    } else {
        1
    }
}

/// From the start of the block of a section, the machine comes to stand
/// where the interpreter enters the section.
pub proof fn lemma_arrive(
    blocks: Seq<Seq<Operation>>,
    program: Program,
    layouts: Seq<Layout>,
    position: Position,
    world: World,
    sequence: int,
    section: int,
)
    requires
        compiled(blocks, program, layouts),
        0 <= sequence < program.len(),
        0 <= section < program[sequence].len(),
        position.status is None,
        world.state.status is None,
        world.state.block == layouts[sequence].sections[section].0,
        world.state.registers.len() == 0,
        operands_of(world) == position.operands,
        cursors_agree(world.state.cursors, position.cursors, program.len()),
    ensures
        aligned(
            program,
            layouts,
            entered(program, position, sequence, section).0,
            run_for(blocks, world, entry_cost(program, layouts, sequence, section)),
        ),
        run_for(blocks, world, entry_cost(program, layouts, sequence, section)).output
            == world.output,
{
    let instructions = program[sequence][section];
    let place = place_at(layouts, sequence, section);
    let advance = advance_section(instructions, place);
    let target = entered(program, position, sequence, section).0;
    lemma_section_block(blocks, program, layouts, sequence, section);
    lemma_table_block(blocks, program, layouts, sequence);
    assert(valid_section(program, sequence, section));
    assert(instructions.take(0) =~= Seq::<Instruction>::empty());
    let block = blocks[world.state.block];
    if advance.len() > 0 {
        assert(block[0] == advance[0]);
        lemma_store_runs(
            blocks,
            world,
            Value::Int64((section + 1) as i64),
            Value::Global(sequence as usize),
        );
        let after = run_for(blocks, world, 1);
        assert(cursors_agree(after.state.cursors, target.cursors, program.len()));
    } else {
        assert(run_for(blocks, world, 0) == world);
    }
}

/// From the start of a jump table, the machine comes to stand where the
/// interpreter goes on in the sequence, or ends with a panic as the
/// interpreter does when the cursor names no section.
pub proof fn lemma_dispatch(
    blocks: Seq<Seq<Operation>>,
    program: Program,
    layouts: Seq<Layout>,
    position: Position,
    world: World,
    sequence: int,
)
    requires
        compiled(blocks, program, layouts),
        0 <= sequence < program.len(),
        position.status is None,
        world.state.status is None,
        world.state.block == layouts[sequence].jump_table.block.0,
        world.state.registers.len() == 0,
        operands_of(world) == position.operands,
        cursors_agree(world.state.cursors, position.cursors, program.len()),
    ensures
        aligned(
            program,
            layouts,
            resumed(program, position, sequence).0,
            run_for(
                blocks,
                world,
                2 + entry_cost(program, layouts, sequence, position.cursors[sequence]),
            ),
        ),
        run_for(
            blocks,
            world,
            2 + entry_cost(program, layouts, sequence, position.cursors[sequence]),
        ).output == world.output,
{
    let layout = layouts[sequence];
    let cursor = world.state.cursors[sequence];
    let section = position.cursors[sequence];
    let cost = entry_cost(program, layouts, sequence, section);
    lemma_table_block(blocks, program, layouts, sequence);
    let table = blocks[world.state.block];
    let cases = jump_table_cases(layout.sections);
    let switch = switch_operations(Value::Result(0), cases, Block(4));
    assert(table == seq![Operation::Load(Value::Global(sequence as usize))] + switch);
    assert(table[0] == Operation::Load(Value::Global(sequence as usize)));
    lemma_load_runs(blocks, world, Value::Global(sequence as usize));
    let loaded = run_for(blocks, world, 1);
    lemma_run_for_adds(blocks, world, 1, 1 + cost);
    assert(table[1] == switch[0]);
    lemma_switch_runs(blocks, loaded, Value::Result(0), Block(4), cases.len() as usize);
    assert forall|index: int| 0 <= index < layout.sections.len() implies #[trigger] table[2 + index]
        == Operation::Case(Value::Int64(index as i64), layout.sections[index]) by {
        assert(table[2 + index] == switch[1 + index]);
    }
    lemma_table_target(table, loaded.state.registers, layout.sections, Block(4), cursor, 0);
    let switched = run_for(blocks, loaded, 1);
    lemma_run_for_adds(blocks, loaded, 1, cost);
    if 0 <= section < program[sequence].len() {
        lemma_arrive(blocks, program, layouts, position, switched, sequence, section);
    } else {
        assert(blocks[4] == return_operations(1));
        assert(blocks[4][0] == return_operations(1)[0]);
        lemma_return_runs(blocks, switched, 1);
    }
}

/// The operations of the instruction that the interpreter runs next stand
/// where the machine stands, and after them the machine stands where the
/// interpreter stands after the instruction.
pub proof fn lemma_stands_here(
    blocks: Seq<Seq<Operation>>,
    program: Program,
    layouts: Seq<Layout>,
    position: Position,
    world: World,
)
    requires
        compiled(blocks, program, layouts),
        aligned(program, layouts, position, world),
        position.status is None,
        position.done < program[position.sequence][position.section].len(),
    ensures
        stands_at(
            blocks,
            world.state,
            lowered_instruction(
                program[position.sequence][position.section][position.done],
                world.state.registers.len(),
                place_at(layouts, position.sequence, position.section),
            ),
        ),
        reached(program, layouts, Position { done: position.done + 1, ..position }) == reached(
            program,
            layouts,
            position,
        ) + lowered_instruction(
            program[position.sequence][position.section][position.done],
            world.state.registers.len(),
            place_at(layouts, position.sequence, position.section),
        ).len(),
{
    let instructions = program[position.sequence][position.section];
    let place = place_at(layouts, position.sequence, position.section);
    let advance = advance_section(instructions, place);
    let base = advance.len();
    let before = lowered_instructions(instructions.take(position.done), base, place);
    let with_next = lowered_instructions(instructions.take(position.done + 1), base, place);
    let all = lowered_instructions(instructions, base, place);
    let next = lowered_instruction(instructions[position.done], base + before.len(), place);
    lemma_section_block(blocks, program, layouts, position.sequence, position.section);
    lemma_lowered_next(instructions, base, place, position.done);
    lemma_lowered_take(instructions, base, place, position.done + 1);
    let block = blocks[world.state.block];
    assert(block == advance + all + fall_through(instructions, place));
    assert forall|index: int| 0 <= index < next.len() implies block[world.state.registers.len()
        + index] == #[trigger] next[index] by {
        assert(all[before.len() + index] == with_next[before.len() + index]);
    }
}

/// The step of the interpreter at the end of a section that falls through:
/// the machine branches to the jump table of the sequence and is
/// dispatched.
pub proof fn lemma_fall_through_step(
    blocks: Seq<Seq<Operation>>,
    program: Program,
    layouts: Seq<Layout>,
    position: Position,
    world: World,
)
    requires
        compiled(blocks, program, layouts),
        aligned(program, layouts, position, world),
        position.status is None,
        position.done == program[position.sequence][position.section].len(),
    ensures
        aligned(
            program,
            layouts,
            resumed(program, position, position.sequence).0,
            run_for(
                blocks,
                world,
                3 + entry_cost(
                    program,
                    layouts,
                    position.sequence,
                    position.cursors[position.sequence],
                ),
            ),
        ),
        run_for(
            blocks,
            world,
            3 + entry_cost(
                program,
                layouts,
                position.sequence,
                position.cursors[position.sequence],
            ),
        ).output == world.output,
{
    let instructions = program[position.sequence][position.section];
    let place = place_at(layouts, position.sequence, position.section);
    let advance = advance_section(instructions, place);
    let all = lowered_instructions(instructions, advance.len(), place);
    let table = layouts[position.sequence].jump_table.block;
    let cost = entry_cost(program, layouts, position.sequence, position.cursors[position.sequence]);
    lemma_section_block(blocks, program, layouts, position.sequence, position.section);
    lemma_table_block(blocks, program, layouts, position.sequence);
    assert(instructions.take(position.done) =~= instructions);
    let block = blocks[world.state.block];
    assert(block == advance + all + fall_through(instructions, place));
    assert(block[world.state.registers.len() as int] == fall_through(instructions, place)[0]);
    lemma_branch_runs(blocks, world, table);
    let moved = run_for(blocks, world, 1);
    lemma_run_for_adds(blocks, world, 1, 2 + cost);
    lemma_dispatch(blocks, program, layouts, position, moved, position.sequence);
}

/// The step of the interpreter at an exit: the machine branches to the
/// block that returns 0.
pub proof fn lemma_exit_step(
    blocks: Seq<Seq<Operation>>,
    program: Program,
    layouts: Seq<Layout>,
    position: Position,
    world: World,
)
    requires
        compiled(blocks, program, layouts),
        aligned(program, layouts, position, world),
        position.status is None,
        position.done < program[position.sequence][position.section].len(),
        program[position.sequence][position.section][position.done] is Exit,
    ensures
        run_for(blocks, world, 2).state.status == Some(0i32),
        run_for(blocks, world, 2).output == world.output,
{
    lemma_stands_here(blocks, program, layouts, position, world);
    let lowered = lowered_instruction(
        Instruction::Exit,
        world.state.registers.len(),
        place_at(layouts, position.sequence, position.section),
    );
    lemma_at_part(blocks, world.state, world.state, lowered, 0);
    lemma_branch_runs(blocks, world, Block(3));
    let moved = run_for(blocks, world, 1);
    lemma_run_for_adds(blocks, world, 1, 1);
    assert(blocks[3] == return_operations(0));
    assert(blocks[3][0] == return_operations(0)[0]);
    lemma_return_runs(blocks, moved, 0);
}

/// The switch of a skip goes on with the first block when the comparison
/// with 1 holds, else with the second.
pub proof fn lemma_skip_target(
    operations: Seq<Operation>,
    registers: Seq<i64>,
    first: int,
    value: i64,
    if_one: Block,
    otherwise: Block,
    default: Block,
)
    requires
        0 <= first,
        first + 1 < operations.len(),
        operations[first] == Operation::Case(Value::Int1(true), if_one),
        operations[first + 1] == Operation::Case(Value::Int1(false), otherwise),
        value == 0 || value == 1,
    ensures
        switch_target(operations, registers, first, 2, value, default) == if value == 1 {
            if_one
        } else {
            otherwise
        },
{
    reveal_with_fuel(switch_target, 3);
}

/// The operations of a skip: the program ends with an underflow, or the
/// machine pops and goes on with the block after the skip when the value is
/// 1, else with the block after that.
pub proof fn lemma_skip_runs(blocks: Seq<Seq<Operation>>, world: World, place: Place)
    requires
        stands_at(
            blocks,
            world.state,
            lowered_instruction(Instruction::SkipIfNotOne, world.state.registers.len(), place),
        ),
    ensures
        world.state.stack.len() == 0 ==> run_for(blocks, world, 1) == stopped_world(
            world,
            Failure::StackUnderflow,
        ),
        world.state.stack.len() > 0 ==> run_for(blocks, world, 3) == moved_to(
            with_stack(world, world.state.stack.drop_last()),
            if world.state.stack.last() == 1 {
                place.layouts[place.sequence].sections[place.section + 1]
            } else {
                place.layouts[place.sequence].sections[place.section + 2]
            },
        ),
{
    let base = world.state.registers.len();
    let lowered = lowered_instruction(Instruction::SkipIfNotOne, base, place);
    let sections = place.layouts[place.sequence].sections;
    lemma_at_part(blocks, world.state, world.state, lowered, 0);
    lemma_pop_runs(blocks, world);
    let popped = run_for(blocks, world, 1);
    if world.state.stack.len() > 0 {
        let top = world.state.stack.last();
        lemma_run_for_adds(blocks, world, 1, 2);
        lemma_at_part(blocks, world.state, popped.state, lowered, 1);
        lemma_compare_runs(
            blocks,
            popped,
            Value::Result(base as usize),
            Compare::Equal,
            Value::Int64(1),
        );
        let tested = run_for(blocks, popped, 1);
        lemma_run_for_adds(blocks, popped, 1, 1);
        lemma_at_part(blocks, world.state, tested.state, lowered, 2);
        lemma_switch_runs(blocks, tested, Value::Result((base + 1) as usize), place.on_failure, 2);
        let block = blocks[world.state.block];
        assert(block[base as int + 3] == lowered[3]);
        assert(block[base as int + 4] == lowered[4]);
        lemma_skip_target(
            block,
            tested.state.registers,
            base as int + 3,
            comparison_result(top, Compare::Equal, 1),
            sections[place.section + 1],
            sections[place.section + 2],
            place.on_failure,
        );
    }
}

/// The step of the interpreter at a skip: the machine pops, compares with 1
/// and switches to the block of the section that the interpreter enters.
pub proof fn lemma_skip_step(
    blocks: Seq<Seq<Operation>>,
    program: Program,
    layouts: Seq<Layout>,
    position: Position,
    world: World,
)
    requires
        compiled(blocks, program, layouts),
        aligned(program, layouts, position, world),
        position.status is None,
        position.done < program[position.sequence][position.section].len(),
        program[position.sequence][position.section][position.done] is SkipIfNotOne,
    ensures
        aligned(
            program,
            layouts,
            interpreter_step(program, position).0,
            run_for(blocks, world, cost(program, layouts, position)),
        ),
        run_for(blocks, world, cost(program, layouts, position)).output == world.output,
{
    let sequence = position.sequence;
    let section = position.section;
    let place = place_at(layouts, sequence, section);
    let gone = Position { done: position.done + 1, ..position };
    lemma_stands_here(blocks, program, layouts, position, world);
    lemma_section_block(blocks, program, layouts, sequence, section);
    assert(valid_section(program, sequence, section));
    lemma_skip_runs(blocks, world, place);
    if world.state.stack.len() > 0 {
        let target = if world.state.stack.last() == 1 {
            section + 1
        } else {
            section + 2
        };
        let entry = entry_cost(program, layouts, sequence, target);
        let switched = run_for(blocks, world, 3);
        lemma_run_for_adds(blocks, world, 3, entry);
        lemma_arrive(
            blocks,
            program,
            layouts,
            Position { operands: operands_of(switched), ..gone },
            switched,
            sequence,
            target,
        );
    }
}

/// The number of steps that the machine takes for the next step of the
/// interpreter.
pub open spec fn cost(program: Program, layouts: Seq<Layout>, position: Position) -> nat {
    if position.status is Some {
        0
    } else {
        let instructions = program[position.sequence][position.section];
        let place = place_at(layouts, position.sequence, position.section);
        if position.done >= instructions.len() {
            3 + entry_cost(
                program,
                layouts,
                position.sequence,
                position.cursors[position.sequence],
            )
        } else {
            match instructions[position.done] {
                Instruction::Exit => 2,
                Instruction::SkipIfNotOne => if position.operands.stack.len() == 0 {
                    1
                } else {
                    3 + entry_cost(
                        program,
                        layouts,
                        position.sequence,
                        if position.operands.stack.last() == 1 {
                            position.section + 1
                        } else {
                            position.section + 2
                        },
                    )
                },
                Instruction::Jump(direction, start) => {
                    let target = jump_target(position.sequence, direction);
                    if start is Restart {
                        4 + entry_cost(program, layouts, target, 0)
                    } else {
                        3 + entry_cost(program, layouts, target, position.cursors[target])
                    }
                },
                instruction => lowered_instruction(
                    instruction,
                    reached(program, layouts, position),
                    place,
                ).len(),
            }
        }
    }
}

/// The operations of a jump: the store that rewinds the cursor of the
/// target, if the target restarts, and the branch to its jump table.
pub proof fn lemma_jump_runs(
    blocks: Seq<Seq<Operation>>,
    world: World,
    place: Place,
    instruction: Instruction,
    cell: int,
)
    requires
        instruction is Jump,
        stands_at(
            blocks,
            world.state,
            lowered_instruction(instruction, world.state.registers.len(), place),
        ),
        0 <= cell < world.state.cursors.len(),
        place.layouts[jump_target(
            place.sequence,
            instruction->Jump_0,
        )].jump_table.next_section == Value::Global(cell as usize),
        cell <= usize::MAX,
    ensures
        ({
            let table = place.layouts[jump_target(place.sequence, instruction->Jump_0)].jump_table;
            if instruction->Jump_1 is Restart {
                run_for(blocks, world, 2) == moved_to(
                    World {
                        state: State {
                            cursors: world.state.cursors.update(cell, 0),
                            ..world.state
                        },
                        ..world
                    },
                    table.block,
                )
            } else {
                run_for(blocks, world, 1) == moved_to(world, table.block)
            }
        }),
{
    let base = world.state.registers.len();
    let lowered = lowered_instruction(instruction, base, place);
    let table = place.layouts[jump_target(place.sequence, instruction->Jump_0)].jump_table;
    lemma_at_part(blocks, world.state, world.state, lowered, 0);
    if instruction->Jump_1 is Restart {
        lemma_store_runs(blocks, world, Value::Int64(0), Value::Global(cell as usize));
        let stored = run_for(blocks, world, 1);
        lemma_run_for_adds(blocks, world, 1, 1);
        lemma_at_part(blocks, world.state, stored.state, lowered, 1);
        lemma_branch_runs(blocks, stored, table.block);
    } else {
        lemma_branch_runs(blocks, world, table.block);
    }
}

/// The step of the interpreter at a jump: the machine rewinds the cursor of
/// the target if it restarts, branches to its jump table and is dispatched.
pub proof fn lemma_jump_step(
    blocks: Seq<Seq<Operation>>,
    program: Program,
    layouts: Seq<Layout>,
    position: Position,
    world: World,
)
    requires
        compiled(blocks, program, layouts),
        aligned(program, layouts, position, world),
        position.status is None,
        position.done < program[position.sequence][position.section].len(),
        program[position.sequence][position.section][position.done] is Jump,
    ensures
        aligned(
            program,
            layouts,
            interpreter_step(program, position).0,
            run_for(blocks, world, cost(program, layouts, position)),
        ),
        run_for(blocks, world, cost(program, layouts, position)).output == world.output,
{
    let sequence = position.sequence;
    let section = position.section;
    let place = place_at(layouts, sequence, section);
    let instruction = program[sequence][section][position.done];
    let target = jump_target(sequence, instruction->Jump_0);
    let gone = Position { done: position.done + 1, ..position };
    lemma_stands_here(blocks, program, layouts, position, world);
    lemma_section_block(blocks, program, layouts, sequence, section);
    assert(valid_section(program, sequence, section));
    lemma_table_block(blocks, program, layouts, target);
    lemma_jump_runs(blocks, world, place, instruction, target);
    if instruction->Jump_1 is Restart {
        let cursors = position.cursors.update(target, 0);
        let entry = entry_cost(program, layouts, target, 0);
        let moved = run_for(blocks, world, 2);
        lemma_run_for_adds(blocks, world, 2, 2 + entry);
        assert(cursors_agree(moved.state.cursors, cursors, program.len()));
        lemma_dispatch(blocks, program, layouts, Position { cursors, ..gone }, moved, target);
    } else {
        let entry = entry_cost(program, layouts, target, position.cursors[target]);
        let moved = run_for(blocks, world, 1);
        lemma_run_for_adds(blocks, world, 1, 2 + entry);
        lemma_dispatch(blocks, program, layouts, gone, moved, target);
    }
}

/// The step of the interpreter at an instruction that stays in its section:
/// the machine runs the operations of the instruction.
pub proof fn lemma_plain_step(
    blocks: Seq<Seq<Operation>>,
    program: Program,
    layouts: Seq<Layout>,
    position: Position,
    world: World,
)
    requires
        compiled(blocks, program, layouts),
        aligned(program, layouts, position, world),
        position.status is None,
        position.done < program[position.sequence][position.section].len(),
        !leaves_block(program[position.sequence][position.section][position.done]),
        has_room(position.operands.stack.len()),
        has_room(position.operands.deque.len()),
    ensures
        aligned(
            program,
            layouts,
            interpreter_step(program, position).0,
            run_for(blocks, world, cost(program, layouts, position)),
        ),
        run_for(blocks, world, cost(program, layouts, position)).output == world.output
            + emitted(interpreter_step(program, position).1),
{
    let sequence = position.sequence;
    let section = position.section;
    let place = place_at(layouts, sequence, section);
    let instruction = program[sequence][section][position.done];
    lemma_stands_here(blocks, program, layouts, position, world);
    lemma_instruction_runs(blocks, world, instruction, place);
    assert(world.output + Seq::<u8>::empty() =~= world.output);
}

/// One step of the interpreter is a number of steps of the machine: after
/// them the machine stands where the interpreter stands, and has written
/// what the interpreter has written.
pub proof fn lemma_step(
    blocks: Seq<Seq<Operation>>,
    program: Program,
    layouts: Seq<Layout>,
    position: Position,
    world: World,
)
    requires
        compiled(blocks, program, layouts),
        aligned(program, layouts, position, world),
        position.status is None ==> has_room(position.operands.stack.len()) && has_room(
            position.operands.deque.len(),
        ),
    ensures
        aligned(
            program,
            layouts,
            interpreter_step(program, position).0,
            run_for(blocks, world, cost(program, layouts, position)),
        ),
        run_for(blocks, world, cost(program, layouts, position)).output == world.output
            + emitted(interpreter_step(program, position).1),
{
    assert(world.output + Seq::<u8>::empty() =~= world.output);
    if position.status is Some {
        assert(run_for(blocks, world, 0) == world);
    } else {
        let instructions = program[position.sequence][position.section];
        if position.done >= instructions.len() {
            lemma_fall_through_step(blocks, program, layouts, position, world);
        } else {
            let instruction = instructions[position.done];
            if instruction is Exit {
                lemma_exit_step(blocks, program, layouts, position, world);
            } else if instruction is SkipIfNotOne {
                lemma_skip_step(blocks, program, layouts, position, world);
            } else if instruction is Jump {
                lemma_jump_step(blocks, program, layouts, position, world);
            } else {
                lemma_plain_step(blocks, program, layouts, position, world);
            }
        }
    }
}

/// The global cells of a compiled program at its start: every cursor is 0.
pub open spec fn initial_globals(program: Program) -> Seq<i64> {
    Seq::new(program.len(), |sequence: int| 0i64)
}

/// The number of steps that the machine takes before it stands where the
/// interpreter starts: the blocks that set up the containers, the entry,
/// and the store of the first section.
pub open spec fn start_cost(program: Program, layouts: Seq<Layout>) -> nat {
    6 + entry_cost(program, layouts, ENTRY_SEQUENCE as int, 0)
}

/// From its first block, the machine comes to stand where the interpreter
/// starts, and has written nothing.
pub proof fn lemma_start(
    blocks: Seq<Seq<Operation>>,
    program: Program,
    layouts: Seq<Layout>,
    input: Seq<u8>,
)
    requires
        compiled(blocks, program, layouts),
    ensures
        aligned(
            program,
            layouts,
            initial_interpretation(program, input).position,
            run_for(
                blocks,
                initial_world(initial_globals(program), input),
                start_cost(program, layouts),
            ),
        ),
        run_for(
            blocks,
            initial_world(initial_globals(program), input),
            start_cost(program, layouts),
        ).output == Seq::<u8>::empty(),
{
    let world = initial_world(initial_globals(program), input);
    let entry = entry_cost(program, layouts, 1, 0);
    let layout = layouts[1];
    lemma_table_block(blocks, program, layouts, 1);
    lemma_section_block(blocks, program, layouts, 1, 0);
    let stack_block = init_stack_operations(Block(1));
    assert(blocks[0] == stack_block);
    assert(blocks[0][0] == stack_block[0]);
    lemma_resize_runs(blocks, world, Function::StackResize, Value::Int64(INITIAL_SIZE as i64));
    let first = run_for(blocks, world, 1);
    lemma_run_for_adds(blocks, world, 1, 5 + entry);
    assert(blocks[0][1] == stack_block[1]);
    lemma_branch_runs(blocks, first, Block(1));
    let second = run_for(blocks, first, 1);
    lemma_run_for_adds(blocks, first, 1, 4 + entry);
    let deque_block = init_deque_operations(Block(2));
    assert(blocks[1] == deque_block);
    assert(blocks[1][0] == deque_block[0]);
    lemma_resize_runs(
        blocks,
        second,
        Function::DequeResize,
        Value::Int64(INITIAL_CAPACITY as i64),
    );
    let third = run_for(blocks, second, 1);
    lemma_run_for_adds(blocks, second, 1, 3 + entry);
    assert(blocks[1][1] == deque_block[1]);
    lemma_branch_runs(blocks, third, Block(2));
    let fourth = run_for(blocks, third, 1);
    lemma_run_for_adds(blocks, third, 1, 2 + entry);
    let entry_block = entry_operations(layout);
    assert(blocks[2] == entry_block);
    assert(blocks[2][0] == entry_block[0]);
    lemma_store_runs(blocks, fourth, Value::Int64(1), Value::Global(1));
    let fifth = run_for(blocks, fourth, 1);
    lemma_run_for_adds(blocks, fourth, 1, 1 + entry);
    assert(blocks[2][1] == entry_block[1]);
    lemma_branch_runs(blocks, fifth, layout.sections[0]);
    let sixth = run_for(blocks, fifth, 1);
    lemma_run_for_adds(blocks, fifth, 1, entry);
    let before = Position {
        operands: Operands { stack: Seq::empty(), deque: Seq::empty(), input },
        sequence: 1,
        section: 0,
        done: 0,
        cursors: initial_cursors(program.len()),
        status: None,
    };
    assert(cursors_agree(sixth.state.cursors, before.cursors, program.len()));
    lemma_arrive(blocks, program, layouts, before, sixth, 1, 0);
}

/// The number of steps that the machine takes for the first `steps` steps
/// of the interpreter on `input`.
pub open spec fn machine_steps(
    program: Program,
    layouts: Seq<Layout>,
    input: Seq<u8>,
    steps: nat,
) -> nat
    decreases steps,
{
    if steps == 0 {
        start_cost(program, layouts)
    } else {
        machine_steps(program, layouts, input, (steps - 1) as nat) + cost(
            program,
            layouts,
            interpret_for(
                program,
                initial_interpretation(program, input),
                (steps - 1) as nat,
            ).position,
        )
    }
}

/// Whether the stack and the deque have room before each of the first
/// `steps` steps of the interpreter on `input`.
pub open spec fn roomy(program: Program, input: Seq<u8>, steps: nat) -> bool
    decreases steps,
{
    steps > 0 ==> {
        let position = interpret_for(
            program,
            initial_interpretation(program, input),
            (steps - 1) as nat,
        ).position;
        &&& roomy(program, input, (steps - 1) as nat)
        &&& position.status is None ==> has_room(position.operands.stack.len()) && has_room(
            position.operands.deque.len(),
        )
    }
}

/// After any number of steps of the interpreter, the machine stands where
/// the interpreter stands and has written what the interpreter has written.
pub proof fn lemma_follows(
    blocks: Seq<Seq<Operation>>,
    program: Program,
    layouts: Seq<Layout>,
    input: Seq<u8>,
    steps: nat,
)
    requires
        compiled(blocks, program, layouts),
        roomy(program, input, steps),
    ensures
        aligned(
            program,
            layouts,
            interpret_for(program, initial_interpretation(program, input), steps).position,
            run_for(
                blocks,
                initial_world(initial_globals(program), input),
                machine_steps(program, layouts, input, steps),
            ),
        ),
        run_for(
            blocks,
            initial_world(initial_globals(program), input),
            machine_steps(program, layouts, input, steps),
        ).output == interpret_for(program, initial_interpretation(program, input), steps).output,
    decreases steps,
{
    if steps == 0 {
        lemma_start(blocks, program, layouts, input);
    } else {
        let earlier = (steps - 1) as nat;
        let start = initial_world(initial_globals(program), input);
        let run = interpret_for(program, initial_interpretation(program, input), earlier);
        let taken = machine_steps(program, layouts, input, earlier);
        let world = run_for(blocks, start, taken);
        lemma_follows(blocks, program, layouts, input, earlier);
        lemma_step(blocks, program, layouts, run.position, world);
        lemma_run_for_adds(blocks, start, taken, cost(program, layouts, run.position));
    }
}

/// A compiled program does what the interpreter does with its sequences.
///
/// For any input and any number of steps of the interpreter before each of
/// which the stack and the deque have room, a number of steps of the machine
/// leaves the compiled program with the same exit status, if the interpreter
/// has ended, and the same output.
pub proof fn lemma_compiled_program_follows_interpreter(
    blocks: Seq<Seq<Operation>>,
    program: Program,
    layouts: Seq<Layout>,
    input: Seq<u8>,
    steps: nat,
)
    requires
        compiled(blocks, program, layouts),
        roomy(program, input, steps),
    ensures
        ({
            let interpreted = interpret_for(program, initial_interpretation(program, input), steps);
            let ran = run_for(
                blocks,
                initial_world(initial_globals(program), input),
                machine_steps(program, layouts, input, steps),
            );
            &&& ran.state.status == interpreted.position.status
            &&& ran.output == interpreted.output
        }),
{
    lemma_follows(blocks, program, layouts, input, steps);
}

/// From the source to the running program: when a source text parses, the
/// program compiled from its folded sequences does what the interpreter does
/// with the sequences as they were parsed.
///
/// After any number of sections, and as long as the stack and the deque have
/// room, the compiled program has written what the interpreter has written
/// and has ended with the same status, or not yet.
pub proof fn lemma_source_runs_as_interpreted(
    text: Seq<char>,
    blocks: Seq<Seq<Operation>>,
    layouts: Seq<Layout>,
    input: Seq<u8>,
    sections: nat,
)
    requires
        text.len() + 1 < i64::MAX,
        parsed_source(text) is Ok,
        holds_program(blocks, folded_program(parsed_source(text)->Ok_0), layouts),
        forall|block: int| 0 <= block < blocks.len() ==> (#[trigger] blocks[block]).len() <= usize::MAX,
        roomy(
            folded_program(parsed_source(text)->Ok_0),
            input,
            ticks(folded_program(parsed_source(text)->Ok_0), input, sections),
        ),
    ensures
        ({
            let program = parsed_source(text)->Ok_0;
            let folded = folded_program(program);
            let interpreted = interpret_for(
                program,
                initial_interpretation(program, input),
                ticks(program, input, sections),
            );
            let ran = run_for(
                blocks,
                initial_world(initial_globals(folded), input),
                machine_steps(folded, layouts, input, ticks(folded, input, sections)),
            );
            &&& ran.state.status == interpreted.position.status
            &&& ran.output == interpreted.output
        }),
{
    let program = parsed_source(text)->Ok_0;
    let folded = folded_program(program);
    lemma_parsed_source_is_valid(text);
    lemma_folded_program_is_valid(program);
    lemma_folding_keeps_runs(program, input, sections);
    lemma_compiled_program_follows_interpreter(
        blocks,
        folded,
        layouts,
        input,
        ticks(folded, input, sections),
    );
}

} // verus!
