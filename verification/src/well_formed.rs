//! Compiled programs are well formed: every block that the compiler fills
//! ends in a branch, a switch or a return, and every operand is defined
//! before it is used.

use vstd::prelude::*;
use crate::builder::{
    straight_operation, switch_operations, valid_address, valid_block, valid_operation, Block,
    Compare, Function, Operation, Type, Value,
};
use crate::instruction_builder::{
    advance_section, fall_through, jump_target, leaves_block, lowerable, lowered_comparison,
    lowered_instruction, lowered_instructions, lowered_section, lowered_source, Layout, Place,
};
use crate::builder::valid_blocks;
use crate::compiler::{holds_program, valid_program, ENTRY_SEQUENCE, FIRST_SEQUENCE_BLOCK};
use crate::deque::INITIAL_CAPACITY;
use crate::sequence_builder::{
    block_number, follows_plan, jump_table_cases, jump_table_operations, lemma_offsets_increase,
    place_of, sequence_offset, valid_section, Program,
};
use crate::stack::INITIAL_SIZE;
use crate::syntax::{Instruction, ValueSource};

verus! {

/// Whether every operation stays in the block and is well formed.
pub open spec fn straight(globals: nat, operations: Seq<Operation>) -> bool {
    forall|index: int|
        0 <= index < operations.len() ==> #[trigger] straight_operation(
            globals,
            operations,
            index,
        )
}

/// Whether an operation that follows `operations` may use `value`.
pub open spec fn defined_in(operations: Seq<Operation>, value: Value) -> bool {
    match value {
        Value::Result(index) => index < operations.len() && operations[index as int].spec_has_result(),
        Value::Global(_) => false,
        _ => true,
    }
}

/// A well-formed run of operations stays so when a well-formed operation is
/// appended.
pub proof fn lemma_straight_push(globals: nat, prefix: Seq<Operation>, operation: Operation)
    requires
        straight(globals, prefix),
        straight_operation(globals, prefix.push(operation), prefix.len() as int),
    ensures
        straight(globals, prefix.push(operation)),
{
    let extended = prefix.push(operation);
    assert forall|index: int| 0 <= index < extended.len() implies #[trigger] straight_operation(
        globals,
        extended,
        index,
    ) by {
        if index < prefix.len() {
            assert(straight_operation(globals, prefix, index));
            assert(extended[index] == prefix[index]);
        }
    }
}

/// A value that is defined stays defined when operations are appended.
pub proof fn lemma_defined_stays(operations: Seq<Operation>, more: Seq<Operation>, value: Value)
    requires
        defined_in(operations, value),
    ensures
        defined_in(operations + more, value),
{
}

/// The operations that compare the top of the stack with the front of the
/// deque are well formed, and so is their value.
pub proof fn lemma_comparison_straight(globals: nat, prefix: Seq<Operation>, comparison: Compare)
    requires
        straight(globals, prefix),
        prefix.len() + 5 <= usize::MAX,
    ensures
        straight(globals, prefix + lowered_comparison(comparison, prefix.len()).0),
        defined_in(
            prefix + lowered_comparison(comparison, prefix.len()).0,
            lowered_comparison(comparison, prefix.len()).1,
        ),
{
    let base = prefix.len();
    let lowered = lowered_comparison(comparison, base).0;
    let first = prefix.push(lowered[0]);
    lemma_straight_push(globals, prefix, lowered[0]);
    let second = first.push(lowered[1]);
    lemma_straight_push(globals, first, lowered[1]);
    let third = second.push(lowered[2]);
    lemma_straight_push(globals, second, lowered[2]);
    let fourth = third.push(lowered[3]);
    lemma_straight_push(globals, third, lowered[3]);
    let fifth = fourth.push(lowered[4]);
    lemma_straight_push(globals, fourth, lowered[4]);
    assert(fifth =~= prefix + lowered);
}

/// The operations that produce the value of a source are well formed, and so
/// is the value.
pub proof fn lemma_source_straight(globals: nat, prefix: Seq<Operation>, source: ValueSource)
    requires
        straight(globals, prefix),
        prefix.len() + lowered_source(source, prefix.len()).0.len() <= usize::MAX,
    ensures
        straight(globals, prefix + lowered_source(source, prefix.len()).0),
        defined_in(
            prefix + lowered_source(source, prefix.len()).0,
            lowered_source(source, prefix.len()).1,
        ),
    decreases source,
{
    let base = prefix.len();
    let lowered = lowered_source(source, base).0;
    match source {
        ValueSource::Constant(_) => {
            assert(prefix + lowered =~= prefix);
        },
        ValueSource::Pop => {
            lemma_straight_push(globals, prefix, lowered[0]);
            assert(prefix + lowered =~= prefix.push(lowered[0]));
        },
        ValueSource::Remove(_) => {
            lemma_straight_push(globals, prefix, lowered[0]);
            assert(prefix + lowered =~= prefix.push(lowered[0]));
        },
        ValueSource::Operate(lhs, operator, rhs) => {
            let left = lowered_source(*lhs, base);
            let right = lowered_source(*rhs, base + left.0.len());
            lemma_source_straight(globals, prefix, *lhs);
            let middle = prefix + left.0;
            lemma_source_straight(globals, middle, *rhs);
            let both = middle + right.0;
            lemma_defined_stays(middle, right.0, left.1);
            let operation = Operation::Arithmetic(left.1, operator, right.1);
            lemma_straight_push(globals, both, operation);
            assert(both.push(operation) =~= prefix + lowered);
        },
        ValueSource::CloneTop => {
            lemma_straight_push(globals, prefix, lowered[0]);
            lemma_straight_push(globals, prefix.push(lowered[0]), lowered[1]);
            assert(prefix + lowered =~= prefix.push(lowered[0]).push(lowered[1]));
        },
        ValueSource::Input => {
            lemma_straight_push(globals, prefix, lowered[0]);
            lemma_straight_push(globals, prefix.push(lowered[0]), lowered[1]);
            assert(prefix + lowered =~= prefix.push(lowered[0]).push(lowered[1]));
        },
        ValueSource::Equal => {
            lemma_comparison_straight(globals, prefix, Compare::Equal);
        },
        ValueSource::Greater => {
            lemma_comparison_straight(globals, prefix, Compare::Greater);
        },
    }
}

/// The operations of an instruction that stays in its block are well formed.
pub proof fn lemma_instruction_straight(
    globals: nat,
    prefix: Seq<Operation>,
    instruction: Instruction,
    place: Place,
)
    requires
        straight(globals, prefix),
        !leaves_block(instruction),
        prefix.len() + lowered_instruction(instruction, prefix.len(), place).len() <= usize::MAX,
    ensures
        straight(globals, prefix + lowered_instruction(instruction, prefix.len(), place)),
{
    let base = prefix.len();
    let lowered = lowered_instruction(instruction, base, place);
    match instruction {
        Instruction::Push(source) => {
            lemma_source_straight(globals, prefix, source);
            let value = lowered_source(source, base);
            lemma_straight_push(
                globals,
                prefix + value.0,
                Operation::Call(Function::Push, Some(value.1)),
            );
            assert(prefix + lowered =~= (prefix + value.0).push(lowered.last()));
        },
        Instruction::Insert(source, end) => {
            lemma_source_straight(globals, prefix, source);
            let value = lowered_source(source, base);
            lemma_straight_push(globals, prefix + value.0, lowered.last());
            assert(prefix + lowered =~= (prefix + value.0).push(lowered.last()));
        },
        Instruction::Destroy => {
            lemma_straight_push(globals, prefix, lowered[0]);
            assert(prefix + lowered =~= prefix.push(lowered[0]));
        },
        Instruction::OutputCharacter(source) => {
            lemma_source_straight(globals, prefix, source);
            let value = lowered_source(source, base);
            let cast = Operation::CastInt(value.1, Type::I32);
            lemma_straight_push(globals, prefix + value.0, cast);
            lemma_straight_push(globals, (prefix + value.0).push(cast), lowered.last());
            assert(prefix + lowered =~= (prefix + value.0).push(cast).push(lowered.last()));
        },
        Instruction::OutputNumber(source) => {
            lemma_source_straight(globals, prefix, source);
            let value = lowered_source(source, base);
            lemma_straight_push(globals, prefix + value.0, lowered.last());
            assert(prefix + lowered =~= (prefix + value.0).push(lowered.last()));
        },
        Instruction::BitwiseNot => {
            lemma_straight_push(globals, prefix, lowered[0]);
            lemma_straight_push(globals, prefix.push(lowered[0]), lowered[1]);
            lemma_straight_push(globals, prefix.push(lowered[0]).push(lowered[1]), lowered[2]);
            assert(prefix + lowered =~= prefix.push(lowered[0]).push(lowered[1]).push(lowered[2]));
        },
        Instruction::LogicalNot => {
            lemma_straight_push(globals, prefix, lowered[0]);
            lemma_straight_push(globals, prefix.push(lowered[0]), lowered[1]);
            lemma_straight_push(globals, prefix.push(lowered[0]).push(lowered[1]), lowered[2]);
            lemma_straight_push(
                globals,
                prefix.push(lowered[0]).push(lowered[1]).push(lowered[2]),
                lowered[3],
            );
            assert(prefix + lowered =~= prefix.push(lowered[0]).push(lowered[1]).push(
                lowered[2],
            ).push(lowered[3]));
        },
        _ => {},
    }
}

/// The operations of instructions that stay in their block are well formed.
pub proof fn lemma_instructions_straight(
    globals: nat,
    prefix: Seq<Operation>,
    instructions: Seq<Instruction>,
    place: Place,
)
    requires
        straight(globals, prefix),
        forall|index: int|
            0 <= index < instructions.len() ==> !leaves_block(#[trigger] instructions[index]),
        prefix.len() + lowered_instructions(instructions, prefix.len(), place).len() <= usize::MAX,
    ensures
        straight(globals, prefix + lowered_instructions(instructions, prefix.len(), place)),
    decreases instructions.len(),
{
    if instructions.len() == 0 {
        assert(prefix + lowered_instructions(instructions, prefix.len(), place) =~= prefix);
    } else {
        let earlier = lowered_instructions(instructions.drop_last(), prefix.len(), place);
        let last = lowered_instruction(instructions.last(), prefix.len() + earlier.len(), place);
        assert forall|index: int| 0 <= index < instructions.drop_last().len() implies !leaves_block(
            #[trigger] instructions.drop_last()[index],
        ) by {
            assert(instructions.drop_last()[index] == instructions[index]);
        }
        lemma_instructions_straight(globals, prefix, instructions.drop_last(), place);
        lemma_instruction_straight(globals, prefix + earlier, instructions.last(), place);
        assert(prefix + (earlier + last) =~= (prefix + earlier) + last);
    }
}

/// Whether the blocks and the cursor of a sequence exist in a program of
/// `blocks` blocks and `globals` global cells.
pub open spec fn layout_fits(layout: Layout, blocks: nat, globals: nat) -> bool {
    &&& layout.jump_table.block.0 < blocks
    &&& valid_address(globals, layout.jump_table.next_section)
    &&& forall|section: int|
        0 <= section < layout.sections.len() ==> (#[trigger] layout.sections[section]).0 < blocks
}

/// Whether every block and cell that a section at `place` may name exists.
pub open spec fn place_fits(place: Place, blocks: nat, globals: nat) -> bool {
    &&& place.on_success.0 < blocks
    &&& place.on_failure.0 < blocks
    &&& forall|sequence: int|
        0 <= sequence < place.layouts.len() ==> layout_fits(
            #[trigger] place.layouts[sequence],
            blocks,
            globals,
        )
}

/// A branch to a block that exists ends a run of well-formed operations.
pub proof fn lemma_close_branch(blocks: nat, globals: nat, body: Seq<Operation>, target: Block)
    requires
        straight(globals, body),
        target.0 < blocks,
    ensures
        valid_block(blocks, globals, body.push(Operation::Branch(target))),
{
    let block = body.push(Operation::Branch(target));
    assert forall|index: int| 0 <= index < block.len() implies #[trigger] valid_operation(
        blocks,
        globals,
        block,
        index,
    ) by {
        if index < body.len() {
            assert(straight_operation(globals, body, index));
            assert(block[index] == body[index]);
            if index > 0 {
                assert(straight_operation(globals, body, index - 1));
                assert(block[index - 1] == body[index - 1]);
            }
        } else if index > 0 {
            assert(straight_operation(globals, body, index - 1));
            assert(block[index - 1] == body[index - 1]);
        }
    }
}

/// A switch over constants, to blocks that exist, ends a run of well-formed
/// operations.
pub proof fn lemma_close_switch(
    blocks: nat,
    globals: nat,
    body: Seq<Operation>,
    condition: Value,
    cases: Seq<(Value, Block)>,
    default: Block,
)
    requires
        straight(globals, body),
        defined_in(body, condition),
        default.0 < blocks,
        cases.len() <= usize::MAX,
        forall|case: int|
            0 <= case < cases.len() ==> {
                let entry = #[trigger] cases[case];
                &&& entry.0 is Int1 || entry.0 is Int64
                &&& entry.1.0 < blocks
            },
    ensures
        valid_block(blocks, globals, body + switch_operations(condition, cases, default)),
{
    let ending = switch_operations(condition, cases, default);
    let block = body + ending;
    assert forall|index: int| 0 <= index < block.len() implies #[trigger] valid_operation(
        blocks,
        globals,
        block,
        index,
    ) by {
        if index < body.len() {
            assert(straight_operation(globals, body, index));
            assert(block[index] == body[index]);
            if index > 0 {
                assert(straight_operation(globals, body, index - 1));
                assert(block[index - 1] == body[index - 1]);
            }
        } else {
            assert(block[index] == ending[index - body.len()]);
            if index == body.len() {
                if index > 0 {
                    assert(straight_operation(globals, body, index - 1));
                    assert(block[index - 1] == body[index - 1]);
                }
            } else {
                assert(block[index - 1] == ending[index - 1 - body.len()]);
                let entry = cases[index - body.len() - 1];
                assert(entry.0 is Int1 || entry.0 is Int64);
            }
        }
    }
}

/// The store that advances the cursor and the operations of the
/// instructions before the last one are well formed.
pub proof fn lemma_section_body_straight(
    globals: nat,
    instructions: Seq<Instruction>,
    place: Place,
    blocks: nat,
)
    requires
        lowerable(instructions, place),
        place_fits(place, blocks, globals),
        instructions.len() > 0,
        lowered_section(instructions, 0, place).len() <= usize::MAX,
    ensures
        straight(
            globals,
            advance_section(instructions, place) + lowered_instructions(
                instructions.drop_last(),
                advance_section(instructions, place).len(),
                place,
            ),
        ),
{
    let own = place.layouts[place.sequence];
    assert(layout_fits(own, blocks, globals));
    let advance = advance_section(instructions, place);
    assert(straight(globals, Seq::<Operation>::empty()));
    if advance.len() > 0 {
        lemma_straight_push(globals, Seq::empty(), advance[0]);
        assert(Seq::<Operation>::empty().push(advance[0]) =~= advance);
    } else {
        assert(advance =~= Seq::<Operation>::empty());
    }
    let init = instructions.drop_last();
    assert forall|index: int| 0 <= index < init.len() implies !leaves_block(
        #[trigger] init[index],
    ) by {
        assert(init[index] == instructions[index]);
        assert(index != instructions.len() - 1);
    }
    lemma_instructions_straight(globals, advance, init, place);
}

/// A section that ends in a skip: the pop, the comparison with 1 and the
/// switch end the block.
pub proof fn lemma_close_skip(
    blocks: nat,
    globals: nat,
    body: Seq<Operation>,
    place: Place,
)
    requires
        straight(globals, body),
        place_fits(place, blocks, globals),
        0 <= place.sequence < place.layouts.len(),
        0 <= place.section,
        place.section + 2 < place.layouts[place.sequence].sections.len(),
        body.len() + 5 <= usize::MAX,
    ensures
        valid_block(
            blocks,
            globals,
            body + lowered_instruction(Instruction::SkipIfNotOne, body.len(), place),
        ),
{
    let own = place.layouts[place.sequence];
    assert(layout_fits(own, blocks, globals));
    let base = body.len();
    let pop = Operation::Call(Function::Pop, None);
    let compare = Operation::Compare(Value::Result(base as usize), Compare::Equal, Value::Int64(1));
    let cases = seq![
        (Value::Int1(true), own.sections[place.section + 1]),
        (Value::Int1(false), own.sections[place.section + 2]),
    ];
    lemma_straight_push(globals, body, pop);
    lemma_straight_push(globals, body.push(pop), compare);
    let tested = body.push(pop).push(compare);
    lemma_close_switch(
        blocks,
        globals,
        tested,
        Value::Result((base + 1) as usize),
        cases,
        place.on_failure,
    );
    assert(body + lowered_instruction(Instruction::SkipIfNotOne, base, place) =~= tested
        + switch_operations(Value::Result((base + 1) as usize), cases, place.on_failure));
}

/// A section that ends in a jump: the store that rewinds the cursor of the
/// target, if the target restarts, and the branch end the block.
pub proof fn lemma_close_jump(
    blocks: nat,
    globals: nat,
    body: Seq<Operation>,
    place: Place,
    instruction: Instruction,
)
    requires
        straight(globals, body),
        place_fits(place, blocks, globals),
        instruction matches Instruction::Jump(direction, _) && 0 <= jump_target(
            place.sequence,
            direction,
        ) < place.layouts.len(),
    ensures
        valid_block(blocks, globals, body + lowered_instruction(instruction, body.len(), place)),
{
    match instruction {
        Instruction::Jump(direction, start) => {
            let target = place.layouts[jump_target(place.sequence, direction)];
            assert(layout_fits(target, blocks, globals));
            let lowered = lowered_instruction(instruction, body.len(), place);
            if start is Restart {
                let rewind = Operation::Store(Value::Int64(0), target.jump_table.next_section);
                lemma_straight_push(globals, body, rewind);
                lemma_close_branch(blocks, globals, body.push(rewind), target.jump_table.block);
                assert(body + lowered =~= body.push(rewind).push(
                    Operation::Branch(target.jump_table.block),
                ));
            } else {
                lemma_close_branch(blocks, globals, body, target.jump_table.block);
                assert(body + lowered =~= body.push(Operation::Branch(target.jump_table.block)));
            }
        },
        _ => {},
    }
}

/// The block of a section that can be lowered is well formed.
pub proof fn lemma_section_valid(
    blocks: nat,
    globals: nat,
    instructions: Seq<Instruction>,
    place: Place,
)
    requires
        lowerable(instructions, place),
        place_fits(place, blocks, globals),
        lowered_section(instructions, 0, place).len() <= usize::MAX,
    ensures
        valid_block(blocks, globals, lowered_section(instructions, 0, place)),
{
    let own = place.layouts[place.sequence];
    assert(layout_fits(own, blocks, globals));
    let advance = advance_section(instructions, place);
    let ending = fall_through(instructions, place);
    let lowered = lowered_instructions(instructions, advance.len(), place);
    let whole = lowered_section(instructions, 0, place);
    assert(whole == advance + lowered + ending);
    if instructions.len() == 0 {
        assert(straight(globals, Seq::<Operation>::empty()));
        lemma_straight_push(globals, Seq::empty(), advance[0]);
        assert(Seq::<Operation>::empty().push(advance[0]) =~= advance);
        assert(advance + lowered =~= advance);
        lemma_close_branch(blocks, globals, advance, own.jump_table.block);
        assert(whole =~= advance.push(Operation::Branch(own.jump_table.block)));
    } else {
        let init = instructions.drop_last();
        let last = instructions.last();
        let earlier = lowered_instructions(init, advance.len(), place);
        let body = advance + earlier;
        let final_operations = lowered_instruction(last, body.len(), place);
        assert(lowered == earlier + final_operations);
        lemma_section_body_straight(globals, instructions, place, blocks);
        assert(instructions[instructions.len() - 1] == last);
        if last is Exit {
            lemma_close_branch(blocks, globals, body, place.on_success);
            assert(whole =~= body.push(Operation::Branch(place.on_success)));
        } else if last is Jump {
            lemma_close_jump(blocks, globals, body, place, last);
            assert(whole =~= body + final_operations);
        } else if last is SkipIfNotOne {
            assert(final_operations.len() == 5);
            lemma_close_skip(blocks, globals, body, place);
            assert(whole =~= body + final_operations);
        } else {
            lemma_instruction_straight(globals, body, last, place);
            lemma_close_branch(blocks, globals, body + final_operations, own.jump_table.block);
            assert(whole =~= (body + final_operations).push(
                Operation::Branch(own.jump_table.block),
            ));
        }
    }
}

/// The block of a jump table is well formed.
pub proof fn lemma_jump_table_valid(blocks: nat, globals: nat, layout: Layout, panic_block: Block)
    requires
        layout_fits(layout, blocks, globals),
        panic_block.0 < blocks,
        layout.sections.len() <= usize::MAX,
    ensures
        valid_block(blocks, globals, jump_table_operations(layout, panic_block)),
{
    let load = Operation::Load(layout.jump_table.next_section);
    let body = Seq::<Operation>::empty().push(load);
    assert(straight(globals, Seq::<Operation>::empty()));
    lemma_straight_push(globals, Seq::empty(), load);
    let cases = jump_table_cases(layout.sections);
    assert forall|case: int| 0 <= case < cases.len() implies {
        let entry = #[trigger] cases[case];
        &&& entry.0 is Int1 || entry.0 is Int64
        &&& entry.1.0 < blocks
    } by {
        assert(cases[case].1 == layout.sections[case]);
    }
    lemma_close_switch(blocks, globals, body, Value::Result(0), cases, panic_block);
    assert(body =~= seq![load]);
}

/// The sequence and the section, or the place of the jump table, that the
/// block at `offset` from the first block of the sequences belongs to, among
/// the first `count` sequences.
pub open spec fn owner(program: Program, count: int, offset: int) -> (int, int)
    decreases count,
{
    if count <= 0 {
        (0, 0)
    } else if offset >= sequence_offset(program, count - 1) {
        (count - 1, offset - sequence_offset(program, count - 1))
    } else {
        owner(program, count - 1, offset)
    }
}

/// Every block of the sequences is the block of a section or a jump table.
pub proof fn lemma_owner(program: Program, count: int, offset: int)
    requires
        0 <= offset < sequence_offset(program, count),
    ensures
        ({
            let (sequence, section) = owner(program, count, offset);
            &&& 0 <= sequence < count
            &&& 0 <= section <= program[sequence].len()
            &&& sequence_offset(program, sequence) + section == offset
        }),
    decreases count,
{
    if count > 0 && offset < sequence_offset(program, count - 1) {
        lemma_owner(program, count - 1, offset);
    }
}

/// The blocks and cursors that a plan gives to the sequences exist.
pub proof fn lemma_plan_fits(
    layouts: Seq<Layout>,
    program: Program,
    first_block: int,
    blocks: nat,
    globals: nat,
)
    requires
        0 <= first_block,
        follows_plan(layouts, program, first_block, 0, program.len() as int),
        blocks == first_block + sequence_offset(program, program.len() as int),
        globals == program.len(),
    ensures
        forall|sequence: int|
            0 <= sequence < layouts.len() ==> layout_fits(
                #[trigger] layouts[sequence],
                blocks,
                globals,
            ),
{
    assert forall|sequence: int| 0 <= sequence < layouts.len() implies layout_fits(
        #[trigger] layouts[sequence],
        blocks,
        globals,
    ) by {
        let layout = layouts[sequence];
        lemma_offsets_increase(program, sequence, program.len() as int);
        assert forall|section: int| 0 <= section < layout.sections.len() implies (#[trigger] layout.sections[section]).0
            < blocks by {
            assert(layouts[sequence].sections[section].0 == block_number(
                program,
                first_block,
                sequence,
                section,
            ));
        }
    }
}

/// A program compiled from sequences that can be compiled is well formed.
pub proof fn lemma_program_valid(
    blocks: Seq<Seq<Operation>>,
    program: Program,
    layouts: Seq<Layout>,
)
    requires
        valid_program(program),
        holds_program(blocks, program, layouts),
        forall|block: int| 0 <= block < blocks.len() ==> (#[trigger] blocks[block]).len() <= usize::MAX,
    ensures
        valid_blocks(blocks, program.len()),
{
    let count = blocks.len();
    let globals = program.len();
    let first = FIRST_SEQUENCE_BLOCK as int;
    let on_success = Block(3);
    let on_failure = Block(4);
    lemma_plan_fits(layouts, program, first, count, globals);
    assert forall|block: int| 0 <= block < count implies #[trigger] valid_block(
        count,
        globals,
        blocks[block],
    ) by {
        if block == 0 {
            let call = Operation::Call(
                Function::StackResize,
                Some(Value::Int64(INITIAL_SIZE as i64)),
            );
            assert(straight(globals, Seq::<Operation>::empty()));
            lemma_straight_push(globals, Seq::empty(), call);
            lemma_close_branch(count, globals, Seq::empty().push(call), Block(1));
            assert(blocks[0] =~= Seq::empty().push(call).push(Operation::Branch(Block(1))));
        } else if block == 1 {
            let call = Operation::Call(
                Function::DequeResize,
                Some(Value::Int64(INITIAL_CAPACITY as i64)),
            );
            assert(straight(globals, Seq::<Operation>::empty()));
            lemma_straight_push(globals, Seq::empty(), call);
            lemma_close_branch(count, globals, Seq::empty().push(call), Block(2));
            assert(blocks[1] =~= Seq::empty().push(call).push(Operation::Branch(Block(2))));
        } else if block == 2 {
            let layout = layouts[ENTRY_SEQUENCE as int];
            assert(layout_fits(layout, count, globals));
            let store = Operation::Store(Value::Int64(1), layout.jump_table.next_section);
            assert(straight(globals, Seq::<Operation>::empty()));
            lemma_straight_push(globals, Seq::empty(), store);
            lemma_close_branch(count, globals, Seq::empty().push(store), layout.sections[0]);
            assert(blocks[2] =~= Seq::empty().push(store).push(
                Operation::Branch(layout.sections[0]),
            ));
        } else if block == 3 || block == 4 {
            assert(valid_operation(count, globals, blocks[block], 0));
        } else {
            lemma_owner(program, program.len() as int, block - first);
            let (sequence, section) = owner(program, program.len() as int, block - first);
            assert(block == block_number(program, first, sequence, section));
            if section < program[sequence].len() {
                let place = place_of(layouts, sequence, section, on_success, on_failure);
                assert(valid_section(program, sequence, section));
                lemma_section_valid(count, globals, program[sequence][section], place);
            } else {
                let layout = layouts[sequence];
                assert(layout_fits(layout, count, globals));
                lemma_offsets_increase(program, sequence, program.len() as int);
                lemma_jump_table_valid(count, globals, layout, on_failure);
            }
        }
    }
}

} // verus!
