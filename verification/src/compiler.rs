//! The generated program as a whole: the blocks that start and end it, around
//! the blocks of its sequences.

use vstd::prelude::*;
use crate::builder::{
    Block, BlockBuilder, BlockName, Builder, Function, GlobalName, Operation, Value,
};
use crate::deque::INITIAL_CAPACITY;
use crate::instruction_builder::{jump_target, layouts, Layout, SequenceBlock};
use crate::parse::lemma_section_view;
use crate::sequence_builder::{
    block_number, follows_plan, holds_sequences, lemma_offsets_increase, named_by_plan,
    valid_section, valid_sections, Program, SequenceBuilder,
};
use crate::stack::INITIAL_SIZE;
use crate::well_formed::lemma_program_valid;
use crate::syntax::{Direction, Instruction, Sequence};

verus! {

/// The number of blocks that stand before those of the sequences.
pub const FIRST_SEQUENCE_BLOCK: usize = 5;

/// The number of the sequence that the program starts with: the first line of
/// the source.
pub const ENTRY_SEQUENCE: usize = 1;

/// Whether a program can be compiled: it has the sequence that it starts
/// with, that sequence has a section, and every section can be compiled.
pub open spec fn valid_program(program: Program) -> bool {
    &&& program.len() > ENTRY_SEQUENCE
    &&& program[ENTRY_SEQUENCE as int].len() > 0
    &&& valid_sections(program)
}

/// The block that gives the stack its first buffer.
pub open spec fn init_stack_operations(init_deque: Block) -> Seq<Operation> {
    seq![
        Operation::Call(Function::StackResize, Some(Value::Int64(INITIAL_SIZE as i64))),
        Operation::Branch(init_deque),
    ]
}

/// The block that gives the deque its first buffer.
pub open spec fn init_deque_operations(entry: Block) -> Seq<Operation> {
    seq![
        Operation::Call(Function::DequeResize, Some(Value::Int64(INITIAL_CAPACITY as i64))),
        Operation::Branch(entry),
    ]
}

/// The block that starts the first line of the source: it runs the first
/// section, and leaves the cursor on the second.
pub open spec fn entry_operations(layout: Layout) -> Seq<Operation> {
    seq![
        Operation::Store(Value::Int64(1), layout.jump_table.next_section),
        Operation::Branch(layout.sections[0]),
    ]
}

/// The block that ends the program with an exit status.
pub open spec fn return_operations(status: i32) -> Seq<Operation> {
    seq![Operation::ReturnValue(Value::Int32(status))]
}

/// Whether `blocks` is the program compiled from `program`, with the blocks
/// of its sequences laid out as in `layouts`: the two blocks that set up the
/// containers, the entry, the exit with status 0, the panic with status 1,
/// and the blocks of the sequences.
pub open spec fn holds_program(
    blocks: Seq<Seq<Operation>>,
    program: Program,
    layouts: Seq<Layout>,
) -> bool {
    &&& blocks.len() >= FIRST_SEQUENCE_BLOCK
    &&& blocks[0] == init_stack_operations(Block(1))
    &&& blocks[1] == init_deque_operations(Block(2))
    &&& blocks[2] == entry_operations(layouts[ENTRY_SEQUENCE as int])
    &&& blocks[3] == return_operations(0)
    &&& blocks[4] == return_operations(1)
    &&& follows_plan(layouts, program, FIRST_SEQUENCE_BLOCK as int, 0, program.len() as int)
    &&& holds_sequences(blocks, program, layouts, FIRST_SEQUENCE_BLOCK as int, Block(3), Block(4))
}

/// Whether the blocks and the global cells of a compiled program are named
/// after what they are for.
pub open spec fn holds_names(
    names: Seq<BlockName>,
    cells: Seq<GlobalName>,
    program: Program,
) -> bool {
    &&& names.len() >= FIRST_SEQUENCE_BLOCK
    &&& names[0] == BlockName::InitStack
    &&& names[1] == BlockName::InitDeque
    &&& names[2] == BlockName::Entry
    &&& names[3] == BlockName::Exit
    &&& names[4] == BlockName::Panic
    &&& named_by_plan(names, cells, program, FIRST_SEQUENCE_BLOCK as int, 0, program.len() as int)
}

/// Whether the section `section` of the sequence `sequence` can be compiled.
fn validate_section(sequences: &Vec<Sequence>, sequence: usize, section: usize) -> (valid: bool)
    requires
        sequence < sequences@.len(),
        section < sequences@[sequence as int]@.len(),
    ensures
        valid == valid_section(sequences.deep_view(), sequence as int, section as int),
{
    let ghost program = sequences.deep_view();
    let count = sequences.len();
    let sections = sequences[sequence].len();
    let instructions = &sequences[sequence][section];
    proof {
        lemma_section_view(*instructions);
        assert(program[sequence as int][section as int] == instructions@);
        assert(program[sequence as int].len() == sections);
    }
    if section as u64 >= i64::MAX as u64 {
        return false;
    }
    let mut index: usize = 0;
    while index < instructions.len()
        invariant
            index <= instructions.len(),
            sequence < count == program.len(),
            section < sections == program[sequence as int].len(),
            section < i64::MAX,
            program == sequences.deep_view(),
            program[sequence as int][section as int] == instructions@,
            forall|earlier: int|
                0 <= earlier < index ==> match #[trigger] instructions@[earlier] {
                    Instruction::SkipIfNotOne => {
                        &&& earlier == instructions@.len() - 1
                        &&& section + 2 < sections
                    },
                    Instruction::Jump(direction, _) => {
                        &&& earlier == instructions@.len() - 1
                        &&& 0 <= jump_target(sequence as int, direction) < count
                    },
                    Instruction::Exit => earlier == instructions@.len() - 1,
                    _ => true,
                },
        decreases instructions.len() - index,
    {
        let is_last = index == instructions.len() - 1;
        let fits = match &instructions[index] {
            Instruction::SkipIfNotOne => is_last && sections >= 2 && section < sections - 2,
            Instruction::Jump(direction, _) => is_last && match direction {
                Direction::Previous => sequence > 0,
                Direction::Current => true,
                Direction::Next => sequence < count - 1,
            },
            Instruction::Exit => is_last,
            _ => true,
        };
        if !fits {
            assert(!valid_section(program, sequence as int, section as int));
            return false;
        }
        index += 1;
    }
    true
}

/// Whether a program can be compiled.
pub fn validate(sequences: &Vec<Sequence>) -> (valid: bool)
    ensures
        valid == valid_program(sequences.deep_view()),
{
    let ghost program = sequences.deep_view();
    if sequences.len() <= ENTRY_SEQUENCE {
        return false;
    }
    assert(program[ENTRY_SEQUENCE as int].len() == sequences@[ENTRY_SEQUENCE as int]@.len());
    if sequences[ENTRY_SEQUENCE].len() == 0 {
        return false;
    }
    let mut sequence: usize = 0;
    while sequence < sequences.len()
        invariant
            sequence <= sequences.len(),
            program == sequences.deep_view(),
            forall|earlier: int, section: int|
                0 <= earlier < sequence && 0 <= section < program[earlier].len()
                    ==> #[trigger] valid_section(program, earlier, section),
        decreases sequences.len() - sequence,
    {
        let sections = sequences[sequence].len();
        assert(program[sequence as int].len() == sections);
        let mut section: usize = 0;
        while section < sections
            invariant
                section <= sections == program[sequence as int].len(),
                sequence < sequences.len(),
                sections == sequences@[sequence as int]@.len(),
                program == sequences.deep_view(),
                forall|earlier: int, section: int|
                    0 <= earlier < sequence && 0 <= section < program[earlier].len()
                        ==> #[trigger] valid_section(program, earlier, section),
                forall|earlier: int|
                    0 <= earlier < section ==> #[trigger] valid_section(
                        program,
                        sequence as int,
                        earlier,
                    ),
            decreases sections - section,
        {
            if !validate_section(sequences, sequence, section) {
                return false;
            }
            section += 1;
        }
        sequence += 1;
    }
    true
}

/// Compiles a program into `builder`, which holds nothing yet: adds the
/// blocks that set up the containers, the entry, the exit and the panic
/// block, and the blocks and cursors of the sequences.
pub fn create_main(builder: &mut Builder, sequences: &Vec<Sequence>) -> (sequence_blocks: Vec<
    SequenceBlock,
>)
    requires
        old(builder).wf(),
        old(builder).blocks().len() == 0,
        old(builder).globals().len() == 0,
        valid_program(sequences.deep_view()),
    ensures
        final(builder).wf(),
        final(builder).globals() == Seq::new(sequences@.len(), |sequence: int| 0i64),
        holds_program(final(builder).blocks(), sequences.deep_view(), layouts(sequence_blocks@)),
        holds_names(final(builder).names(), final(builder).global_names(), sequences.deep_view()),
{
    let ghost program = sequences.deep_view();
    proof {
        builder.lemma_sizes();
    }
    let init_stack = builder.add_block(BlockName::InitStack);
    let init_deque = builder.add_block(BlockName::InitDeque);
    let entry = builder.add_block(BlockName::Entry);
    let exit = builder.add_block(BlockName::Exit);
    let panic = builder.add_block(BlockName::Panic);

    let mut block = BlockBuilder::new();
    block.call_function(Function::StackResize, Some(Value::Int64(INITIAL_SIZE as i64)));
    block.branch(init_deque);
    assert(Seq::<Operation>::empty() + block@ =~= init_stack_operations(Block(1)));
    builder.build_block(init_stack, block);

    let mut block = BlockBuilder::new();
    block.call_function(Function::DequeResize, Some(Value::Int64(INITIAL_CAPACITY as i64)));
    block.branch(entry);
    assert(Seq::<Operation>::empty() + block@ =~= init_deque_operations(Block(2)));
    builder.build_block(init_deque, block);

    let ghost head = builder.names();
    proof {
        builder.lemma_sizes();
    }
    let sequence_blocks = SequenceBuilder::new(panic, exit).build(builder, sequences);
    proof {
        let names = builder.names();
        assert(names.take(5) == head);
        assert(forall|number: int| 0 <= number < 5 ==> names[number] == names.take(5)[number]);
    }
    let ghost plan = layouts(sequence_blocks@);
    assert(plan[ENTRY_SEQUENCE as int] == sequence_blocks@[ENTRY_SEQUENCE as int]@);
    assert(builder.globals() =~= Seq::new(sequences@.len(), |sequence: int| 0i64));
    assert(program[ENTRY_SEQUENCE as int].len() == sequences@[ENTRY_SEQUENCE as int]@.len());

    let ghost filled = builder.blocks();
    let first = &sequence_blocks[ENTRY_SEQUENCE];
    let mut block = BlockBuilder::new();
    block.store(Value::Int64(1), first.jump_table.next_section);
    block.branch(first.sections[0]);
    assert(Seq::<Operation>::empty() + block@ =~= entry_operations(plan[ENTRY_SEQUENCE as int]));
    builder.build_block(entry, block);

    let mut block = BlockBuilder::new();
    block.return_value(Value::Int32(0));
    assert(Seq::<Operation>::empty() + block@ =~= return_operations(0));
    builder.build_block(exit, block);

    let mut block = BlockBuilder::new();
    block.return_value(Value::Int32(1));
    assert(Seq::<Operation>::empty() + block@ =~= return_operations(1));
    builder.build_block(panic, block);

    proof {
        let blocks = builder.blocks();
        assert forall|sequence: int, section: int|
            0 <= sequence < program.len() && 0 <= section <= program[sequence].len() implies blocks[#[trigger] block_number(
            program,
            5,
            sequence,
            section,
        )] == filled[block_number(program, 5, sequence, section)] by {
            lemma_offsets_increase(program, sequence, program.len() as int);
        }
    }
    sequence_blocks
}

/// Compiles a program, unless it cannot be compiled. The compiled program is
/// well formed.
pub fn compile(sequences: &Vec<Sequence>) -> (compiled: Option<(Builder, Vec<SequenceBlock>)>)
    ensures
        compiled is Some == valid_program(sequences.deep_view()),
        compiled matches Some((builder, sequence_blocks)) ==> {
            &&& builder.wf()
            &&& builder.valid()
            &&& builder.globals() == Seq::new(sequences@.len(), |sequence: int| 0i64)
            &&& holds_program(builder.blocks(), sequences.deep_view(), layouts(sequence_blocks@))
            &&& holds_names(builder.names(), builder.global_names(), sequences.deep_view())
        },
{
    if !validate(sequences) {
        return None;
    }
    let mut builder = Builder::new();
    let sequence_blocks = create_main(&mut builder, sequences);
    proof {
        builder.lemma_sizes();
        lemma_program_valid(
            builder.blocks(),
            sequences.deep_view(),
            layouts(sequence_blocks@),
        );
    }
    Some((builder, sequence_blocks))
}

} // verus!
