//! The control-flow compiler: one jump table and one block for each section
//! of each sequence.
//!
//! A sequence is entered through its jump table, which reads the cursor of
//! the sequence and goes on with the section of that number, or with the
//! panic block when there is none.

use vstd::prelude::*;
use crate::builder::{
    switch_operations, Block, BlockBuilder, BlockName, Builder, GlobalName, Operation, Value,
};
use crate::instruction_builder::{
    jump_target, layouts, lowerable, lowered_section, InstructionBuilder, JumpTable, Layout, Place,
    SequenceBlock,
};
use crate::parse::lemma_section_view;
use crate::syntax::{Instruction, Sequence};

verus! {

/// A program as a mathematical value: its sequences, their sections, and
/// their instructions.
pub type Program = Seq<Seq<Seq<Instruction>>>;

/// The number of blocks that the sequences before `sequence` take up: one for
/// each of their sections, and one for each jump table.
pub open spec fn sequence_offset(program: Program, sequence: int) -> nat
    decreases sequence,
{
    if sequence <= 0 {
        0
    } else {
        sequence_offset(program, sequence - 1) + program[sequence - 1].len() + 1
    }
}

/// The number of the block of the section `section` of the sequence
/// `sequence`, when the blocks of the program start at `first_block`: the
/// sections of a sequence come in order, and its jump table after them, where
/// one more section would stand.
pub open spec fn block_number(program: Program, first_block: int, sequence: int, section: int) -> int {
    first_block + sequence_offset(program, sequence) + section
}

/// Whether `layouts` gives each of the first `count` sequences of the program
/// its blocks in order from `first_block` on, and the global cells from
/// `first_global` on as cursors.
pub open spec fn follows_plan(
    layouts: Seq<Layout>,
    program: Program,
    first_block: int,
    first_global: int,
    count: int,
) -> bool {
    &&& layouts.len() == count <= program.len()
    &&& forall|sequence: int|
        0 <= sequence < count ==> {
            let layout = #[trigger] layouts[sequence];
            &&& layout.sections.len() == program[sequence].len()
            &&& layout.jump_table.block.0 == block_number(
                program,
                first_block,
                sequence,
                program[sequence].len() as int,
            )
            &&& layout.jump_table.next_section matches Value::Global(cell) && cell == first_global
                + sequence
        }
    &&& forall|sequence: int, section: int|
        0 <= sequence < count && 0 <= section < program[sequence].len()
            ==> (#[trigger] layouts[sequence].sections[section]).0 == block_number(
            program,
            first_block,
            sequence,
            section,
        )
}

/// The blocks of the sequences before a sequence end before its own begin.
pub proof fn lemma_offsets_increase(program: Program, earlier: int, later: int)
    requires
        0 <= earlier < later,
    ensures
        sequence_offset(program, earlier) + program[earlier].len() + 1 <= sequence_offset(
            program,
            later,
        ),
    decreases later - earlier,
{
    if earlier + 1 < later {
        lemma_offsets_increase(program, earlier, later - 1);
    }
}

/// The number of the block of the jump table of a sequence.
pub open spec fn table_number(program: Program, first_block: int, sequence: int) -> int {
    block_number(program, first_block, sequence, program[sequence].len() as int)
}

/// The number of the global cell that is the cursor of a sequence.
pub open spec fn cursor_number(first_global: int, sequence: int) -> int {
    first_global + sequence
}

/// Whether the blocks and the global cells of the first `count` sequences
/// are named after them: the block of a section after the sequence and the
/// section, the block of a jump table and the cursor after the sequence.
pub open spec fn named_by_plan(
    names: Seq<BlockName>,
    cells: Seq<GlobalName>,
    program: Program,
    first_block: int,
    first_global: int,
    count: int,
) -> bool {
    &&& names.len() == first_block + sequence_offset(program, count)
    &&& cells.len() == first_global + count
    &&& forall|sequence: int, section: int|
        0 <= sequence < count && 0 <= section < program[sequence].len() ==> names[#[trigger] block_number(
            program,
            first_block,
            sequence,
            section,
        )] == BlockName::Section(sequence as usize, section as usize)
    &&& forall|sequence: int|
        0 <= sequence < count ==> names[#[trigger] table_number(program, first_block, sequence)]
            == BlockName::JumpTable(sequence as usize)
    &&& forall|sequence: int|
        0 <= sequence < count ==> cells[#[trigger] cursor_number(first_global, sequence)]
            == GlobalName::NextSection(sequence as usize)
}

/// Whether `blocks` holds, from `first_block` on, the blocks of the first
/// `count` sequences with their jump tables filled and their sections still
/// empty.
pub open spec fn has_skeleton(
    blocks: Seq<Seq<Operation>>,
    program: Program,
    layouts: Seq<Layout>,
    first_block: int,
    count: int,
    panic_block: Block,
) -> bool {
    &&& blocks.len() == first_block + sequence_offset(program, count)
    &&& forall|sequence: int, section: int|
        0 <= sequence < count && 0 <= section < program[sequence].len() ==> blocks[#[trigger] block_number(
            program,
            first_block,
            sequence,
            section,
        )] == Seq::<Operation>::empty()
    &&& forall|sequence: int|
        0 <= sequence < count ==> blocks[block_number(
            program,
            first_block,
            sequence,
            program[sequence].len() as int,
        )] == jump_table_operations(#[trigger] layouts[sequence], panic_block)
}

/// Whether `blocks` holds, from `first_block` on, the blocks of the sequences
/// of the program: for each sequence the blocks of its sections, in order,
/// and then its jump table.
pub open spec fn holds_sequences(
    blocks: Seq<Seq<Operation>>,
    program: Program,
    layouts: Seq<Layout>,
    first_block: int,
    on_success: Block,
    on_failure: Block,
) -> bool {
    &&& blocks.len() == first_block + sequence_offset(program, program.len() as int)
    &&& forall|sequence: int, section: int|
        0 <= sequence < program.len() && 0 <= section < program[sequence].len() ==> blocks[#[trigger] block_number(
            program,
            first_block,
            sequence,
            section,
        )] == lowered_section(
            program[sequence][section],
            0,
            place_of(layouts, sequence, section, on_success, on_failure),
        )
    &&& forall|sequence: int|
        0 <= sequence < program.len() ==> blocks[block_number(
            program,
            first_block,
            sequence,
            program[sequence].len() as int,
        )] == jump_table_operations(#[trigger] layouts[sequence], on_failure)
}

/// The cases of a jump table: the number of each section with its block.
pub open spec fn jump_table_cases(sections: Seq<Block>) -> Seq<(Value, Block)> {
    Seq::new(sections.len(), |section: int| (Value::Int64(section as i64), sections[section]))
}

/// The operations of a jump table: read the cursor and go on with the section
/// of that number, or with the panic block.
pub open spec fn jump_table_operations(layout: Layout, panic_block: Block) -> Seq<Operation> {
    seq![Operation::Load(layout.jump_table.next_section)] + switch_operations(
        Value::Result(0),
        jump_table_cases(layout.sections),
        panic_block,
    )
}

/// Whether the section `section` of the sequence `sequence` can be compiled:
/// only its last instruction leaves the block, a skip has two sections after
/// it, and a jump has a sequence to go to.
pub open spec fn valid_section(program: Program, sequence: int, section: int) -> bool {
    let instructions = program[sequence][section];
    &&& section < i64::MAX
    &&& forall|index: int|
        0 <= index < instructions.len() ==> match #[trigger] instructions[index] {
            Instruction::SkipIfNotOne => {
                &&& index == instructions.len() - 1
                &&& section + 2 < program[sequence].len()
            },
            Instruction::Jump(direction, _) => {
                &&& index == instructions.len() - 1
                &&& 0 <= jump_target(sequence, direction) < program.len()
            },
            Instruction::Exit => index == instructions.len() - 1,
            _ => true,
        }
}

/// Whether every section of the program can be compiled.
pub open spec fn valid_sections(program: Program) -> bool {
    forall|sequence: int, section: int|
        0 <= sequence < program.len() && 0 <= section < program[sequence].len()
            ==> #[trigger] valid_section(program, sequence, section)
}

/// Where the section `section` of the sequence `sequence` stands.
pub open spec fn place_of(
    layouts: Seq<Layout>,
    sequence: int,
    section: int,
    on_success: Block,
    on_failure: Block,
) -> Place {
    Place { layouts, sequence, section, on_success, on_failure }
}

/// The blocks of one sequence.
pub struct SequenceBuilder {
    /// The block that ends the program with a failure.
    pub panic_block: Block,
    /// The block that ends the program with success.
    pub success_block: Block,
}

impl SequenceBuilder {
    /// A compiler of sequences whose blocks leave the program through
    /// `panic_block` and `success_block`.
    pub fn new(panic_block: Block, success_block: Block) -> (made: SequenceBuilder)
        ensures
            made.panic_block == panic_block,
            made.success_block == success_block,
    {
        SequenceBuilder { panic_block, success_block }
    }

    /// Adds an empty block for each section of a sequence.
    fn create_sections(&self, builder: &mut Builder, sequence_number: usize, sequence: &Sequence) -> (sections:
        Vec<Block>)
        requires
            old(builder).wf(),
        ensures
            final(builder).wf(),
            final(builder).globals() == old(builder).globals(),
            final(builder).global_names() == old(builder).global_names(),
            final(builder).blocks() == old(builder).blocks() + Seq::new(
                sequence@.len(),
                |section: int| Seq::<Operation>::empty(),
            ),
            final(builder).names() == old(builder).names() + Seq::new(
                sequence@.len(),
                |section: int| BlockName::Section(sequence_number, section as usize),
            ),
            sections@.len() == sequence@.len(),
            forall|section: int|
                0 <= section < sequence@.len() ==> (#[trigger] sections@[section]).0 == old(
                    builder,
                ).blocks().len() + section,
    {
        let mut sections: Vec<Block> = Vec::new();
        let mut index: usize = 0;
        assert(builder.blocks() =~= old(builder).blocks() + Seq::new(
            0,
            |section: int| Seq::<Operation>::empty(),
        ));
        assert(builder.names() =~= old(builder).names() + Seq::new(
            0,
            |section: int| BlockName::Section(sequence_number, section as usize),
        ));
        while index < sequence.len()
            invariant
                index <= sequence.len(),
                builder.wf(),
                builder.globals() == old(builder).globals(),
                builder.global_names() == old(builder).global_names(),
                builder.blocks() == old(builder).blocks() + Seq::new(
                    index as nat,
                    |section: int| Seq::<Operation>::empty(),
                ),
                builder.names() == old(builder).names() + Seq::new(
                    index as nat,
                    |section: int| BlockName::Section(sequence_number, section as usize),
                ),
                sections@.len() == index,
                forall|section: int|
                    0 <= section < index ==> (#[trigger] sections@[section]).0 == old(
                        builder,
                    ).blocks().len() + section,
            decreases sequence.len() - index,
        {
            let block = builder.add_block(BlockName::Section(sequence_number, index));
            sections.push(block);
            assert(builder.blocks() =~= old(builder).blocks() + Seq::new(
                (index + 1) as nat,
                |section: int| Seq::<Operation>::empty(),
            ));
            assert(builder.names() =~= old(builder).names() + Seq::new(
                (index + 1) as nat,
                |section: int| BlockName::Section(sequence_number, section as usize),
            ));
            index += 1;
        }
        sections
    }

    /// Adds the cursor of a sequence and the block of its jump table, and
    /// fills that block.
    fn build_jump_table(&self, builder: &mut Builder, sequence_number: usize, sections: &Vec<Block>) -> (table:
        JumpTable)
        requires
            old(builder).wf(),
            sections@.len() <= i64::MAX,
        ensures
            final(builder).wf(),
            table.block.0 == old(builder).blocks().len(),
            table.next_section matches Value::Global(cell) && cell == old(builder).globals().len(),
            final(builder).globals() == old(builder).globals().push(0),
            final(builder).global_names() == old(builder).global_names().push(
                GlobalName::NextSection(sequence_number),
            ),
            final(builder).names() == old(builder).names().push(
                BlockName::JumpTable(sequence_number),
            ),
            final(builder).blocks() == old(builder).blocks().push(
                jump_table_operations(
                    Layout { jump_table: table, sections: sections@ },
                    self.panic_block,
                ),
            ),
    {
        let jump_table = builder.add_block(BlockName::JumpTable(sequence_number));
        let next_section = builder.add_global_variable(
            GlobalName::NextSection(sequence_number),
            0,
        );
        let exit = self.panic_block;
        let mut block = BlockBuilder::new();
        let next = block.load(next_section);
        let mut numbered_sections: Vec<(Value, Block)> = Vec::new();
        let mut index: usize = 0;
        while index < sections.len()
            invariant
                index <= sections.len() <= i64::MAX,
                numbered_sections@ == jump_table_cases(sections@).take(index as int),
            decreases sections.len() - index,
        {
            numbered_sections.push((Value::Int64(index as i64), sections[index]));
            assert(numbered_sections@ =~= jump_table_cases(sections@).take(index + 1));
            index += 1;
        }
        assert(jump_table_cases(sections@).take(index as int) =~= jump_table_cases(sections@));
        block.switch(next, &numbered_sections, exit);
        let table = JumpTable { block: jump_table, next_section };
        assert(block@ =~= jump_table_operations(
            Layout { jump_table: table, sections: sections@ },
            self.panic_block,
        ));
        assert(Seq::<Operation>::empty() + block@ =~= block@);
        builder.build_block(jump_table, block);
        assert(builder.blocks() =~= old(builder).blocks().push(
            jump_table_operations(
                Layout { jump_table: table, sections: sections@ },
                self.panic_block,
            ),
        ));
        table
    }

    /// Adds the blocks and the cursor of every sequence, and fills the jump
    /// tables.
    fn create_sequence_blocks(&self, builder: &mut Builder, sequences: &Vec<Sequence>) -> (sequence_blocks:
        Vec<SequenceBlock>)
        requires
            old(builder).wf(),
            forall|sequence: int|
                0 <= sequence < sequences@.len() ==> (#[trigger] sequences@[sequence])@.len()
                    <= i64::MAX,
        ensures
            final(builder).wf(),
            final(builder).globals() == old(builder).globals() + Seq::new(
                sequences@.len(),
                |sequence: int| 0i64,
            ),
            forall|block: int|
                0 <= block < old(builder).blocks().len() ==> final(builder).blocks()[block] == old(
                    builder,
                ).blocks()[block],
            follows_plan(
                layouts(sequence_blocks@),
                sequences.deep_view(),
                old(builder).blocks().len() as int,
                old(builder).globals().len() as int,
                sequences@.len() as int,
            ),
            has_skeleton(
                final(builder).blocks(),
                sequences.deep_view(),
                layouts(sequence_blocks@),
                old(builder).blocks().len() as int,
                sequences@.len() as int,
                self.panic_block,
            ),
            named_by_plan(
                final(builder).names(),
                final(builder).global_names(),
                sequences.deep_view(),
                old(builder).blocks().len() as int,
                old(builder).globals().len() as int,
                sequences@.len() as int,
            ),
            final(builder).names().take(old(builder).names().len() as int) == old(builder).names(),
            final(builder).global_names().take(old(builder).global_names().len() as int) == old(
                builder,
            ).global_names(),
    {
        let ghost program = sequences.deep_view();
        let ghost first_block = builder.blocks().len() as int;
        let ghost first_global = builder.globals().len() as int;
        proof {
            builder.lemma_sizes();
            assert(builder.names().take(builder.names().len() as int) =~= builder.names());
            assert(builder.global_names().take(builder.global_names().len() as int)
                =~= builder.global_names());
        }
        let mut sequence_blocks: Vec<SequenceBlock> = Vec::new();
        let mut index: usize = 0;
        assert(builder.globals() =~= old(builder).globals() + Seq::new(0, |sequence: int| 0i64));
        while index < sequences.len()
            invariant
                index <= sequences.len(),
                program == sequences.deep_view(),
                first_block == old(builder).blocks().len(),
                first_global == old(builder).globals().len(),
                forall|sequence: int|
                    0 <= sequence < sequences@.len() ==> (#[trigger] sequences@[sequence])@.len()
                        <= i64::MAX,
                builder.wf(),
                builder.globals() == old(builder).globals() + Seq::new(
                    index as nat,
                    |sequence: int| 0i64,
                ),
                forall|block: int|
                    0 <= block < first_block ==> builder.blocks()[block] == old(
                        builder,
                    ).blocks()[block],
                follows_plan(
                    layouts(sequence_blocks@),
                    program,
                    first_block,
                    first_global,
                    index as int,
                ),
                has_skeleton(
                    builder.blocks(),
                    program,
                    layouts(sequence_blocks@),
                    first_block,
                    index as int,
                    self.panic_block,
                ),
                named_by_plan(
                    builder.names(),
                    builder.global_names(),
                    program,
                    first_block,
                    first_global,
                    index as int,
                ),
                first_block == old(builder).names().len(),
                first_global == old(builder).global_names().len(),
                builder.names().take(first_block) == old(builder).names(),
                builder.global_names().take(first_global) == old(builder).global_names(),
            decreases sequences.len() - index,
        {
            let ghost before = builder.blocks();
            let ghost names_before = builder.names();
            let ghost cells_before = builder.global_names();
            let ghost planned = layouts(sequence_blocks@);
            let sequence = &sequences[index];
            assert(program[index as int].len() == sequence@.len());
            let sections = self.create_sections(builder, index, sequence);
            let ghost names_between = builder.names();
            let jump_table = self.build_jump_table(builder, index, &sections);
            let made = SequenceBlock { jump_table, sections };
            sequence_blocks.push(made);
            proof {
                let names = builder.names();
                let cells = builder.global_names();
                assert(names.take(first_block) =~= names_before.take(first_block));
                assert(cells.take(first_global) =~= cells_before.take(first_global));
                assert forall|sequence: int, section: int|
                    0 <= sequence < index + 1 && 0 <= section < program[sequence].len() implies names[#[trigger] block_number(
                    program,
                    first_block,
                    sequence,
                    section,
                )] == BlockName::Section(sequence as usize, section as usize) by {
                    let number = block_number(program, first_block, sequence, section);
                    if sequence < index {
                        lemma_offsets_increase(program, sequence, index as int);
                        assert(names[number] == names_before[number]);
                    } else {
                        assert(names[number] == names_between[number]);
                        assert(names_between[number] == Seq::new(
                            program[index as int].len(),
                            |section: int| BlockName::Section(index, section as usize),
                        )[section]);
                    }
                }
                assert forall|sequence: int| 0 <= sequence < index + 1 implies names[#[trigger] table_number(
                    program,
                    first_block,
                    sequence,
                )] == BlockName::JumpTable(sequence as usize) by {
                    let number = table_number(program, first_block, sequence);
                    if sequence < index {
                        lemma_offsets_increase(program, sequence, index as int);
                        assert(names[number] == names_before[number]);
                    } else {
                        assert(number == names_between.len());
                    }
                }
                assert forall|sequence: int| 0 <= sequence < index + 1 implies cells[#[trigger] cursor_number(
                    first_global,
                    sequence,
                )] == GlobalName::NextSection(sequence as usize) by {
                    let number = cursor_number(first_global, sequence);
                    if sequence < index {
                        assert(cells[number] == cells_before[number]);
                    }
                }
                assert(names.len() == first_block + sequence_offset(program, index + 1));
                assert(cells.len() == first_global + index + 1);
                assert(named_by_plan(names, cells, program, first_block, first_global, index + 1));
                let after = builder.blocks();
                let extended = layouts(sequence_blocks@);
                assert(extended =~= planned.push(made@));
                assert(builder.globals() =~= old(builder).globals() + Seq::new(
                    (index + 1) as nat,
                    |sequence: int| 0i64,
                ));
                assert forall|sequence: int, section: int|
                    0 <= sequence < index + 1 && 0 <= section < program[sequence].len() implies after[#[trigger] block_number(
                    program,
                    first_block,
                    sequence,
                    section,
                )] == Seq::<Operation>::empty() by {
                    if sequence < index {
                        lemma_offsets_increase(program, sequence, index as int);
                    }
                }
                assert forall|sequence: int| 0 <= sequence < index + 1 implies after[block_number(
                    program,
                    first_block,
                    sequence,
                    program[sequence].len() as int,
                )] == jump_table_operations(#[trigger] extended[sequence], self.panic_block) by {
                    if sequence < index {
                        lemma_offsets_increase(program, sequence, index as int);
                        assert(extended[sequence] == planned[sequence]);
                    }
                }
                assert forall|sequence: int, section: int|
                    0 <= sequence < index + 1 && 0 <= section < program[sequence].len() implies (#[trigger] extended[sequence].sections[section]).0
                    == block_number(program, first_block, sequence, section) by {
                    if sequence < index {
                        assert(extended[sequence] == planned[sequence]);
                    }
                }
                assert forall|sequence: int| 0 <= sequence < index + 1 implies {
                    let layout = #[trigger] extended[sequence];
                    &&& layout.sections.len() == program[sequence].len()
                    &&& layout.jump_table.block.0 == block_number(
                        program,
                        first_block,
                        sequence,
                        program[sequence].len() as int,
                    )
                    &&& layout.jump_table.next_section matches Value::Global(cell) && cell
                        == first_global + sequence
                } by {
                    if sequence < index {
                        assert(extended[sequence] == planned[sequence]);
                    }
                }
            }
            index += 1;
        }
        sequence_blocks
    }

    /// Fills the block of every section.
    fn build_sequence_blocks(
        &self,
        builder: &mut Builder,
        sequence_blocks: &Vec<SequenceBlock>,
        sequences: &Vec<Sequence>,
        Ghost(first_block): Ghost<int>,
        Ghost(first_global): Ghost<int>,
    )
        requires
            old(builder).wf(),
            0 <= first_block,
            valid_sections(sequences.deep_view()),
            follows_plan(
                layouts(sequence_blocks@),
                sequences.deep_view(),
                first_block,
                first_global,
                sequences@.len() as int,
            ),
            has_skeleton(
                old(builder).blocks(),
                sequences.deep_view(),
                layouts(sequence_blocks@),
                first_block,
                sequences@.len() as int,
                self.panic_block,
            ),
        ensures
            final(builder).wf(),
            final(builder).globals() == old(builder).globals(),
            final(builder).names() == old(builder).names(),
            final(builder).global_names() == old(builder).global_names(),
            forall|block: int|
                0 <= block < first_block ==> final(builder).blocks()[block] == old(
                    builder,
                ).blocks()[block],
            holds_sequences(
                final(builder).blocks(),
                sequences.deep_view(),
                layouts(sequence_blocks@),
                first_block,
                self.success_block,
                self.panic_block,
            ),
    {
        let ghost program = sequences.deep_view();
        let ghost plan = layouts(sequence_blocks@);
        let on_success = self.success_block;
        let on_failure = self.panic_block;
        let mut sequence_index: usize = 0;
        while sequence_index < sequences.len()
            invariant
                sequence_index <= sequences.len(),
                program == sequences.deep_view(),
                plan == layouts(sequence_blocks@),
                on_success == self.success_block,
                on_failure == self.panic_block,
                0 <= first_block,
                valid_sections(program),
                follows_plan(plan, program, first_block, first_global, sequences@.len() as int),
                builder.wf(),
                builder.globals() == old(builder).globals(),
                builder.names() == old(builder).names(),
                builder.global_names() == old(builder).global_names(),
                builder.blocks().len() == first_block + sequence_offset(
                    program,
                    program.len() as int,
                ),
                forall|block: int|
                    0 <= block < first_block ==> builder.blocks()[block] == old(
                        builder,
                    ).blocks()[block],
                forall|sequence: int|
                    0 <= sequence < program.len() ==> builder.blocks()[block_number(
                        program,
                        first_block,
                        sequence,
                        program[sequence].len() as int,
                    )] == jump_table_operations(#[trigger] plan[sequence], on_failure),
                forall|sequence: int, section: int|
                    0 <= sequence < program.len() && 0 <= section < program[sequence].len()
                        ==> builder.blocks()[#[trigger] block_number(
                        program,
                        first_block,
                        sequence,
                        section,
                    )] == if sequence < sequence_index {
                        lowered_section(
                            program[sequence][section],
                            0,
                            place_of(plan, sequence, section, on_success, on_failure),
                        )
                    } else {
                        Seq::<Operation>::empty()
                    },
            decreases sequences.len() - sequence_index,
        {
            let sequence = &sequences[sequence_index];
            let sequence_block = &sequence_blocks[sequence_index];
            assert(plan[sequence_index as int] == sequence_block@);
            assert(program[sequence_index as int].len() == sequence@.len());
            let mut section_index: usize = 0;
            while section_index < sequence.len()
                invariant
                    section_index <= sequence.len(),
                    sequence_index < sequences.len(),
                    sequence == &sequences@[sequence_index as int],
                    sequence_block == &sequence_blocks@[sequence_index as int],
                    program == sequences.deep_view(),
                    plan == layouts(sequence_blocks@),
                    on_success == self.success_block,
                    on_failure == self.panic_block,
                    0 <= first_block,
                    valid_sections(program),
                    follows_plan(plan, program, first_block, first_global, sequences@.len() as int),
                    builder.wf(),
                    builder.globals() == old(builder).globals(),
                    builder.names() == old(builder).names(),
                    builder.global_names() == old(builder).global_names(),
                    builder.blocks().len() == first_block + sequence_offset(
                        program,
                        program.len() as int,
                    ),
                    forall|block: int|
                        0 <= block < first_block ==> builder.blocks()[block] == old(
                            builder,
                        ).blocks()[block],
                    forall|sequence: int|
                        0 <= sequence < program.len() ==> builder.blocks()[block_number(
                            program,
                            first_block,
                            sequence,
                            program[sequence].len() as int,
                        )] == jump_table_operations(#[trigger] plan[sequence], on_failure),
                    forall|sequence: int, section: int|
                        0 <= sequence < program.len() && 0 <= section < program[sequence].len()
                            ==> builder.blocks()[#[trigger] block_number(
                            program,
                            first_block,
                            sequence,
                            section,
                        )] == if sequence < sequence_index || (sequence == sequence_index
                            && section < section_index) {
                            lowered_section(
                                program[sequence][section],
                                0,
                                place_of(plan, sequence, section, on_success, on_failure),
                            )
                        } else {
                            Seq::<Operation>::empty()
                        },
                decreases sequence.len() - section_index,
            {
                let section = &sequence[section_index];
                let block = sequence_block.sections[section_index];
                let ghost before = builder.blocks();
                let ghost place = place_of(
                    plan,
                    sequence_index as int,
                    section_index as int,
                    on_success,
                    on_failure,
                );
                let ghost number = block_number(
                    program,
                    first_block,
                    sequence_index as int,
                    section_index as int,
                );
                proof {
                    lemma_section_view(*section);
                    assert(program[sequence_index as int][section_index as int] == section@);
                    assert(valid_section(program, sequence_index as int, section_index as int));
                    assert(plan[sequence_index as int].sections[section_index as int].0 == number);
                    assert(plan[sequence_index as int] == sequence_block@);
                    assert(block.0 == number);
                    lemma_offsets_increase(program, sequence_index as int, program.len() as int);
                    assert(lowerable(section@, place));
                }
                let filled = InstructionBuilder {
                    builder: BlockBuilder::new(),
                    on_success,
                    on_failure,
                    sequences: sequence_blocks,
                    sequence: sequence_index,
                    section: section_index,
                }.build(section);
                assert(Seq::<Operation>::empty() + lowered_section(section@, 0, place)
                    =~= lowered_section(section@, 0, place));
                assert(before[number] + filled@ =~= lowered_section(section@, 0, place));
                builder.build_block(block, filled);
                proof {
                    let after = builder.blocks();
                    assert forall|sequence: int| 0 <= sequence < program.len() implies after[block_number(
                        program,
                        first_block,
                        sequence,
                        program[sequence].len() as int,
                    )] == jump_table_operations(#[trigger] plan[sequence], on_failure) by {
                        lemma_offsets_increase(program, sequence, program.len() as int);
                        lemma_block_numbers_differ(
                            program,
                            first_block,
                            sequence,
                            program[sequence].len() as int,
                            sequence_index as int,
                            section_index as int,
                        );
                    }
                    assert forall|sequence: int, section: int|
                        0 <= sequence < program.len() && 0 <= section
                            < program[sequence].len() implies after[#[trigger] block_number(
                        program,
                        first_block,
                        sequence,
                        section,
                    )] == if sequence < sequence_index || (sequence == sequence_index && section
                        < section_index + 1) {
                        lowered_section(
                            program[sequence][section],
                            0,
                            place_of(plan, sequence, section, on_success, on_failure),
                        )
                    } else {
                        Seq::<Operation>::empty()
                    } by {
                        lemma_offsets_increase(program, sequence, program.len() as int);
                        if sequence != sequence_index || section != section_index {
                            lemma_block_numbers_differ(
                                program,
                                first_block,
                                sequence,
                                section,
                                sequence_index as int,
                                section_index as int,
                            );
                        }
                    }
                }
                section_index += 1;
            }
            sequence_index += 1;
        }
    }

    /// Compiles the sequences of a program: adds a cursor and a jump table
    /// for each sequence and a block for each of its sections, and fills
    /// every block.
    pub fn build(self, builder: &mut Builder, sequences: &Vec<Sequence>) -> (sequence_blocks: Vec<
        SequenceBlock,
    >)
        requires
            old(builder).wf(),
            valid_sections(sequences.deep_view()),
        ensures
            final(builder).wf(),
            final(builder).globals() == old(builder).globals() + Seq::new(
                sequences@.len(),
                |sequence: int| 0i64,
            ),
            forall|block: int|
                0 <= block < old(builder).blocks().len() ==> final(builder).blocks()[block] == old(
                    builder,
                ).blocks()[block],
            follows_plan(
                layouts(sequence_blocks@),
                sequences.deep_view(),
                old(builder).blocks().len() as int,
                old(builder).globals().len() as int,
                sequences@.len() as int,
            ),
            holds_sequences(
                final(builder).blocks(),
                sequences.deep_view(),
                layouts(sequence_blocks@),
                old(builder).blocks().len() as int,
                self.success_block,
                self.panic_block,
            ),
            named_by_plan(
                final(builder).names(),
                final(builder).global_names(),
                sequences.deep_view(),
                old(builder).blocks().len() as int,
                old(builder).globals().len() as int,
                sequences@.len() as int,
            ),
            final(builder).names().take(old(builder).names().len() as int) == old(builder).names(),
            final(builder).global_names().take(old(builder).global_names().len() as int) == old(
                builder,
            ).global_names(),
    {
        let ghost program = sequences.deep_view();
        proof {
            assert forall|sequence: int| 0 <= sequence < sequences@.len() implies (#[trigger] sequences@[sequence])@.len()
                <= i64::MAX by {
                let count = sequences@[sequence]@.len() as int;
                assert(program[sequence].len() == count);
                if count > 0 {
                    assert(valid_section(program, sequence, count - 1));
                }
            }
        }
        let ghost first_block = builder.blocks().len() as int;
        let ghost first_global = builder.globals().len() as int;
        let sequence_blocks = self.create_sequence_blocks(builder, sequences);
        self.build_sequence_blocks(
            builder,
            &sequence_blocks,
            sequences,
            Ghost(first_block),
            Ghost(first_global),
        );
        sequence_blocks
    }
}

/// Two sections, or a section and a jump table, have different blocks.
pub proof fn lemma_block_numbers_differ(
    program: Program,
    first_block: int,
    sequence: int,
    section: int,
    other_sequence: int,
    other_section: int,
)
    requires
        0 <= sequence,
        0 <= other_sequence,
        0 <= section <= program[sequence].len(),
        0 <= other_section <= program[other_sequence].len(),
        sequence != other_sequence || section != other_section,
    ensures
        block_number(program, first_block, sequence, section) != block_number(
            program,
            first_block,
            other_sequence,
            other_section,
        ),
{
    if sequence < other_sequence {
        lemma_offsets_increase(program, sequence, other_sequence);
    } else if other_sequence < sequence {
        lemma_offsets_increase(program, other_sequence, sequence);
    }
}

} // verus!
