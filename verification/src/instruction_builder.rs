//! Instruction lowering: each instruction of a section becomes a fixed
//! pattern of calls into the runtime and primitive operations.

use vstd::prelude::*;
use crate::builder::{
    switch_operations, Block, BlockBuilder, Compare, Function, Operation, Type, Value,
};
use crate::syntax::{Direction, Instruction, Operator, QueueEnd, Start, ValueSource};

verus! {

/// The block and the global cell through which a sequence is entered.
#[derive(Debug, PartialEq, Eq, Clone, Copy, Structural)]
pub struct JumpTable {
    /// The block that dispatches on the cursor.
    pub block: Block,
    /// The address of the cursor: the global cell that holds the number of
    /// the section to run next.
    pub next_section: Value,
}

/// The blocks of one sequence.
pub struct SequenceBlock {
    /// The jump table into the sequence.
    pub jump_table: JumpTable,
    /// The block of each section.
    pub sections: Vec<Block>,
}

/// The blocks of one sequence, as a mathematical value.
pub struct Layout {
    /// The jump table into the sequence.
    pub jump_table: JumpTable,
    /// The block of each section.
    pub sections: Seq<Block>,
}

impl View for SequenceBlock {
    type V = Layout;

    open spec fn view(&self) -> Layout {
        Layout { jump_table: self.jump_table, sections: self.sections@ }
    }
}

/// The layouts of the sequences of a program.
pub open spec fn layouts(sequences: Seq<SequenceBlock>) -> Seq<Layout> {
    Seq::new(sequences.len(), |i: int| sequences[i]@)
}

/// Where a section stands, and where its blocks end up.
pub struct Place {
    /// The layout of every sequence of the program.
    pub layouts: Seq<Layout>,
    /// The number of the sequence that the section belongs to.
    pub sequence: int,
    /// The number of the section in its sequence.
    pub section: int,
    /// The block that ends the program with success.
    pub on_success: Block,
    /// The block that ends the program with a failure.
    pub on_failure: Block,
}

/// The number of the sequence that a jump in `sequence` goes to.
pub open spec fn jump_target(sequence: int, direction: Direction) -> int {
    match direction {
        Direction::Previous => sequence - 1,
        Direction::Current => sequence,
        Direction::Next => sequence + 1,
    }
}

/// The function of the runtime that removes a value from an end of the deque.
pub open spec fn remove_function(end: QueueEnd) -> Function {
    match end {
        QueueEnd::Front => Function::RemoveFront,
        QueueEnd::Back => Function::RemoveBack,
    }
}

/// The function of the runtime that inserts a value at an end of the deque.
pub open spec fn insert_function(end: QueueEnd) -> Function {
    match end {
        QueueEnd::Front => Function::InsertFront,
        QueueEnd::Back => Function::InsertBack,
    }
}

/// The operations that compare the top of the stack with the front of the
/// deque: pop, remove the front, compare, put the front back, and widen the
/// outcome to 64 bits.
pub open spec fn lowered_comparison(comparison: Compare, base: nat) -> (Seq<Operation>, Value) {
    (
        seq![
            Operation::Call(Function::Pop, None),
            Operation::Call(Function::RemoveFront, None),
            Operation::Compare(
                Value::Result(base as usize),
                comparison,
                Value::Result((base + 1) as usize),
            ),
            Operation::Call(Function::InsertFront, Some(Value::Result((base + 1) as usize))),
            Operation::ZeroExtendInt(Value::Result((base + 2) as usize), Type::I64),
        ],
        Value::Result((base + 4) as usize),
    )
}

/// The operations that produce the value of `source`, and the value itself,
/// in a block that holds `base` operations already. The operands of an
/// operator are produced left to right.
pub open spec fn lowered_source(source: ValueSource, base: nat) -> (Seq<Operation>, Value)
    decreases source,
{
    match source {
        ValueSource::Constant(constant) => (Seq::empty(), Value::Int64(constant)),
        ValueSource::Pop => (seq![Operation::Call(Function::Pop, None)], Value::Result(
            base as usize,
        )),
        ValueSource::Remove(end) => (
            seq![Operation::Call(remove_function(end), None)],
            Value::Result(base as usize),
        ),
        ValueSource::Operate(lhs, operator, rhs) => {
            let left = lowered_source(*lhs, base);
            let right = lowered_source(*rhs, base + left.0.len());
            (
                left.0 + right.0 + seq![Operation::Arithmetic(left.1, operator, right.1)],
                Value::Result((base + left.0.len() + right.0.len()) as usize),
            )
        },
        ValueSource::CloneTop => (
            seq![
                Operation::Call(Function::Pop, None),
                Operation::Call(Function::Push, Some(Value::Result(base as usize))),
            ],
            Value::Result(base as usize),
        ),
        ValueSource::Input => (
            seq![
                Operation::Call(Function::GetChar, None),
                Operation::CastInt(Value::Result(base as usize), Type::I64),
            ],
            Value::Result((base + 1) as usize),
        ),
        ValueSource::Equal => lowered_comparison(Compare::Equal, base),
        ValueSource::Greater => lowered_comparison(Compare::Greater, base),
    }
}

/// The operations of one instruction of the section at `place`, in a block
/// that holds `base` operations already.
pub open spec fn lowered_instruction(instruction: Instruction, base: nat, place: Place) -> Seq<
    Operation,
> {
    match instruction {
        Instruction::Push(source) => {
            let value = lowered_source(source, base);
            value.0.push(Operation::Call(Function::Push, Some(value.1)))
        },
        Instruction::Insert(source, end) => {
            let value = lowered_source(source, base);
            value.0.push(Operation::Call(insert_function(end), Some(value.1)))
        },
        Instruction::Destroy => seq![Operation::Call(Function::Pop, None)],
        Instruction::OutputCharacter(source) => {
            let value = lowered_source(source, base);
            value.0 + seq![
                Operation::CastInt(value.1, Type::I32),
                Operation::Call(
                    Function::PutChar,
                    Some(Value::Result((base + value.0.len()) as usize)),
                ),
            ]
        },
        Instruction::OutputNumber(source) => {
            let value = lowered_source(source, base);
            value.0.push(Operation::Call(Function::PutI64, Some(value.1)))
        },
        Instruction::BitwiseNot => seq![
            Operation::Call(Function::Pop, None),
            Operation::BitNot(Value::Result(base as usize)),
            Operation::Call(Function::Push, Some(Value::Result((base + 1) as usize))),
        ],
        Instruction::LogicalNot => seq![
            Operation::Call(Function::Pop, None),
            Operation::Compare(Value::Result(base as usize), Compare::Equal, Value::Int64(0)),
            Operation::ZeroExtendInt(Value::Result((base + 1) as usize), Type::I64),
            Operation::Call(Function::Push, Some(Value::Result((base + 2) as usize))),
        ],
        Instruction::SkipIfNotOne => {
            let sections = place.layouts[place.sequence].sections;
            seq![
                Operation::Call(Function::Pop, None),
                Operation::Compare(Value::Result(base as usize), Compare::Equal, Value::Int64(1)),
            ] + switch_operations(
                Value::Result((base + 1) as usize),
                seq![
                    (Value::Int1(true), sections[place.section + 1]),
                    (Value::Int1(false), sections[place.section + 2]),
                ],
                place.on_failure,
            )
        },
        Instruction::Jump(direction, start) => {
            let table = place.layouts[jump_target(place.sequence, direction)].jump_table;
            let rewind = if start is Restart {
                seq![Operation::Store(Value::Int64(0), table.next_section)]
            } else {
                Seq::empty()
            };
            rewind.push(Operation::Branch(table.block))
        },
        Instruction::Exit => seq![Operation::Branch(place.on_success)],
    }
}

/// The operations of a run of instructions, one after the other.
pub open spec fn lowered_instructions(instructions: Seq<Instruction>, base: nat, place: Place) -> Seq<
    Operation,
>
    decreases instructions.len(),
{
    if instructions.len() == 0 {
        Seq::empty()
    } else {
        let earlier = lowered_instructions(instructions.drop_last(), base, place);
        earlier + lowered_instruction(instructions.last(), base + earlier.len(), place)
    }
}

/// Whether the instruction leaves its block by itself.
pub open spec fn leaves_block(instruction: Instruction) -> bool {
    instruction is Exit || instruction is SkipIfNotOne || instruction is Jump
}

/// The store that makes the sequence go on with the next section when it is
/// entered again. A section that ends in a jump has none.
pub open spec fn advance_section(instructions: Seq<Instruction>, place: Place) -> Seq<Operation> {
    if instructions.len() > 0 && instructions.last() is Jump {
        Seq::empty()
    } else {
        seq![
            Operation::Store(
                Value::Int64((place.section + 1) as i64),
                place.layouts[place.sequence].jump_table.next_section,
            ),
        ]
    }
}

/// The branch back to the jump table of the sequence, for a section that
/// falls through to the next one.
pub open spec fn fall_through(instructions: Seq<Instruction>, place: Place) -> Seq<Operation> {
    if instructions.len() > 0 && leaves_block(instructions.last()) {
        Seq::empty()
    } else {
        seq![Operation::Branch(place.layouts[place.sequence].jump_table.block)]
    }
}

/// The operations of the block of a section, in a block that holds `base`
/// operations already: the store that advances the cursor, the operations of
/// the instructions, and the branch of a section that falls through.
pub open spec fn lowered_section(instructions: Seq<Instruction>, base: nat, place: Place) -> Seq<
    Operation,
> {
    let advance = advance_section(instructions, place);
    advance + lowered_instructions(instructions, base + advance.len(), place) + fall_through(
        instructions,
        place,
    )
}

/// Whether a section at `place` can be lowered: the blocks and sequences that
/// its skip or jump needs exist, and nothing follows an instruction that
/// leaves the block.
pub open spec fn lowerable(instructions: Seq<Instruction>, place: Place) -> bool {
    &&& 0 <= place.sequence < place.layouts.len()
    &&& 0 <= place.section < i64::MAX
    &&& forall|index: int|
        0 <= index < instructions.len() ==> match #[trigger] instructions[index] {
            Instruction::SkipIfNotOne => {
                &&& index == instructions.len() - 1
                &&& place.section + 2 < place.layouts[place.sequence].sections.len()
            },
            Instruction::Jump(direction, _) => {
                &&& index == instructions.len() - 1
                &&& 0 <= jump_target(place.sequence, direction) < place.layouts.len()
            },
            Instruction::Exit => index == instructions.len() - 1,
            _ => true,
        }
}

/// Fills the block of one section.
pub struct InstructionBuilder<'a> {
    /// The operations of the block so far.
    pub builder: BlockBuilder,
    /// The block that ends the program with success.
    pub on_success: Block,
    /// The block that ends the program with a failure.
    pub on_failure: Block,
    /// The blocks of every sequence of the program.
    pub sequences: &'a Vec<SequenceBlock>,
    /// The number of the sequence that the section belongs to.
    pub sequence: usize,
    /// The number of the section in its sequence.
    pub section: usize,
}

impl<'a> InstructionBuilder<'a> {
    /// Where the section stands.
    pub open spec fn place(&self) -> Place {
        Place {
            layouts: layouts(self.sequences@),
            sequence: self.sequence as int,
            section: self.section as int,
            on_success: self.on_success,
            on_failure: self.on_failure,
        }
    }

    /// Appends the operations of the section and hands the block back.
    pub fn build(self, instructions: &Vec<Instruction>) -> (block: BlockBuilder)
        requires
            lowerable(instructions@, self.place()),
        ensures
            block@ == self.builder@ + lowered_section(
                instructions@,
                self.builder@.len(),
                self.place(),
            ),
    {
        let mut this = self;
        let ghost place = this.place();
        let ghost before = this.builder@;
        let count = instructions.len();
        let mut append_jump = true;
        let ends_in_jump = count > 0 && matches!(instructions[count - 1], Instruction::Jump(_, _));
        if !ends_in_jump {
            this.build_advance_section();
        }
        let ghost start = this.builder@;
        let ghost advance = advance_section(instructions@, place);
        assert(start =~= before + advance);
        let mut index: usize = 0;
        while index < count
            invariant
                index <= count == instructions.len(),
                lowerable(instructions@, place),
                this.place() == place,
                this.builder@ == start + lowered_instructions(
                    instructions@.take(index as int),
                    start.len(),
                    place,
                ),
                start == before + advance,
                append_jump == !(index > 0 && leaves_block(instructions@[index - 1])),
            decreases count - index,
        {
            let ghost earlier = lowered_instructions(
                instructions@.take(index as int),
                start.len(),
                place,
            );
            assert(instructions@.take(index + 1).drop_last() =~= instructions@.take(index as int));
            assert(this.builder@.len() == start.len() + earlier.len());
            let instruction = &instructions[index];
            assert(this.place().layouts[this.sequence as int] == this.sequences@[this.sequence as int]@);
            this.build_instruction(instruction);
            assert(this.builder@ =~= start + lowered_instructions(
                instructions@.take(index + 1),
                start.len(),
                place,
            ));
            match instruction {
                Instruction::Exit | Instruction::SkipIfNotOne | Instruction::Jump(_, _) => {
                    append_jump = false;
                },
                _ => {
                    append_jump = true;
                },
            }
            index += 1;
        }
        assert(instructions@.take(index as int) =~= instructions@);
        if append_jump {
            let table = this.sequences[this.sequence].jump_table.block;
            this.builder.branch(table);
        }
        assert(this.builder@ =~= before + lowered_section(instructions@, before.len(), place));
        this.builder
    }

    /// Appends the store that makes the sequence go on with the next section.
    fn build_advance_section(&mut self)
        requires
            old(self).sequence < old(self).sequences@.len(),
            old(self).section < i64::MAX,
        ensures
            final(self).place() == old(self).place(),
            final(self).builder@ == old(self).builder@.push(
                Operation::Store(
                    Value::Int64((old(self).section + 1) as i64),
                    old(self).place().layouts[old(self).sequence as int].jump_table.next_section,
                ),
            ),
    {
        let next_section = self.sequences[self.sequence].jump_table.next_section;
        self.builder.store(Value::Int64(self.section as i64 + 1), next_section);
    }

    /// Appends the operations of one instruction.
    fn build_instruction(&mut self, instruction: &Instruction)
        requires
            0 <= old(self).place().sequence < old(self).place().layouts.len(),
            instruction is SkipIfNotOne ==> old(self).section + 2 < old(self).place().layouts[old(
                self,
            ).sequence as int].sections.len(),
            instruction matches Instruction::Jump(direction, _) ==> 0 <= jump_target(
                old(self).sequence as int,
                *direction,
            ) < old(self).place().layouts.len(),
        ensures
            final(self).place() == old(self).place(),
            final(self).builder@ == old(self).builder@ + lowered_instruction(
                *instruction,
                old(self).builder@.len(),
                old(self).place(),
            ),
    {
        match instruction {
            Instruction::Push(source) => self.build_push(source),
            Instruction::Insert(source, end) => self.build_insert(source, end),
            Instruction::OutputCharacter(source) => self.build_output_character(source),
            Instruction::OutputNumber(source) => self.build_output_number(source),
            Instruction::BitwiseNot => self.build_bitwise_not(),
            Instruction::LogicalNot => self.build_logical_not(),
            Instruction::Destroy => self.build_destroy(),
            Instruction::SkipIfNotOne => self.build_skip(),
            Instruction::Jump(direction, start) => self.build_jump(direction, start),
            Instruction::Exit => self.build_exit(),
        }
    }

    fn build_push(&mut self, source: &ValueSource)
        ensures
            final(self).place() == old(self).place(),
            final(self).builder@ == old(self).builder@ + lowered_instruction(
                Instruction::Push(*source),
                old(self).builder@.len(),
                old(self).place(),
            ),
    {
        let value = self.get_value_from_source(source);
        self.builder.call_function(Function::Push, Some(value));
        assert(self.builder@ =~= old(self).builder@ + lowered_instruction(
            Instruction::Push(*source),
            old(self).builder@.len(),
            old(self).place(),
        ));
    }

    fn build_insert(&mut self, source: &ValueSource, end: &QueueEnd)
        ensures
            final(self).place() == old(self).place(),
            final(self).builder@ == old(self).builder@ + lowered_instruction(
                Instruction::Insert(*source, *end),
                old(self).builder@.len(),
                old(self).place(),
            ),
    {
        let value = self.get_value_from_source(source);
        match end {
            QueueEnd::Front => self.builder.call_function(Function::InsertFront, Some(value)),
            QueueEnd::Back => self.builder.call_function(Function::InsertBack, Some(value)),
        };
        assert(self.builder@ =~= old(self).builder@ + lowered_instruction(
            Instruction::Insert(*source, *end),
            old(self).builder@.len(),
            old(self).place(),
        ));
    }

    fn build_destroy(&mut self)
        ensures
            final(self).place() == old(self).place(),
            final(self).builder@ == old(self).builder@ + lowered_instruction(
                Instruction::Destroy,
                old(self).builder@.len(),
                old(self).place(),
            ),
    {
        self.builder.call_function(Function::Pop, None);
        assert(self.builder@ =~= old(self).builder@ + lowered_instruction(
            Instruction::Destroy,
            old(self).builder@.len(),
            old(self).place(),
        ));
    }

    fn build_output_character(&mut self, source: &ValueSource)
        ensures
            final(self).place() == old(self).place(),
            final(self).builder@ == old(self).builder@ + lowered_instruction(
                Instruction::OutputCharacter(*source),
                old(self).builder@.len(),
                old(self).place(),
            ),
    {
        let value = self.get_value_from_source(source);
        let value = self.builder.cast_int(value, Type::I32);
        self.builder.call_function(Function::PutChar, Some(value));
        assert(self.builder@ =~= old(self).builder@ + lowered_instruction(
            Instruction::OutputCharacter(*source),
            old(self).builder@.len(),
            old(self).place(),
        ));
    }

    fn build_output_number(&mut self, source: &ValueSource)
        ensures
            final(self).place() == old(self).place(),
            final(self).builder@ == old(self).builder@ + lowered_instruction(
                Instruction::OutputNumber(*source),
                old(self).builder@.len(),
                old(self).place(),
            ),
    {
        let value = self.get_value_from_source(source);
        self.builder.call_function(Function::PutI64, Some(value));
        assert(self.builder@ =~= old(self).builder@ + lowered_instruction(
            Instruction::OutputNumber(*source),
            old(self).builder@.len(),
            old(self).place(),
        ));
    }

    fn build_bitwise_not(&mut self)
        ensures
            final(self).place() == old(self).place(),
            final(self).builder@ == old(self).builder@ + lowered_instruction(
                Instruction::BitwiseNot,
                old(self).builder@.len(),
                old(self).place(),
            ),
    {
        let value = self.builder.call_function(Function::Pop, None);
        let value = self.builder.bit_not(value);
        self.builder.call_function(Function::Push, Some(value));
        assert(self.builder@ =~= old(self).builder@ + lowered_instruction(
            Instruction::BitwiseNot,
            old(self).builder@.len(),
            old(self).place(),
        ));
    }

    fn build_logical_not(&mut self)
        ensures
            final(self).place() == old(self).place(),
            final(self).builder@ == old(self).builder@ + lowered_instruction(
                Instruction::LogicalNot,
                old(self).builder@.len(),
                old(self).place(),
            ),
    {
        let value = self.builder.call_function(Function::Pop, None);
        let zero = Value::Int64(0);
        let boolean_value = self.builder.compare(value, Compare::Equal, zero);
        let value = self.builder.zero_extend_int(boolean_value, Type::I64);
        self.builder.call_function(Function::Push, Some(value));
        assert(self.builder@ =~= old(self).builder@ + lowered_instruction(
            Instruction::LogicalNot,
            old(self).builder@.len(),
            old(self).place(),
        ));
    }

    fn build_skip(&mut self)
        requires
            old(self).sequence < old(self).sequences@.len(),
            old(self).section + 2 < old(self).place().layouts[old(
                self,
            ).sequence as int].sections.len(),
        ensures
            final(self).place() == old(self).place(),
            final(self).builder@ == old(self).builder@ + lowered_instruction(
                Instruction::SkipIfNotOne,
                old(self).builder@.len(),
                old(self).place(),
            ),
    {
        assert(self.place().layouts[self.sequence as int] == self.sequences@[self.sequence as int]@);
        let value = self.builder.call_function(Function::Pop, None);
        let one = Value::Int64(1);
        let boolean_value = self.builder.compare(value, Compare::Equal, one);
        let zero = Value::Int1(false);
        let one = Value::Int1(true);
        let sections = &self.sequences[self.sequence].sections;
        let count = sections.len();
        let if_next_section = sections[self.section + 1];
        let else_section = sections[self.section + 2];
        let mut cases: Vec<(Value, Block)> = Vec::new();
        cases.push((one, if_next_section));
        cases.push((zero, else_section));
        assert(cases@ =~= seq![(one, if_next_section), (zero, else_section)]);
        self.builder.switch(boolean_value, &cases, self.on_failure);
        assert(self.builder@ =~= old(self).builder@ + lowered_instruction(
            Instruction::SkipIfNotOne,
            old(self).builder@.len(),
            old(self).place(),
        ));
    }

    fn build_jump(&mut self, direction: &Direction, start: &Start)
        requires
            0 <= jump_target(old(self).sequence as int, *direction) < old(self).sequences@.len(),
        ensures
            final(self).place() == old(self).place(),
            final(self).builder@ == old(self).builder@ + lowered_instruction(
                Instruction::Jump(*direction, *start),
                old(self).builder@.len(),
                old(self).place(),
            ),
    {
        let count = self.sequences.len();
        let target_sequence = match direction {
            Direction::Previous => self.sequence - 1,
            Direction::Current => self.sequence,
            Direction::Next => self.sequence + 1,
        };
        let table = self.sequences[target_sequence].jump_table;
        assert(self.place().layouts[target_sequence as int] == self.sequences@[target_sequence as int]@);
        match start {
            Start::Restart => {
                self.builder.store(Value::Int64(0), table.next_section);
            },
            Start::Continue => {},
        }
        self.builder.branch(table.block);
        assert(self.builder@ =~= old(self).builder@ + lowered_instruction(
            Instruction::Jump(*direction, *start),
            old(self).builder@.len(),
            old(self).place(),
        ));
    }

    fn build_exit(&mut self)
        ensures
            final(self).place() == old(self).place(),
            final(self).builder@ == old(self).builder@ + lowered_instruction(
                Instruction::Exit,
                old(self).builder@.len(),
                old(self).place(),
            ),
    {
        self.builder.branch(self.on_success);
        assert(self.builder@ =~= old(self).builder@ + lowered_instruction(
            Instruction::Exit,
            old(self).builder@.len(),
            old(self).place(),
        ));
    }

    /// Appends the operations that produce the value of `source`; returns
    /// the value.
    pub fn get_value_from_source(&mut self, source: &ValueSource) -> (value: Value)
        ensures
            final(self).place() == old(self).place(),
            final(self).builder@ == old(self).builder@ + lowered_source(
                *source,
                old(self).builder@.len(),
            ).0,
            value == lowered_source(*source, old(self).builder@.len()).1,
        decreases *source,
    {
        let ghost base = self.builder@.len();
        let value = match source {
            ValueSource::Constant(constant) => Value::Int64(*constant),
            ValueSource::Pop => self.builder.call_function(Function::Pop, None),
            ValueSource::Remove(QueueEnd::Front) => self.builder.call_function(
                Function::RemoveFront,
                None,
            ),
            ValueSource::Remove(QueueEnd::Back) => self.builder.call_function(
                Function::RemoveBack,
                None,
            ),
            ValueSource::Operate(lhs, operation, rhs) => {
                let lhs_value = self.get_value_from_source(lhs);
                let rhs_value = self.get_value_from_source(rhs);
                self.build_operation(lhs_value, operation, rhs_value)
            },
            ValueSource::CloneTop => {
                let value = self.builder.call_function(Function::Pop, None);
                self.builder.call_function(Function::Push, Some(value));
                value
            },
            ValueSource::Input => {
                let value = self.builder.call_function(Function::GetChar, None);
                self.builder.cast_int(value, Type::I64)
            },
            ValueSource::Equal => self.build_comparison(Compare::Equal),
            ValueSource::Greater => self.build_comparison(Compare::Greater),
        };
        assert(self.builder@ =~= old(self).builder@ + lowered_source(*source, base).0);
        value
    }

    /// Appends the comparison of the top of the stack with the front of the
    /// deque, which keeps its front.
    fn build_comparison(&mut self, comparison: Compare) -> (value: Value)
        ensures
            final(self).place() == old(self).place(),
            final(self).builder@ == old(self).builder@ + lowered_comparison(
                comparison,
                old(self).builder@.len(),
            ).0,
            value == lowered_comparison(comparison, old(self).builder@.len()).1,
    {
        let top = self.builder.call_function(Function::Pop, None);
        let front = self.builder.call_function(Function::RemoveFront, None);
        let outcome = self.builder.compare(top, comparison, front);
        self.builder.call_function(Function::InsertFront, Some(front));
        let value = self.builder.zero_extend_int(outcome, Type::I64);
        assert(self.builder@ =~= old(self).builder@ + lowered_comparison(
            comparison,
            old(self).builder@.len(),
        ).0);
        value
    }

    /// Appends the operation of an operator on two values.
    fn build_operation(&mut self, lhs: Value, op: &Operator, rhs: Value) -> (value: Value)
        ensures
            final(self).place() == old(self).place(),
            final(self).builder@ == old(self).builder@.push(Operation::Arithmetic(lhs, *op, rhs)),
            value == Value::Result(old(self).builder@.len() as usize),
    {
        match op {
            Operator::Add => self.builder.add(lhs, rhs),
            Operator::Sub => self.builder.sub(lhs, rhs),
            Operator::Mul => self.builder.mul(lhs, rhs),
            Operator::Div => self.builder.div(lhs, rhs),
            Operator::Mod => self.builder.modulo(lhs, rhs),
            Operator::And => self.builder.bit_and(lhs, rhs),
            Operator::Or => self.builder.bit_or(lhs, rhs),
            Operator::Xor => self.builder.bit_xor(lhs, rhs),
        }
    }
}

} // verus!
