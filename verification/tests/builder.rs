use karma::buffer::Buffer;
use karma::builder::{
    i1_type, i1_value, i32_type, i32_value, i64_type, i64_value, Block, BlockBuilder, BlockName,
    Builder, Compare, Function, GlobalName, Operation, Type, Value,
};
use karma::instruction_builder::{InstructionBuilder, JumpTable, SequenceBlock};
use karma::sequence_builder::SequenceBuilder;
use karma::syntax::Instruction::{
    BitwiseNot, Destroy, Exit, Insert, Jump, LogicalNot, OutputCharacter, OutputNumber, Push,
    SkipIfNotOne,
};
use karma::syntax::Operator::{Add, And, Div, Mod, Mul, Or, Sub, Xor};
use karma::syntax::QueueEnd::{Back, Front};
use karma::syntax::ValueSource::{CloneTop, Constant, Equal, Greater, Input, Operate, Pop, Remove};
use karma::syntax::{Direction, Instruction, Start};
use karma::text::number_text;

fn layout() -> Vec<SequenceBlock> {
    (0..3)
        .map(|sequence| SequenceBlock {
            jump_table: JumpTable {
                block: Block(100 + sequence),
                next_section: Value::Global(sequence),
            },
            sections: (0..4).map(|section| Block(10 * sequence + section)).collect(),
        })
        .collect()
}

fn lowered(instructions: Vec<Instruction>, sequence: usize, section: usize) -> Vec<Operation> {
    let sequences = layout();
    let block = InstructionBuilder {
        builder: BlockBuilder::new(),
        on_success: Block(3),
        on_failure: Block(4),
        sequences: &sequences,
        sequence,
        section,
    }
    .build(&instructions);
    block.operations().clone()
}

fn call(function: Function, argument: Option<Value>) -> Operation {
    Operation::Call(function, argument)
}

#[test]
fn a_buffer_copies_ranges_of_cells() {
    let mut source = Buffer::allocate(4);
    assert_eq!(source.size(), 4);
    for index in 0..4 {
        assert_eq!(source.read(index), 0);
        source.write(index, 10 + index as i64);
    }
    let mut target = Buffer::allocate(6);
    target.copy_from(&source, 1, 3, 2);
    let cells: Vec<i64> = (0..6).map(|index| target.read(index)).collect();
    assert_eq!(cells, vec![0, 0, 0, 11, 12, 0]);
    target.copy_from(&source, 0, 0, 0);
    assert_eq!(target.read(0), 0);
}

#[test]
fn numbers_are_written_in_decimal() {
    assert_eq!(number_text(0), b"0".to_vec());
    assert_eq!(number_text(7), b"7".to_vec());
    assert_eq!(number_text(10), b"10".to_vec());
    assert_eq!(number_text(-1), b"-1".to_vec());
    assert_eq!(number_text(1234567890), b"1234567890".to_vec());
    assert_eq!(number_text(i64::MAX), b"9223372036854775807".to_vec());
    assert_eq!(number_text(i64::MIN), b"-9223372036854775808".to_vec());
}

#[test]
fn a_block_builder_numbers_its_results() {
    let mut block = BlockBuilder::new();
    assert_eq!(block.len(), 0);
    assert_eq!(block.call_function(Function::Pop, None), Value::Result(0));
    assert_eq!(block.load(Value::Global(2)), Value::Result(1));
    assert_eq!(block.add(Value::Result(0), Value::Result(1)), Value::Result(2));
    assert_eq!(block.sub(Value::Result(0), i64_value(1)), Value::Result(3));
    assert_eq!(block.mul(Value::Result(0), i64_value(2)), Value::Result(4));
    assert_eq!(block.div(Value::Result(0), i64_value(3)), Value::Result(5));
    assert_eq!(block.modulo(Value::Result(0), i64_value(4)), Value::Result(6));
    assert_eq!(block.bit_and(Value::Result(0), i64_value(5)), Value::Result(7));
    assert_eq!(block.bit_or(Value::Result(0), i64_value(6)), Value::Result(8));
    assert_eq!(block.bit_xor(Value::Result(0), i64_value(7)), Value::Result(9));
    assert_eq!(block.bit_not(Value::Result(9)), Value::Result(10));
    assert_eq!(
        block.compare(Value::Result(0), Compare::GreaterOrEqual, i64_value(0)),
        Value::Result(11)
    );
    assert_eq!(block.zero_extend_int(Value::Result(11), i64_type()), Value::Result(12));
    assert_eq!(block.cast_int(Value::Result(12), i32_type()), Value::Result(13));
    assert_eq!(block.cast_int(Value::Result(12), i1_type()), Value::Result(14));
    assert_eq!(block.store(Value::Result(0), Value::Global(2)), Value::Result(15));
    assert_eq!(block.arithmetic(i64_value(1), Add, i64_value(2)), Value::Result(16));
    assert_eq!(block.build(Operation::Branch(Block(9))), Value::Result(17));
    assert_eq!(block.len(), 18);
    assert_eq!(
        block.operations(),
        &vec![
            call(Function::Pop, None),
            Operation::Load(Value::Global(2)),
            Operation::Arithmetic(Value::Result(0), Add, Value::Result(1)),
            Operation::Arithmetic(Value::Result(0), Sub, Value::Int64(1)),
            Operation::Arithmetic(Value::Result(0), Mul, Value::Int64(2)),
            Operation::Arithmetic(Value::Result(0), Div, Value::Int64(3)),
            Operation::Arithmetic(Value::Result(0), Mod, Value::Int64(4)),
            Operation::Arithmetic(Value::Result(0), And, Value::Int64(5)),
            Operation::Arithmetic(Value::Result(0), Or, Value::Int64(6)),
            Operation::Arithmetic(Value::Result(0), Xor, Value::Int64(7)),
            Operation::BitNot(Value::Result(9)),
            Operation::Compare(Value::Result(0), Compare::GreaterOrEqual, Value::Int64(0)),
            Operation::ZeroExtendInt(Value::Result(11), Type::I64),
            Operation::CastInt(Value::Result(12), Type::I32),
            Operation::CastInt(Value::Result(12), Type::I1),
            Operation::Store(Value::Result(0), Value::Global(2)),
            Operation::Arithmetic(Value::Int64(1), Add, Value::Int64(2)),
            Operation::Branch(Block(9)),
        ]
    );
}

#[test]
fn a_switch_is_followed_by_its_cases() {
    let mut block = BlockBuilder::new();
    block.switch(
        i64_value(5),
        &vec![(i64_value(0), Block(1)), (i64_value(1), Block(2))],
        Block(3),
    );
    assert_eq!(
        block.operations(),
        &vec![
            Operation::Switch(Value::Int64(5), Block(3), 2),
            Operation::Case(Value::Int64(0), Block(1)),
            Operation::Case(Value::Int64(1), Block(2)),
        ]
    );
    let mut block = BlockBuilder::new();
    block.return_value(i32_value(7));
    block.branch(Block(1));
    assert_eq!(
        block.operations(),
        &vec![
            Operation::ReturnValue(Value::Int32(7)),
            Operation::Branch(Block(1)),
        ]
    );
    assert_eq!(i1_value(true), Value::Int1(true));
}

#[test]
fn functions_either_take_an_argument_or_return_a_value() {
    for function in [
        Function::Pop,
        Function::RemoveFront,
        Function::RemoveBack,
        Function::GetChar,
    ] {
        assert!(!function.takes_argument());
        assert!(function.returns_value());
        assert!(call(function, None).has_result());
    }
    for function in [
        Function::StackResize,
        Function::Push,
        Function::DequeResize,
        Function::InsertFront,
        Function::InsertBack,
        Function::PutChar,
        Function::PutI64,
    ] {
        assert!(function.takes_argument());
        assert!(!function.returns_value());
        assert!(!call(function, Some(Value::Int64(0))).has_result());
    }
    assert!(Operation::Load(Value::Global(0)).has_result());
    assert!(!Operation::Store(Value::Int64(0), Value::Global(0)).has_result());
    assert!(!Operation::Branch(Block(0)).has_result());
}

#[test]
fn a_builder_keeps_blocks_and_global_cells() {
    let mut builder = Builder::new();
    assert_eq!(builder.block_count(), 0);
    assert_eq!(builder.global_count(), 0);
    let cell = builder.add_global_variable(GlobalName::NextSection(7), 5);
    assert_eq!(cell, Value::Global(0));
    let first = builder.add_block(BlockName::Entry);
    let second = builder.add_block(BlockName::Section(1, 2));
    assert_eq!((first, second), (Block(0), Block(1)));
    assert_eq!(builder.block_name(second), BlockName::Section(1, 2));
    assert_eq!(builder.global_name(0), GlobalName::NextSection(7));
    assert_eq!(builder.global_value(0), 5);
    assert!(!builder.is_working());

    let mut block = BlockBuilder::new();
    let value = block.load(cell);
    block.store(value, cell);
    builder.build_block(first, block);
    let mut block = BlockBuilder::new();
    block.branch(second);
    builder.build_block(first, block);
    assert_eq!(
        builder.block_operations(first),
        &vec![
            Operation::Load(Value::Global(0)),
            Operation::Store(Value::Result(0), Value::Global(0)),
            Operation::Branch(Block(1)),
        ]
    );
    assert!(!builder.is_working());
    let mut block = BlockBuilder::new();
    block.return_value(i32_value(0));
    builder.build_block(second, block);
    assert!(builder.is_working());
}

fn working(operations: Vec<Operation>) -> bool {
    let mut builder = Builder::new();
    builder.add_global_variable(GlobalName::NextSection(0), 0);
    let block = builder.add_block(BlockName::Entry);
    let mut body = BlockBuilder::new();
    for operation in operations {
        body.build(operation);
    }
    builder.build_block(block, body);
    builder.is_working()
}

#[test]
fn ill_formed_blocks_are_not_working() {
    let ret = Operation::ReturnValue(Value::Int32(0));
    assert!(working(vec![ret]));
    assert!(!working(vec![]));
    assert!(!working(vec![call(Function::Pop, None)]));
    assert!(!working(vec![ret, ret]));
    assert!(!working(vec![Operation::Branch(Block(1))]));
    assert!(working(vec![Operation::Branch(Block(0))]));
    assert!(!working(vec![Operation::ReturnValue(Value::Int64(0))]));
    assert!(!working(vec![call(Function::Pop, Some(Value::Int64(1))), ret]));
    assert!(!working(vec![call(Function::Push, None), ret]));
    assert!(!working(vec![call(Function::Push, Some(Value::Result(0))), ret]));
    assert!(!working(vec![call(Function::Push, Some(Value::Global(0))), ret]));
    assert!(working(vec![
        call(Function::Pop, None),
        call(Function::Push, Some(Value::Result(0))),
        ret,
    ]));
    assert!(!working(vec![
        call(Function::Push, Some(Value::Int64(1))),
        call(Function::Push, Some(Value::Result(0))),
        ret,
    ]));
    assert!(!working(vec![Operation::Load(Value::Global(1)), ret]));
    assert!(!working(vec![Operation::Load(Value::Int64(0)), ret]));
    assert!(working(vec![Operation::Load(Value::Global(0)), ret]));
    assert!(!working(vec![Operation::Case(Value::Int64(0), Block(0)), ret]));
    assert!(working(vec![
        Operation::Switch(Value::Int64(0), Block(0), 1),
        Operation::Case(Value::Int64(0), Block(0)),
    ]));
    assert!(working(vec![Operation::Switch(Value::Int64(0), Block(0), 0)]));
    assert!(!working(vec![
        Operation::Switch(Value::Int64(0), Block(0), 2),
        Operation::Case(Value::Int64(0), Block(0)),
    ]));
    assert!(!working(vec![
        Operation::Switch(Value::Int64(0), Block(0), 1),
        Operation::Case(Value::Int32(0), Block(0)),
    ]));
    assert!(!working(vec![
        Operation::Switch(Value::Int64(0), Block(0), 1),
        Operation::Case(Value::Int64(0), Block(5)),
    ]));
    assert!(!working(vec![
        Operation::Switch(Value::Int64(0), Block(0), 1),
        ret,
    ]));
}

#[test]
fn plain_instructions_are_lowered_to_calls() {
    let advance = Operation::Store(Value::Int64(2), Value::Global(1));
    let back = Operation::Branch(Block(101));
    assert_eq!(lowered(vec![], 1, 1), vec![advance, back]);
    assert_eq!(
        lowered(vec![Push(Constant(5))], 1, 1),
        vec![advance, call(Function::Push, Some(Value::Int64(5))), back]
    );
    assert_eq!(
        lowered(vec![Destroy, BitwiseNot], 1, 1),
        vec![
            advance,
            call(Function::Pop, None),
            call(Function::Pop, None),
            Operation::BitNot(Value::Result(2)),
            call(Function::Push, Some(Value::Result(3))),
            back,
        ]
    );
    assert_eq!(
        lowered(vec![LogicalNot], 1, 1),
        vec![
            advance,
            call(Function::Pop, None),
            Operation::Compare(Value::Result(1), Compare::Equal, Value::Int64(0)),
            Operation::ZeroExtendInt(Value::Result(2), Type::I64),
            call(Function::Push, Some(Value::Result(3))),
            back,
        ]
    );
    assert_eq!(
        lowered(vec![Insert(Pop, Back), Insert(Remove(Back), Front)], 1, 1),
        vec![
            advance,
            call(Function::Pop, None),
            call(Function::InsertBack, Some(Value::Result(1))),
            call(Function::RemoveBack, None),
            call(Function::InsertFront, Some(Value::Result(3))),
            back,
        ]
    );
    assert_eq!(
        lowered(vec![OutputCharacter(Pop), OutputNumber(Remove(Front))], 1, 1),
        vec![
            advance,
            call(Function::Pop, None),
            Operation::CastInt(Value::Result(1), Type::I32),
            call(Function::PutChar, Some(Value::Result(2))),
            call(Function::RemoveFront, None),
            call(Function::PutI64, Some(Value::Result(4))),
            back,
        ]
    );
}

#[test]
fn value_sources_are_lowered_left_to_right() {
    let sequences = layout();
    let mut builder = InstructionBuilder {
        builder: BlockBuilder::new(),
        on_success: Block(3),
        on_failure: Block(4),
        sequences: &sequences,
        sequence: 0,
        section: 0,
    };
    let source = Operate(
        Box::new(Operate(Box::new(Pop), Sub, Box::new(Constant(1)))),
        Mul,
        Box::new(Input),
    );
    assert_eq!(builder.get_value_from_source(&source), Value::Result(4));
    assert_eq!(builder.get_value_from_source(&CloneTop), Value::Result(5));
    assert_eq!(builder.get_value_from_source(&Equal), Value::Result(11));
    assert_eq!(builder.get_value_from_source(&Greater), Value::Result(16));
    assert_eq!(builder.get_value_from_source(&Constant(3)), Value::Int64(3));
    assert_eq!(
        builder.builder.operations(),
        &vec![
            call(Function::Pop, None),
            Operation::Arithmetic(Value::Result(0), Sub, Value::Int64(1)),
            call(Function::GetChar, None),
            Operation::CastInt(Value::Result(2), Type::I64),
            Operation::Arithmetic(Value::Result(1), Mul, Value::Result(3)),
            call(Function::Pop, None),
            call(Function::Push, Some(Value::Result(5))),
            call(Function::Pop, None),
            call(Function::RemoveFront, None),
            Operation::Compare(Value::Result(7), Compare::Equal, Value::Result(8)),
            call(Function::InsertFront, Some(Value::Result(8))),
            Operation::ZeroExtendInt(Value::Result(9), Type::I64),
            call(Function::Pop, None),
            call(Function::RemoveFront, None),
            Operation::Compare(Value::Result(12), Compare::Greater, Value::Result(13)),
            call(Function::InsertFront, Some(Value::Result(13))),
            Operation::ZeroExtendInt(Value::Result(14), Type::I64),
        ]
    );
}

#[test]
fn instructions_that_leave_the_block_end_it() {
    let advance = Operation::Store(Value::Int64(1), Value::Global(1));
    assert_eq!(lowered(vec![Exit], 1, 0), vec![advance, Operation::Branch(Block(3))]);
    assert_eq!(
        lowered(vec![SkipIfNotOne], 1, 0),
        vec![
            advance,
            call(Function::Pop, None),
            Operation::Compare(Value::Result(1), Compare::Equal, Value::Int64(1)),
            Operation::Switch(Value::Result(2), Block(4), 2),
            Operation::Case(Value::Int1(true), Block(11)),
            Operation::Case(Value::Int1(false), Block(12)),
        ]
    );
    assert_eq!(
        lowered(vec![Jump(Direction::Next, Start::Restart)], 1, 0),
        vec![
            Operation::Store(Value::Int64(0), Value::Global(2)),
            Operation::Branch(Block(102)),
        ]
    );
    assert_eq!(
        lowered(vec![Push(Constant(1)), Jump(Direction::Previous, Start::Continue)], 1, 0),
        vec![
            call(Function::Push, Some(Value::Int64(1))),
            Operation::Branch(Block(100)),
        ]
    );
    assert_eq!(
        lowered(vec![Jump(Direction::Current, Start::Restart)], 1, 2),
        vec![
            Operation::Store(Value::Int64(0), Value::Global(1)),
            Operation::Branch(Block(101)),
        ]
    );
}

#[test]
fn the_sequence_builder_lays_out_sections_before_their_jump_table() {
    let sequences = vec![
        vec![vec![Exit]],
        vec![vec![Push(Constant(1)), SkipIfNotOne], vec![Exit], vec![Exit]],
    ];
    let mut builder = Builder::new();
    let exit = builder.add_block(BlockName::Exit);
    let panic = builder.add_block(BlockName::Panic);
    let made = SequenceBuilder::new(panic, exit);
    assert_eq!((made.panic_block, made.success_block), (panic, exit));
    let blocks = made.build(&mut builder, &sequences);
    assert_eq!(blocks.len(), 2);
    assert_eq!(blocks[0].sections, vec![Block(2)]);
    assert_eq!(blocks[0].jump_table.block, Block(3));
    assert_eq!(blocks[0].jump_table.next_section, Value::Global(0));
    assert_eq!(blocks[1].sections, vec![Block(4), Block(5), Block(6)]);
    assert_eq!(blocks[1].jump_table.block, Block(7));
    assert_eq!(blocks[1].jump_table.next_section, Value::Global(1));
    assert_eq!(builder.block_count(), 8);
    assert_eq!(builder.global_count(), 2);
    assert_eq!(builder.global_value(1), 0);
    assert_eq!(builder.global_name(1), GlobalName::NextSection(1));
    assert_eq!(builder.block_name(Block(5)), BlockName::Section(1, 1));
    assert_eq!(builder.block_name(Block(7)), BlockName::JumpTable(1));
    assert_eq!(
        builder.block_operations(Block(7)),
        &vec![
            Operation::Load(Value::Global(1)),
            Operation::Switch(Value::Result(0), Block(1), 3),
            Operation::Case(Value::Int64(0), Block(4)),
            Operation::Case(Value::Int64(1), Block(5)),
            Operation::Case(Value::Int64(2), Block(6)),
        ]
    );
    assert_eq!(
        builder.block_operations(Block(4)),
        &vec![
            Operation::Store(Value::Int64(1), Value::Global(1)),
            call(Function::Push, Some(Value::Int64(1))),
            call(Function::Pop, None),
            Operation::Compare(Value::Result(2), Compare::Equal, Value::Int64(1)),
            Operation::Switch(Value::Result(3), Block(1), 2),
            Operation::Case(Value::Int1(true), Block(5)),
            Operation::Case(Value::Int1(false), Block(6)),
        ]
    );
    assert!(builder.block_operations(Block(0)).is_empty());
}
