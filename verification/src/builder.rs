//! The target of code generation: basic blocks of primitive operations.
//!
//! A `Builder` collects the blocks of the generated program and its global
//! cells. A `BlockBuilder` collects the operations of one block. An operation
//! names its operands as `Value`s: constants, global cells, and the results of
//! earlier operations of the same block.

use vstd::prelude::*;
use vstd::std_specs::vec::axiom_spec_len;
use crate::syntax::Operator;

verus! {

/// A basic block of the generated program, by its number.
#[derive(Debug, PartialEq, Eq, Clone, Copy, Structural)]
pub struct Block(pub usize);

/// What a basic block is for.
#[derive(Debug, PartialEq, Eq, Clone, Copy, Structural)]
pub enum BlockName {
    /// Gives the stack its first buffer.
    InitStack,
    /// Gives the deque its first buffer.
    InitDeque,
    /// Starts the first line of the source.
    Entry,
    /// Ends the program with success.
    Exit,
    /// Ends the program with a failure.
    Panic,
    /// Dispatches into the sections of a sequence.
    JumpTable(usize),
    /// Runs a section of a sequence.
    Section(usize, usize),
}

/// What a global cell is for.
#[derive(Debug, PartialEq, Eq, Clone, Copy, Structural)]
pub enum GlobalName {
    /// The number of the section that a sequence runs next.
    NextSection(usize),
}

/// An operand or a result.
#[derive(Debug, PartialEq, Eq, Clone, Copy, Structural)]
pub enum Value {
    /// A constant of one bit.
    Int1(bool),
    /// A constant of 32 bits.
    Int32(i32),
    /// A constant of 64 bits.
    Int64(i64),
    /// The address of a global cell, by the cell's number.
    Global(usize),
    /// The result of an operation of the same block, by the operation's
    /// number.
    Result(usize),
}

/// The width of an integer.
#[derive(Debug, PartialEq, Eq, Clone, Copy, Structural)]
pub enum Type {
    I1,
    I32,
    I64,
}

/// A signed comparison.
#[derive(Debug, PartialEq, Eq, Clone, Copy, Structural)]
pub enum Compare {
    Equal,
    Greater,
    GreaterOrEqual,
}

/// A function of the runtime that generated code calls.
#[derive(Debug, PartialEq, Eq, Clone, Copy, Structural)]
pub enum Function {
    /// Moves the stack into a buffer of the given size, unless it has more
    /// cells already.
    StackResize,
    /// Pushes the given value onto the stack.
    Push,
    /// Pops a value from the stack.
    Pop,
    /// Moves the deque into a buffer of the given size, unless it has more
    /// cells already.
    DequeResize,
    /// Inserts the given value at the front of the deque.
    InsertFront,
    /// Inserts the given value at the back of the deque.
    InsertBack,
    /// Removes a value from the front of the deque.
    RemoveFront,
    /// Removes a value from the back of the deque.
    RemoveBack,
    /// Reads a byte from the input, or ends the program when the input has
    /// ended.
    GetChar,
    /// Writes the given value to the output as one character.
    PutChar,
    /// Writes the given value to the output as a decimal number.
    PutI64,
}

impl Function {
    /// Whether the function takes an argument.
    pub open spec fn spec_takes_argument(self) -> bool {
        match self {
            Function::Pop | Function::RemoveFront | Function::RemoveBack | Function::GetChar => false,
            _ => true,
        }
    }

    /// Whether the function takes an argument.
    #[verifier::when_used_as_spec(spec_takes_argument)]
    pub fn takes_argument(self) -> (takes: bool)
        ensures
            takes == self.spec_takes_argument(),
    {
        match self {
            Function::Pop | Function::RemoveFront | Function::RemoveBack | Function::GetChar => false,
            _ => true,
        }
    }

    /// Whether the function returns a value.
    pub open spec fn spec_returns_value(self) -> bool {
        !self.spec_takes_argument()
    }

    /// Whether the function returns a value: those that take no argument do.
    #[verifier::when_used_as_spec(spec_returns_value)]
    pub fn returns_value(self) -> (gives: bool)
        ensures
            gives == self.spec_returns_value(),
    {
        !self.takes_argument()
    }
}

/// One primitive operation of a basic block.
#[derive(Debug, PartialEq, Eq, Clone, Copy, Structural)]
pub enum Operation {
    /// Calls a function of the runtime.
    Call(Function, Option<Value>),
    /// Reads a global cell.
    Load(Value),
    /// Writes a value to a global cell.
    Store(Value, Value),
    /// Applies an arithmetic or bitwise operator.
    Arithmetic(Value, Operator, Value),
    /// Flips every bit.
    BitNot(Value),
    /// Compares two values; the result has one bit.
    Compare(Value, Compare, Value),
    /// Cuts or sign-extends an integer to a width.
    CastInt(Value, Type),
    /// Zero-extends an integer to a width.
    ZeroExtendInt(Value, Type),
    /// Goes on with another block.
    Branch(Block),
    /// Goes on with the block of the case, among those that follow, whose
    /// value the condition equals, or with the default block. Holds the
    /// condition, the default, and the number of cases.
    Switch(Value, Block, usize),
    /// One case of the switch before it: a constant and a block.
    Case(Value, Block),
    /// Ends the program with an exit status.
    ReturnValue(Value),
}

impl Operation {
    /// Whether the operation has a result that later operations may use.
    pub open spec fn spec_has_result(self) -> bool {
        match self {
            Operation::Call(function, _) => function.spec_returns_value(),
            Operation::Load(_) | Operation::Arithmetic(_, _, _) | Operation::BitNot(_)
            | Operation::Compare(_, _, _) | Operation::CastInt(_, _) | Operation::ZeroExtendInt(
                _,
                _,
            ) => true,
            _ => false,
        }
    }

    /// Whether the operation has a result that later operations may use.
    #[verifier::when_used_as_spec(spec_has_result)]
    pub fn has_result(self) -> (has: bool)
        ensures
            has == self.spec_has_result(),
    {
        match self {
            Operation::Call(function, _) => function.returns_value(),
            Operation::Load(_) | Operation::Arithmetic(_, _, _) | Operation::BitNot(_)
            | Operation::Compare(_, _, _) | Operation::CastInt(_, _) | Operation::ZeroExtendInt(
                _,
                _,
            ) => true,
            _ => false,
        }
    }
}

/// Whether the operation at `index` belongs to a switch: the one before it is
/// the switch or another of its cases.
pub open spec fn in_switch(operations: Seq<Operation>, index: int) -> bool {
    index > 0 && (operations[index - 1] is Switch || operations[index - 1] is Case)
}

/// Whether `value` may stand as an operand of the operation at `index`: it is
/// a constant, or the result of an earlier operation that has one.
pub open spec fn valid_operand(operations: Seq<Operation>, index: int, value: Value) -> bool {
    match value {
        Value::Result(earlier) => earlier < index && operations[earlier as int].spec_has_result(),
        Value::Global(_) => false,
        _ => true,
    }
}

/// Whether `value` is the address of one of `globals` global cells.
pub open spec fn valid_address(globals: nat, value: Value) -> bool {
    value matches Value::Global(cell) && cell < globals
}

/// Whether the operation at `index` stays in its block and is well formed,
/// in a program of `globals` global cells: its operands are defined and its
/// address names a cell.
pub open spec fn straight_operation(globals: nat, operations: Seq<Operation>, index: int) -> bool {
    match operations[index] {
        Operation::Call(function, argument) => {
            &&& function.spec_takes_argument() == (argument is Some)
            &&& argument matches Some(value) ==> valid_operand(operations, index, value)
        },
        Operation::Load(address) => valid_address(globals, address),
        Operation::Store(value, address) => {
            &&& valid_operand(operations, index, value)
            &&& valid_address(globals, address)
        },
        Operation::Arithmetic(lhs, _, rhs) => {
            &&& valid_operand(operations, index, lhs)
            &&& valid_operand(operations, index, rhs)
        },
        Operation::BitNot(value) => valid_operand(operations, index, value),
        Operation::Compare(lhs, _, rhs) => {
            &&& valid_operand(operations, index, lhs)
            &&& valid_operand(operations, index, rhs)
        },
        Operation::CastInt(value, _) => valid_operand(operations, index, value),
        Operation::ZeroExtendInt(value, _) => valid_operand(operations, index, value),
        _ => false,
    }
}

/// Whether the operation at `index` is well formed, in a program of `blocks`
/// blocks and `globals` global cells: its operands are defined, its targets
/// exist, a case follows a switch or a case, and a branch, a return or the
/// last case of a switch ends the block.
pub open spec fn valid_operation(
    blocks: nat,
    globals: nat,
    operations: Seq<Operation>,
    index: int,
) -> bool {
    let last = operations.len() - 1;
    &&& (operations[index] is Case) == in_switch(operations, index)
    &&& match operations[index] {
        Operation::Branch(target) => target.0 < blocks && index == last,
        Operation::Switch(condition, default, cases) => {
            &&& valid_operand(operations, index, condition)
            &&& default.0 < blocks
            &&& index + cases == last
        },
        Operation::Case(constant, target) => {
            &&& constant is Int1 || constant is Int64
            &&& target.0 < blocks
        },
        Operation::ReturnValue(value) => value is Int32 && index == last,
        _ => straight_operation(globals, operations, index) && index < last,
    }
}

/// Whether a block is well formed: it has operations, and each of them is
/// well formed.
pub open spec fn valid_block(blocks: nat, globals: nat, operations: Seq<Operation>) -> bool {
    &&& operations.len() > 0
    &&& forall|index: int|
        0 <= index < operations.len() ==> #[trigger] valid_operation(
            blocks,
            globals,
            operations,
            index,
        )
}

/// Whether a program is well formed: each of its blocks is.
pub open spec fn valid_blocks(blocks: Seq<Seq<Operation>>, globals: nat) -> bool {
    forall|block: int|
        0 <= block < blocks.len() ==> #[trigger] valid_block(blocks.len(), globals, blocks[block])
}

/// The operations of one block, in the making.
pub struct BlockBuilder {
    operations: Vec<Operation>,
}

impl View for BlockBuilder {
    type V = Seq<Operation>;

    closed spec fn view(&self) -> Seq<Operation> {
        self.operations@
    }
}

impl BlockBuilder {
    /// A block without operations.
    pub fn new() -> (block: BlockBuilder)
        ensures
            block@ == Seq::<Operation>::empty(),
    {
        BlockBuilder { operations: Vec::new() }
    }

    /// Appends an operation; returns its result.
    pub fn build(&mut self, operation: Operation) -> (result: Value)
        ensures
            final(self)@ == old(self)@.push(operation),
            result == Value::Result(old(self)@.len() as usize),
    {
        let index = self.operations.len();
        self.operations.push(operation);
        Value::Result(index)
    }

    /// The number of operations so far.
    pub fn len(&self) -> (length: usize)
        ensures
            length == self@.len(),
    {
        self.operations.len()
    }

    /// Calls a function of the runtime.
    pub fn call_function(&mut self, function: Function, argument: Option<Value>) -> (result: Value)
        ensures
            final(self)@ == old(self)@.push(Operation::Call(function, argument)),
            result == Value::Result(old(self)@.len() as usize),
    {
        self.build(Operation::Call(function, argument))
    }

    /// Ends the program with an exit status.
    pub fn return_value(&mut self, value: Value) -> (result: Value)
        ensures
            final(self)@ == old(self)@.push(Operation::ReturnValue(value)),
            result == Value::Result(old(self)@.len() as usize),
    {
        self.build(Operation::ReturnValue(value))
    }

    /// Goes on with another block.
    pub fn branch(&mut self, target: Block) -> (result: Value)
        ensures
            final(self)@ == old(self)@.push(Operation::Branch(target)),
            result == Value::Result(old(self)@.len() as usize),
    {
        self.build(Operation::Branch(target))
    }

    /// Goes on with the block of the case that `condition` equals, or with
    /// `default`: a switch, followed by its cases in order.
    pub fn switch(&mut self, condition: Value, cases: &Vec<(Value, Block)>, default: Block)
        ensures
            final(self)@ == old(self)@ + switch_operations(condition, cases@, default),
    {
        let ghost before = self@;
        self.build(Operation::Switch(condition, default, cases.len()));
        let mut index: usize = 0;
        assert(self@ =~= before + switch_operations(condition, cases@, default).take(1));
        while index < cases.len()
            invariant
                index <= cases.len(),
                self@ == before + switch_operations(condition, cases@, default).take(index + 1),
            decreases cases.len() - index,
        {
            let case = cases[index];
            self.build(Operation::Case(case.0, case.1));
            assert(self@ =~= before + switch_operations(condition, cases@, default).take(
                index + 2,
            ));
            index += 1;
        }
        assert(switch_operations(condition, cases@, default).take(index + 1)
            =~= switch_operations(condition, cases@, default));
    }

    /// Reads a global cell.
    pub fn load(&mut self, address: Value) -> (result: Value)
        ensures
            final(self)@ == old(self)@.push(Operation::Load(address)),
            result == Value::Result(old(self)@.len() as usize),
    {
        self.build(Operation::Load(address))
    }

    /// Writes a value to a global cell.
    pub fn store(&mut self, value: Value, target: Value) -> (result: Value)
        ensures
            final(self)@ == old(self)@.push(Operation::Store(value, target)),
            result == Value::Result(old(self)@.len() as usize),
    {
        self.build(Operation::Store(value, target))
    }

    /// Applies an arithmetic or bitwise operator.
    pub fn arithmetic(&mut self, lhs: Value, operator: Operator, rhs: Value) -> (result: Value)
        ensures
            final(self)@ == old(self)@.push(Operation::Arithmetic(lhs, operator, rhs)),
            result == Value::Result(old(self)@.len() as usize),
    {
        self.build(Operation::Arithmetic(lhs, operator, rhs))
    }

    /// Adds two values; the sum wraps round.
    pub fn add(&mut self, lhs: Value, rhs: Value) -> (result: Value)
        ensures
            final(self)@ == old(self)@.push(Operation::Arithmetic(lhs, Operator::Add, rhs)),
            result == Value::Result(old(self)@.len() as usize),
    {
        self.build(Operation::Arithmetic(lhs, Operator::Add, rhs))
    }

    /// Subtracts `rhs` from `lhs`; the difference wraps round.
    pub fn sub(&mut self, lhs: Value, rhs: Value) -> (result: Value)
        ensures
            final(self)@ == old(self)@.push(Operation::Arithmetic(lhs, Operator::Sub, rhs)),
            result == Value::Result(old(self)@.len() as usize),
    {
        self.build(Operation::Arithmetic(lhs, Operator::Sub, rhs))
    }

    /// Multiplies two values; the product wraps round.
    pub fn mul(&mut self, lhs: Value, rhs: Value) -> (result: Value)
        ensures
            final(self)@ == old(self)@.push(Operation::Arithmetic(lhs, Operator::Mul, rhs)),
            result == Value::Result(old(self)@.len() as usize),
    {
        self.build(Operation::Arithmetic(lhs, Operator::Mul, rhs))
    }

    /// Divides `lhs` by `rhs`, rounding towards zero.
    pub fn div(&mut self, lhs: Value, rhs: Value) -> (result: Value)
        ensures
            final(self)@ == old(self)@.push(Operation::Arithmetic(lhs, Operator::Div, rhs)),
            result == Value::Result(old(self)@.len() as usize),
    {
        self.build(Operation::Arithmetic(lhs, Operator::Div, rhs))
    }

    /// The remainder of `lhs` divided by `rhs`, with the sign of `lhs`.
    pub fn modulo(&mut self, lhs: Value, rhs: Value) -> (result: Value)
        ensures
            final(self)@ == old(self)@.push(Operation::Arithmetic(lhs, Operator::Mod, rhs)),
            result == Value::Result(old(self)@.len() as usize),
    {
        self.build(Operation::Arithmetic(lhs, Operator::Mod, rhs))
    }

    /// Bitwise AND.
    pub fn bit_and(&mut self, lhs: Value, rhs: Value) -> (result: Value)
        ensures
            final(self)@ == old(self)@.push(Operation::Arithmetic(lhs, Operator::And, rhs)),
            result == Value::Result(old(self)@.len() as usize),
    {
        self.build(Operation::Arithmetic(lhs, Operator::And, rhs))
    }

    /// Bitwise OR.
    pub fn bit_or(&mut self, lhs: Value, rhs: Value) -> (result: Value)
        ensures
            final(self)@ == old(self)@.push(Operation::Arithmetic(lhs, Operator::Or, rhs)),
            result == Value::Result(old(self)@.len() as usize),
    {
        self.build(Operation::Arithmetic(lhs, Operator::Or, rhs))
    }

    /// Bitwise XOR.
    pub fn bit_xor(&mut self, lhs: Value, rhs: Value) -> (result: Value)
        ensures
            final(self)@ == old(self)@.push(Operation::Arithmetic(lhs, Operator::Xor, rhs)),
            result == Value::Result(old(self)@.len() as usize),
    {
        self.build(Operation::Arithmetic(lhs, Operator::Xor, rhs))
    }

    /// Flips every bit.
    pub fn bit_not(&mut self, value: Value) -> (result: Value)
        ensures
            final(self)@ == old(self)@.push(Operation::BitNot(value)),
            result == Value::Result(old(self)@.len() as usize),
    {
        self.build(Operation::BitNot(value))
    }

    /// Compares two values.
    pub fn compare(&mut self, lhs: Value, comparison: Compare, rhs: Value) -> (result: Value)
        ensures
            final(self)@ == old(self)@.push(Operation::Compare(lhs, comparison, rhs)),
            result == Value::Result(old(self)@.len() as usize),
    {
        self.build(Operation::Compare(lhs, comparison, rhs))
    }

    /// Cuts or sign-extends an integer to a width.
    pub fn cast_int(&mut self, value: Value, target: Type) -> (result: Value)
        ensures
            final(self)@ == old(self)@.push(Operation::CastInt(value, target)),
            result == Value::Result(old(self)@.len() as usize),
    {
        self.build(Operation::CastInt(value, target))
    }

    /// Zero-extends an integer to a width.
    pub fn zero_extend_int(&mut self, value: Value, target: Type) -> (result: Value)
        ensures
            final(self)@ == old(self)@.push(Operation::ZeroExtendInt(value, target)),
            result == Value::Result(old(self)@.len() as usize),
    {
        self.build(Operation::ZeroExtendInt(value, target))
    }

    /// The operations, in order.
    pub fn operations(&self) -> (operations: &Vec<Operation>)
        ensures
            operations@ == self@,
    {
        &self.operations
    }
}

/// A switch and its cases as operations.
pub open spec fn switch_operations(
    condition: Value,
    cases: Seq<(Value, Block)>,
    default: Block,
) -> Seq<Operation> {
    Seq::new(
        cases.len() + 1,
        |i: int|
            if i == 0 {
                Operation::Switch(condition, default, cases.len() as usize)
            } else {
                Operation::Case(cases[i - 1].0, cases[i - 1].1)
            },
    )
}

/// A constant of one bit.
pub fn i1_value(n: bool) -> (value: Value)
    ensures
        value == Value::Int1(n),
{
    Value::Int1(n)
}

/// A constant of 32 bits.
pub fn i32_value(n: i32) -> (value: Value)
    ensures
        value == Value::Int32(n),
{
    Value::Int32(n)
}

/// A constant of 64 bits.
pub fn i64_value(n: i64) -> (value: Value)
    ensures
        value == Value::Int64(n),
{
    Value::Int64(n)
}

/// The type of integers of one bit.
pub fn i1_type() -> (kind: Type)
    ensures
        kind == Type::I1,
{
    Type::I1
}

/// The type of integers of 32 bits.
pub fn i32_type() -> (kind: Type)
    ensures
        kind == Type::I32,
{
    Type::I32
}

/// The type of integers of 64 bits.
pub fn i64_type() -> (kind: Type)
    ensures
        kind == Type::I64,
{
    Type::I64
}

/// The generated program in the making: its basic blocks and global cells.
pub struct Builder {
    names: Vec<BlockName>,
    blocks: Vec<Vec<Operation>>,
    cells: Vec<GlobalName>,
    initial: Vec<i64>,
}

impl Builder {
    /// Every block has a name and every global cell an initial value.
    pub closed spec fn wf(&self) -> bool {
        &&& self.names@.len() == self.blocks@.len()
        &&& self.cells@.len() == self.initial@.len()
    }

    /// The operations of each block.
    pub closed spec fn blocks(&self) -> Seq<Seq<Operation>> {
        Seq::new(self.blocks@.len(), |i: int| self.blocks@[i]@)
    }

    /// The name of each block.
    pub closed spec fn names(&self) -> Seq<BlockName> {
        self.names@
    }

    /// The initial value of each global cell.
    pub closed spec fn globals(&self) -> Seq<i64> {
        self.initial@
    }

    /// The name of each global cell.
    pub closed spec fn global_names(&self) -> Seq<GlobalName> {
        self.cells@
    }

    /// Whether the program is well formed.
    pub open spec fn valid(&self) -> bool {
        valid_blocks(self.blocks(), self.globals().len())
    }

    /// The number of blocks and the number of operations of each block fit
    /// in a machine word; every block has a name and every global cell too.
    pub proof fn lemma_sizes(&self)
        ensures
            self.wf() ==> self.names().len() == self.blocks().len() && self.global_names().len()
                == self.globals().len(),
            self.blocks().len() <= usize::MAX,
            self.globals().len() <= usize::MAX,
            forall|block: int|
                0 <= block < self.blocks().len() ==> (#[trigger] self.blocks()[block]).len()
                    <= usize::MAX,
    {
        axiom_spec_len(&self.blocks);
        axiom_spec_len(&self.initial);
        assert forall|block: int| 0 <= block < self.blocks().len() implies (#[trigger] self.blocks()[block]).len()
            <= usize::MAX by {
            axiom_spec_len(&self.blocks@[block]);
        }
    }

    /// A program without blocks or global cells.
    pub fn new() -> (builder: Builder)
        ensures
            builder.wf(),
            builder.blocks() == Seq::<Seq<Operation>>::empty(),
            builder.names() == Seq::<BlockName>::empty(),
            builder.globals() == Seq::<i64>::empty(),
            builder.global_names() == Seq::<GlobalName>::empty(),
    {
        let builder = Builder {
            names: Vec::new(),
            blocks: Vec::new(),
            cells: Vec::new(),
            initial: Vec::new(),
        };
        assert(builder.blocks() =~= Seq::<Seq<Operation>>::empty());
        builder
    }

    /// Adds a global cell with its initial value; returns its address.
    pub fn add_global_variable(&mut self, name: GlobalName, value: i64) -> (address: Value)
        requires
            old(self).wf(),
        ensures
            final(self).wf(),
            address matches Value::Global(cell) && cell == old(self).globals().len(),
            final(self).globals() == old(self).globals().push(value),
            final(self).global_names() == old(self).global_names().push(name),
            final(self).blocks() == old(self).blocks(),
            final(self).names() == old(self).names(),
    {
        let index = self.initial.len();
        self.cells.push(name);
        self.initial.push(value);
        assert(self.blocks() =~= old(self).blocks());
        Value::Global(index)
    }

    /// Adds a block without operations.
    pub fn add_block(&mut self, name: BlockName) -> (block: Block)
        requires
            old(self).wf(),
        ensures
            final(self).wf(),
            block.0 == old(self).blocks().len(),
            final(self).blocks() == old(self).blocks().push(Seq::empty()),
            final(self).names() == old(self).names().push(name),
            final(self).globals() == old(self).globals(),
            final(self).global_names() == old(self).global_names(),
    {
        let index = self.blocks.len();
        self.names.push(name);
        self.blocks.push(Vec::new());
        assert(self.blocks() =~= old(self).blocks().push(Seq::empty()));
        Block(index)
    }

    /// Appends the operations of `body` to a block.
    pub fn build_block(&mut self, block: Block, body: BlockBuilder)
        requires
            old(self).wf(),
            block.0 < old(self).blocks().len(),
        ensures
            final(self).wf(),
            final(self).blocks() == old(self).blocks().update(
                block.0 as int,
                old(self).blocks()[block.0 as int] + body@,
            ),
            final(self).names() == old(self).names(),
            final(self).globals() == old(self).globals(),
            final(self).global_names() == old(self).global_names(),
    {
        let mut operations: Vec<Operation> = Vec::new();
        let present = &self.blocks[block.0];
        let mut index: usize = 0;
        while index < present.len()
            invariant
                index <= present.len(),
                operations@ == present@.take(index as int),
            decreases present.len() - index,
        {
            operations.push(present[index]);
            assert(present@.take(index + 1) =~= present@.take(index as int).push(
                present@[index as int],
            ));
            index += 1;
        }
        assert(present@.take(index as int) =~= present@);
        let added = body.operations();
        let mut index: usize = 0;
        while index < added.len()
            invariant
                index <= added.len(),
                operations@ == present@ + added@.take(index as int),
            decreases added.len() - index,
        {
            operations.push(added[index]);
            assert(present@ + added@.take(index + 1) =~= (present@ + added@.take(
                index as int,
            )).push(added@[index as int]));
            index += 1;
        }
        assert(added@.take(index as int) =~= added@);
        self.blocks.set(block.0, operations);
        assert(self.blocks() =~= old(self).blocks().update(
            block.0 as int,
            old(self).blocks()[block.0 as int] + body@,
        ));
    }

    /// The number of blocks.
    pub fn block_count(&self) -> (count: usize)
        requires
            self.wf(),
        ensures
            count == self.blocks().len(),
            count == self.names().len(),
    {
        self.blocks.len()
    }

    /// The name of a block.
    pub fn block_name(&self, block: Block) -> (name: BlockName)
        requires
            self.wf(),
            block.0 < self.blocks().len(),
        ensures
            name == self.names()[block.0 as int],
    {
        self.names[block.0]
    }

    /// The operations of a block, in order.
    pub fn block_operations(&self, block: Block) -> (operations: &Vec<Operation>)
        requires
            self.wf(),
            block.0 < self.blocks().len(),
        ensures
            operations@ == self.blocks()[block.0 as int],
    {
        &self.blocks[block.0]
    }

    /// The number of global cells.
    pub fn global_count(&self) -> (count: usize)
        requires
            self.wf(),
        ensures
            count == self.globals().len(),
            count == self.global_names().len(),
    {
        self.initial.len()
    }

    /// The name of a global cell.
    pub fn global_name(&self, cell: usize) -> (name: GlobalName)
        requires
            self.wf(),
            cell < self.globals().len(),
        ensures
            name == self.global_names()[cell as int],
    {
        self.cells[cell]
    }

    /// The initial value of a global cell.
    pub fn global_value(&self, cell: usize) -> (value: i64)
        requires
            self.wf(),
            cell < self.globals().len(),
        ensures
            value == self.globals()[cell as int],
    {
        self.initial[cell]
    }

    /// Whether the program is well formed: every block has operations and
    /// ends in a branch, a switch or a return, and every operation names
    /// operands, global cells and blocks that exist.
    pub fn is_working(&self) -> (working: bool)
        requires
            self.wf(),
        ensures
            working == self.valid(),
    {
        let blocks = self.blocks.len();
        let globals = self.initial.len();
        let mut block: usize = 0;
        while block < blocks
            invariant
                block <= blocks == self.blocks().len(),
                globals == self.globals().len(),
                forall|earlier: int|
                    0 <= earlier < block ==> #[trigger] valid_block(
                        blocks as nat,
                        globals as nat,
                        self.blocks()[earlier],
                    ),
            decreases blocks - block,
        {
            let operations = &self.blocks[block];
            assert(operations@ == self.blocks()[block as int]);
            if operations.len() == 0 {
                assert(!valid_block(blocks as nat, globals as nat, self.blocks()[block as int]));
                return false;
            }
            let mut index: usize = 0;
            while index < operations.len()
                invariant
                    index <= operations.len(),
                    block < blocks == self.blocks().len(),
                    globals == self.globals().len(),
                    operations@ == self.blocks()[block as int],
                    forall|earlier: int|
                        0 <= earlier < index ==> #[trigger] valid_operation(
                            blocks as nat,
                            globals as nat,
                            operations@,
                            earlier,
                        ),
                decreases operations.len() - index,
            {
                if !check_operation(blocks, globals, operations, index) {
                    assert(!valid_block(blocks as nat, globals as nat, operations@));
                    return false;
                }
                index += 1;
            }
            block += 1;
        }
        true
    }
}

/// Whether `value` may stand as an operand of the operation at `index`.
fn check_operand(operations: &Vec<Operation>, index: usize, value: Value) -> (valid: bool)
    requires
        index < operations.len(),
    ensures
        valid == valid_operand(operations@, index as int, value),
{
    match value {
        Value::Result(earlier) => earlier < index && operations[earlier].has_result(),
        Value::Global(_) => false,
        _ => true,
    }
}

/// Whether `value` is the address of one of `globals` global cells.
fn check_address(globals: usize, value: Value) -> (valid: bool)
    ensures
        valid == valid_address(globals as nat, value),
{
    match value {
        Value::Global(cell) => cell < globals,
        _ => false,
    }
}

/// Whether the operation at `index` is well formed.
fn check_operation(blocks: usize, globals: usize, operations: &Vec<Operation>, index: usize) -> (valid:
    bool)
    requires
        index < operations.len(),
    ensures
        valid == valid_operation(blocks as nat, globals as nat, operations@, index as int),
{
    let last = operations.len() - 1;
    let follows_switch = index > 0 && match operations[index - 1] {
        Operation::Switch(_, _, _) | Operation::Case(_, _) => true,
        _ => false,
    };
    let is_case = match operations[index] {
        Operation::Case(_, _) => true,
        _ => false,
    };
    if is_case != follows_switch {
        return false;
    }
    match operations[index] {
        Operation::Call(function, argument) => {
            let fits = match argument {
                Some(value) => function.takes_argument() && check_operand(operations, index, value),
                None => !function.takes_argument(),
            };
            fits && index < last
        },
        Operation::Load(address) => check_address(globals, address) && index < last,
        Operation::Store(value, address) => check_operand(operations, index, value)
            && check_address(globals, address) && index < last,
        Operation::Arithmetic(lhs, _, rhs) => check_operand(operations, index, lhs)
            && check_operand(operations, index, rhs) && index < last,
        Operation::BitNot(value) => check_operand(operations, index, value) && index < last,
        Operation::Compare(lhs, _, rhs) => check_operand(operations, index, lhs) && check_operand(
            operations,
            index,
            rhs,
        ) && index < last,
        Operation::CastInt(value, _) => check_operand(operations, index, value) && index < last,
        Operation::ZeroExtendInt(value, _) => check_operand(operations, index, value) && index
            < last,
        Operation::Branch(target) => target.0 < blocks && index == last,
        Operation::Switch(condition, default, cases) => check_operand(operations, index, condition)
            && default.0 < blocks && cases <= last && index == last - cases,
        Operation::Case(constant, target) => {
            let constant_fits = match constant {
                Value::Int1(_) | Value::Int64(_) => true,
                _ => false,
            };
            constant_fits && target.0 < blocks
        },
        Operation::ReturnValue(value) => {
            let status_fits = match value {
                Value::Int32(_) => true,
                _ => false,
            };
            status_fits && index == last
        },
    }
}

} // verus!
