//! The machine that runs generated programs: one value that holds the stack,
//! the deque, the cursors and the place reached, advanced one operation at a
//! time.
//!
//! The machine does no input or output itself. A step hands back an `Action`
//! that says what the caller is to write or read; a byte that was read is
//! handed to the next step as its `Input`.

use vstd::prelude::*;
use crate::builder::{Block, Builder, Compare, Function, Operation, Type, Value};
use crate::deque::Deque;
use crate::failure::Failure;
use crate::operation::{
    bitwise_not, can_operate, is_defined, operation_result, perform_operation,
};
use crate::stack::{can_take, grown_capacity, Stack};
use crate::syntax::Operator;
use crate::text::{decimal, number_text};

verus! {

/// What a step is given from the input.
#[derive(Debug, PartialEq, Eq, Clone, Copy, Structural)]
pub enum Input {
    /// Nothing: no byte was asked for, or none has been read yet.
    Nothing,
    /// The byte that was read.
    Byte(u8),
    /// The input has ended.
    End,
}

/// What the caller is to do after a step.
#[derive(Debug, PartialEq, Eq, Clone, Copy, Structural)]
pub enum Action {
    /// Nothing but the next step.
    Continue,
    /// Write this byte to the output.
    PutChar(u8),
    /// Write this number to the output, in decimal.
    PutNumber(i64),
    /// Read a byte from the input and hand it to the next step.
    GetChar,
    /// End the process with this exit status.
    Exit(i32),
}

/// The state of the machine as a mathematical value.
pub struct State {
    /// The values on the stack, the top last.
    pub stack: Seq<i64>,
    /// The values in the deque, from the back to the front.
    pub deque: Seq<i64>,
    /// The number of cells of the buffer of the stack.
    pub stack_capacity: nat,
    /// The number of cells of the buffer of the deque.
    pub deque_capacity: nat,
    /// The global cells: the cursor of each sequence.
    pub cursors: Seq<i64>,
    /// The number of the block that is running.
    pub block: int,
    /// The results of the operations of the block that have run, in order; an
    /// operation without a result has 0.
    pub registers: Seq<i64>,
    /// The exit status, once the program has ended.
    pub status: Option<i32>,
}

/// The value that an operand stands for, if it is defined.
pub open spec fn value_of(registers: Seq<i64>, value: Value) -> Option<i64> {
    match value {
        Value::Int1(bit) => Some(
            if bit {
                1i64
            } else {
                0i64
            },
        ),
        Value::Int32(constant) => Some(constant as i64),
        Value::Int64(constant) => Some(constant),
        Value::Result(index) => if index < registers.len() {
            Some(registers[index as int])
        } else {
            None
        },
        Value::Global(_) => None,
    }
}

/// The number of the global cell that an address stands for, if there is
/// such a cell.
pub open spec fn cell_of(cursors: Seq<i64>, address: Value) -> Option<int> {
    match address {
        Value::Global(cell) => if cell < cursors.len() {
            Some(cell as int)
        } else {
            None
        },
        _ => None,
    }
}

/// The outcome of a comparison: 1 if it holds, else 0.
pub open spec fn comparison_result(lhs: i64, comparison: Compare, rhs: i64) -> i64 {
    let holds = match comparison {
        Compare::Equal => lhs == rhs,
        Compare::Greater => lhs > rhs,
        Compare::GreaterOrEqual => lhs >= rhs,
    };
    if holds {
        1
    } else {
        0
    }
}

/// An integer cut or sign-extended to a width.
pub open spec fn cast_result(value: i64, target: Type) -> i64 {
    match target {
        Type::I1 => value & 1,
        Type::I32 => (value as i32) as i64,
        Type::I64 => value,
    }
}

/// The state after the program has ended with `failure`, and the action that
/// reports it.
pub open spec fn failed(state: State, failure: Failure) -> (State, Action) {
    (State { status: Some(failure.spec_status()), ..state }, Action::Exit(failure.spec_status()))
}

/// The state after an operation with this result, and the action that asks
/// for the next step.
pub open spec fn done(state: State, result: i64) -> (State, Action) {
    (State { registers: state.registers.push(result), ..state }, Action::Continue)
}

/// The state after the machine has gone to the start of another block.
pub open spec fn gone_to(state: State, target: Block) -> (State, Action) {
    (State { block: target.0 as int, registers: Seq::empty(), ..state }, Action::Continue)
}

/// Whether a container with `length` values can take one more, whatever its
/// capacity.
pub open spec fn has_room(length: nat) -> bool {
    length <= usize::MAX / 2
}

/// The capacity of a container after it was asked to move into a buffer of
/// `size` cells: `size`, unless that is no size or the container has more
/// cells already.
pub open spec fn resized_capacity(capacity: nat, size: i64) -> nat {
    if capacity <= size <= usize::MAX {
        size as nat
    } else {
        capacity
    }
}

/// One call of a function of the runtime.
#[verifier::opaque]
pub open spec fn call_step(
    state: State,
    function: Function,
    argument: Option<i64>,
    input: Input,
) -> (State, Action) {
    match (function, argument) {
        (Function::StackResize, Some(size)) => done(
            State { stack_capacity: resized_capacity(state.stack_capacity, size), ..state },
            0,
        ),
        (Function::DequeResize, Some(size)) => done(
            State { deque_capacity: resized_capacity(state.deque_capacity, size), ..state },
            0,
        ),
        (Function::Push, Some(value)) => if can_take(state.stack.len(), state.stack_capacity) {
            done(
                State {
                    stack: state.stack.push(value),
                    stack_capacity: grown_capacity(state.stack.len(), state.stack_capacity),
                    ..state
                },
                0,
            )
        } else {
            failed(state, Failure::OutOfMemory)
        },
        (Function::Pop, None) => if state.stack.len() > 0 {
            done(State { stack: state.stack.drop_last(), ..state }, state.stack.last())
        } else {
            failed(state, Failure::StackUnderflow)
        },
        (Function::InsertFront, Some(value)) => if can_take(
            state.deque.len(),
            state.deque_capacity,
        ) {
            done(
                State {
                    deque: state.deque.push(value),
                    deque_capacity: grown_capacity(state.deque.len(), state.deque_capacity),
                    ..state
                },
                0,
            )
        } else {
            failed(state, Failure::OutOfMemory)
        },
        (Function::InsertBack, Some(value)) => if can_take(
            state.deque.len(),
            state.deque_capacity,
        ) {
            done(
                State {
                    deque: seq![value] + state.deque,
                    deque_capacity: grown_capacity(state.deque.len(), state.deque_capacity),
                    ..state
                },
                0,
            )
        } else {
            failed(state, Failure::OutOfMemory)
        },
        (Function::RemoveFront, None) => if state.deque.len() > 0 {
            done(State { deque: state.deque.drop_last(), ..state }, state.deque.last())
        } else {
            failed(state, Failure::DequeUnderflow)
        },
        (Function::RemoveBack, None) => if state.deque.len() > 0 {
            done(
                State { deque: state.deque.subrange(1, state.deque.len() as int), ..state },
                state.deque.first(),
            )
        } else {
            failed(state, Failure::DequeUnderflow)
        },
        (Function::GetChar, None) => match input {
            Input::Nothing => (state, Action::GetChar),
            Input::Byte(byte) => done(state, byte as i64),
            Input::End => failed(state, Failure::EndOfInput),
        },
        (Function::PutChar, Some(value)) => (done(state, 0).0, Action::PutChar(value as u8)),
        (Function::PutI64, Some(value)) => (done(state, 0).0, Action::PutNumber(value)),
        _ => failed(state, Failure::Panic),
    }
}

/// The block that a switch goes on with: that of the first of the `cases`
/// operations from `first` on which is a case of this value, or the default.
pub open spec fn switch_target(
    operations: Seq<Operation>,
    registers: Seq<i64>,
    first: int,
    cases: nat,
    value: i64,
    default: Block,
) -> Block
    decreases cases,
{
    if cases == 0 || first < 0 || first >= operations.len() {
        default
    } else {
        match operations[first] {
            Operation::Case(constant, target) => if value_of(registers, constant) == Some(value) {
                target
            } else {
                switch_target(operations, registers, first + 1, (cases - 1) as nat, value, default)
            },
            _ => switch_target(operations, registers, first + 1, (cases - 1) as nat, value, default),
        }
    }
}

/// One operation.
#[verifier::opaque]
pub open spec fn operation_step(
    operations: Seq<Operation>,
    state: State,
    operation: Operation,
    input: Input,
) -> (State, Action) {
    let registers = state.registers;
    match operation {
        Operation::Call(function, argument) => match argument {
            None => call_step(state, function, None, input),
            Some(value) => match value_of(registers, value) {
                Some(argument) => call_step(state, function, Some(argument), input),
                None => failed(state, Failure::Panic),
            },
        },
        Operation::Load(address) => match cell_of(state.cursors, address) {
            Some(cell) => done(state, state.cursors[cell]),
            None => failed(state, Failure::Panic),
        },
        Operation::Store(value, address) => match (
            value_of(registers, value),
            cell_of(state.cursors, address),
        ) {
            (Some(value), Some(cell)) => done(
                State { cursors: state.cursors.update(cell, value), ..state },
                0,
            ),
            _ => failed(state, Failure::Panic),
        },
        Operation::Arithmetic(lhs, operator, rhs) => match (
            value_of(registers, lhs),
            value_of(registers, rhs),
        ) {
            (Some(lhs), Some(rhs)) => if is_defined(operator, rhs) {
                done(state, operation_result(lhs, operator, rhs))
            } else {
                failed(state, Failure::DivisionByZero)
            },
            _ => failed(state, Failure::Panic),
        },
        Operation::BitNot(value) => match value_of(registers, value) {
            Some(value) => done(state, bitwise_not(value)),
            None => failed(state, Failure::Panic),
        },
        Operation::Compare(lhs, comparison, rhs) => match (
            value_of(registers, lhs),
            value_of(registers, rhs),
        ) {
            (Some(lhs), Some(rhs)) => done(state, comparison_result(lhs, comparison, rhs)),
            _ => failed(state, Failure::Panic),
        },
        Operation::CastInt(value, target) => match value_of(registers, value) {
            Some(value) => done(state, cast_result(value, target)),
            None => failed(state, Failure::Panic),
        },
        Operation::ZeroExtendInt(value, _) => match value_of(registers, value) {
            Some(value) => done(state, value),
            None => failed(state, Failure::Panic),
        },
        Operation::Branch(target) => gone_to(state, target),
        Operation::Switch(condition, default, cases) => match value_of(registers, condition) {
            Some(value) => gone_to(
                state,
                switch_target(
                    operations,
                    registers,
                    registers.len() as int + 1,
                    cases as nat,
                    value,
                    default,
                ),
            ),
            None => failed(state, Failure::Panic),
        },
        Operation::Case(_, _) => failed(state, Failure::Panic),
        Operation::ReturnValue(value) => match value_of(registers, value) {
            Some(status) => (
                State { status: Some(status as i32), ..state },
                Action::Exit(status as i32),
            ),
            None => failed(state, Failure::Panic),
        },
    }
}

/// One step of the machine on a program with these blocks: the operation
/// that the machine has reached, or nothing once the program has ended. A
/// place that does not exist ends the program with a panic.
pub open spec fn step(blocks: Seq<Seq<Operation>>, state: State, input: Input) -> (State, Action) {
    if state.status is Some {
        (state, Action::Exit(state.status->0))
    } else if !(0 <= state.block < blocks.len()) || state.registers.len()
        >= blocks[state.block].len() {
        failed(state, Failure::Panic)
    } else {
        let operations = blocks[state.block];
        operation_step(operations, state, operations[state.registers.len() as int], input)
    }
}

/// The state in which a program with these global cells starts: at its first
/// block, with nothing in its containers.
pub open spec fn initial_state(globals: Seq<i64>) -> State {
    State {
        stack: Seq::empty(),
        deque: Seq::empty(),
        stack_capacity: 0,
        deque_capacity: 0,
        cursors: globals,
        block: 0,
        registers: Seq::empty(),
        status: None,
    }
}

/// The machine context: everything that a running program has.
pub struct Machine {
    stack: Stack,
    deque: Deque,
    cursors: Vec<i64>,
    block: usize,
    registers: Vec<i64>,
    status: Option<i32>,
}

impl View for Machine {
    type V = State;

    closed spec fn view(&self) -> State {
        State {
            stack: self.stack@,
            deque: self.deque@,
            stack_capacity: self.stack.spec_capacity() as nat,
            deque_capacity: self.deque.spec_capacity() as nat,
            cursors: self.cursors@,
            block: self.block as int,
            registers: self.registers@,
            status: self.status,
        }
    }
}

impl Machine {
    /// The containers of the machine are well formed.
    pub closed spec fn wf(&self) -> bool {
        self.stack.wf() && self.deque.wf()
    }

    /// The containers of a machine hold no more values than their buffers
    /// have cells.
    pub proof fn lemma_view(&self)
        requires
            self.wf(),
        ensures
            self@.stack.len() <= self@.stack_capacity,
            self@.deque.len() <= self@.deque_capacity,
    {
        self.stack.lemma_view();
        self.deque.lemma_view();
    }

    /// A machine at the start of a program.
    pub fn new(program: &Builder) -> (machine: Machine)
        requires
            program.wf(),
        ensures
            machine.wf(),
            machine@ == initial_state(program.globals()),
    {
        let mut cursors: Vec<i64> = Vec::new();
        let count = program.global_count();
        let mut cell: usize = 0;
        while cell < count
            invariant
                program.wf(),
                cell <= count == program.globals().len(),
                cursors@ == program.globals().take(cell as int),
            decreases count - cell,
        {
            cursors.push(program.global_value(cell));
            assert(cursors@ =~= program.globals().take(cell + 1));
            cell += 1;
        }
        assert(program.globals().take(cell as int) =~= program.globals());
        Machine {
            stack: Stack::new(),
            deque: Deque::with_capacity(0),
            cursors,
            block: 0,
            registers: Vec::new(),
            status: None,
        }
    }

    /// The exit status, once the program has ended.
    pub fn status(&self) -> (status: Option<i32>)
        ensures
            status == self@.status,
    {
        self.status
    }

    /// The number of values on the stack.
    pub fn stack_len(&self) -> (length: usize)
        requires
            self.wf(),
        ensures
            length == self@.stack.len(),
    {
        self.stack.len()
    }

    /// The number of cells of the buffer of the stack.
    pub fn stack_capacity(&self) -> (capacity: usize)
        requires
            self.wf(),
        ensures
            capacity == self@.stack_capacity,
    {
        self.stack.capacity()
    }

    /// The number of cells of the buffer of the deque.
    pub fn deque_capacity(&self) -> (capacity: usize)
        requires
            self.wf(),
        ensures
            capacity == self@.deque_capacity,
    {
        self.deque.capacity()
    }

    /// The number of values in the deque.
    pub fn deque_len(&self) -> (length: usize)
        requires
            self.wf(),
        ensures
            length == self@.deque.len(),
    {
        self.deque.len()
    }

    /// The value of a global cell.
    pub fn cursor(&self, cell: usize) -> (value: Option<i64>)
        ensures
            value == if cell < self@.cursors.len() {
                Some(self@.cursors[cell as int])
            } else {
                None
            },
    {
        if cell < self.cursors.len() {
            Some(self.cursors[cell])
        } else {
            None
        }
    }

    /// The block that is running.
    pub fn block(&self) -> (block: Block)
        ensures
            block.0 == self@.block,
    {
        Block(self.block)
    }

    /// The value that an operand stands for.
    fn value(&self, value: Value) -> (result: Option<i64>)
        ensures
            result == value_of(self@.registers, value),
    {
        match value {
            Value::Int1(bit) => Some(
                if bit {
                    1
                } else {
                    0
                },
            ),
            Value::Int32(constant) => Some(constant as i64),
            Value::Int64(constant) => Some(constant),
            Value::Result(index) => if index < self.registers.len() {
                Some(self.registers[index])
            } else {
                None
            },
            Value::Global(_) => None,
        }
    }

    /// The number of the global cell that an address stands for.
    fn cell(&self, address: Value) -> (result: Option<usize>)
        ensures
            match cell_of(self@.cursors, address) {
                Some(cell) => result == Some(cell as usize) && cell < self@.cursors.len(),
                None => result is None,
            },
    {
        match address {
            Value::Global(cell) => if cell < self.cursors.len() {
                Some(cell)
            } else {
                None
            },
            _ => None,
        }
    }

    /// Ends the program with a failure.
    fn fail(&mut self, failure: Failure) -> (action: Action)
        requires
            old(self).wf(),
        ensures
            final(self).wf(),
            (final(self)@, action) == failed(old(self)@, failure),
    {
        let status = failure.status();
        self.status = Some(status);
        Action::Exit(status)
    }

    /// Records the result of an operation.
    fn finish(&mut self, result: i64) -> (action: Action)
        requires
            old(self).wf(),
        ensures
            final(self).wf(),
            (final(self)@, action) == done(old(self)@, result),
    {
        self.registers.push(result);
        Action::Continue
    }

    /// Goes to the start of another block.
    fn go_to(&mut self, target: Block) -> (action: Action)
        requires
            old(self).wf(),
        ensures
            final(self).wf(),
            (final(self)@, action) == gone_to(old(self)@, target),
    {
        self.block = target.0;
        self.registers = Vec::new();
        Action::Continue
    }

    /// Calls a function of the runtime.
    fn call(&mut self, function: Function, argument: Option<i64>, input: Input) -> (action: Action)
        requires
            old(self).wf(),
        ensures
            final(self).wf(),
            (final(self)@, action) == call_step(old(self)@, function, argument, input),
    {
        proof {
            reveal(call_step);
        }
        match (function, argument) {
            (Function::StackResize, Some(size)) => {
                if size >= 0 && size as u64 <= usize::MAX as u64 && size as usize
                    >= self.stack.capacity() {
                    self.stack.resize(size as usize);
                }
                self.finish(0)
            },
            (Function::DequeResize, Some(size)) => {
                if size >= 0 && size as u64 <= usize::MAX as u64 && size as usize
                    >= self.deque.capacity() {
                    self.deque.resize(size as usize);
                }
                self.finish(0)
            },
            (Function::Push, Some(value)) => {
                if self.stack.len() < self.stack.capacity() || self.stack.len() <= usize::MAX / 2 {
                    self.stack.push(value);
                    self.finish(0)
                } else {
                    self.fail(Failure::OutOfMemory)
                }
            },
            (Function::Pop, None) => match self.stack.pop() {
                Ok(value) => self.finish(value),
                Err(failure) => self.fail(failure),
            },
            (Function::InsertFront, Some(value)) => {
                if self.deque.len() < self.deque.capacity() || self.deque.len() <= usize::MAX / 2 {
                    self.deque.insert_front(value);
                    self.finish(0)
                } else {
                    self.fail(Failure::OutOfMemory)
                }
            },
            (Function::InsertBack, Some(value)) => {
                if self.deque.len() < self.deque.capacity() || self.deque.len() <= usize::MAX / 2 {
                    self.deque.insert_back(value);
                    self.finish(0)
                } else {
                    self.fail(Failure::OutOfMemory)
                }
            },
            (Function::RemoveFront, None) => match self.deque.remove_front() {
                Ok(value) => self.finish(value),
                Err(failure) => self.fail(failure),
            },
            (Function::RemoveBack, None) => match self.deque.remove_back() {
                Ok(value) => self.finish(value),
                Err(failure) => self.fail(failure),
            },
            (Function::GetChar, None) => match input {
                Input::Nothing => Action::GetChar,
                Input::Byte(byte) => self.finish(byte as i64),
                Input::End => self.fail(Failure::EndOfInput),
            },
            (Function::PutChar, Some(value)) => {
                self.finish(0);
                Action::PutChar(#[verifier::truncate] (value as u8))
            },
            (Function::PutI64, Some(value)) => {
                self.finish(0);
                Action::PutNumber(value)
            },
            _ => self.fail(Failure::Panic),
        }
    }

    /// The block that a switch goes on with.
    fn find_case(
        &self,
        operations: &Vec<Operation>,
        first: usize,
        cases: usize,
        value: i64,
        default: Block,
    ) -> (target: Block)
        ensures
            target == switch_target(
                operations@,
                self@.registers,
                first as int,
                cases as nat,
                value,
                default,
            ),
    {
        let mut index: usize = first;
        let mut left: usize = cases;
        while left > 0 && index < operations.len()
            invariant
                switch_target(
                    operations@,
                    self@.registers,
                    first as int,
                    cases as nat,
                    value,
                    default,
                ) == switch_target(
                    operations@,
                    self@.registers,
                    index as int,
                    left as nat,
                    value,
                    default,
                ),
            decreases left,
        {
            match operations[index] {
                Operation::Case(constant, target) => {
                    let constant = self.value(constant);
                    if let Some(constant) = constant {
                        if constant == value {
                            return target;
                        }
                    }
                },
                _ => {},
            }
            index += 1;
            left -= 1;
        }
        default
    }

    /// Runs the operation that the machine has reached.
    ///
    /// Once the program has ended, a step changes nothing and reports the
    /// exit status again. A step that reaches a read from the input with
    /// `Input::Nothing` changes nothing either and asks for a byte.
    pub fn step(&mut self, program: &Builder, input: Input) -> (action: Action)
        requires
            old(self).wf(),
            program.wf(),
        ensures
            final(self).wf(),
            (final(self)@, action) == step(program.blocks(), old(self)@, input),
    {
        proof {
            reveal(operation_step);
        }
        if let Some(status) = self.status {
            return Action::Exit(status);
        }
        if self.block >= program.block_count() {
            return self.fail(Failure::Panic);
        }
        let operations = program.block_operations(Block(self.block));
        let position = self.registers.len();
        if position >= operations.len() {
            return self.fail(Failure::Panic);
        }
        let operation = operations[position];
        match operation {
            Operation::Call(function, argument) => self.run_call(operations, function, argument, input),
            Operation::Load(address) => self.run_load(operations, address, input),
            Operation::Store(value, address) => self.run_store(operations, value, address, input),
            Operation::Arithmetic(lhs, operator, rhs) => self.run_arithmetic(
                operations,
                lhs,
                operator,
                rhs,
                input,
            ),
            Operation::BitNot(value) => self.run_bit_not(operations, value, input),
            Operation::Compare(lhs, comparison, rhs) => self.run_compare(
                operations,
                lhs,
                comparison,
                rhs,
                input,
            ),
            Operation::CastInt(value, target) => self.run_cast(operations, value, target, input),
            Operation::ZeroExtendInt(value, target) => self.run_zero_extend(
                operations,
                value,
                target,
                input,
            ),
            Operation::Branch(target) => self.go_to(target),
            Operation::Switch(condition, default, cases) => self.run_switch(
                operations,
                condition,
                default,
                cases,
                input,
            ),
            Operation::Case(_, _) => self.fail(Failure::Panic),
            Operation::ReturnValue(value) => self.run_return(operations, value, input),
        }
    }

    fn run_call(
        &mut self,
        operations: &Vec<Operation>,
        function: Function,
        argument: Option<Value>,
        input: Input,
    ) -> (action: Action)
        requires
            old(self).wf(),
        ensures
            final(self).wf(),
            (final(self)@, action) == operation_step(
                operations@,
                old(self)@,
                Operation::Call(function, argument),
                input,
            ),
    {
        proof {
            reveal(operation_step);
        }
        match argument {
            None => self.call(function, None, input),
            Some(value) => match self.value(value) {
                Some(argument) => self.call(function, Some(argument), input),
                None => self.fail(Failure::Panic),
            },
        }
    }

    fn run_load(&mut self, operations: &Vec<Operation>, address: Value, input: Input) -> (action:
        Action)
        requires
            old(self).wf(),
        ensures
            final(self).wf(),
            (final(self)@, action) == operation_step(
                operations@,
                old(self)@,
                Operation::Load(address),
                input,
            ),
    {
        proof {
            reveal(operation_step);
        }
        match self.cell(address) {
            Some(cell) => {
                let value = self.cursors[cell];
                self.finish(value)
            },
            None => self.fail(Failure::Panic),
        }
    }

    fn run_store(
        &mut self,
        operations: &Vec<Operation>,
        value: Value,
        address: Value,
        input: Input,
    ) -> (action: Action)
        requires
            old(self).wf(),
        ensures
            final(self).wf(),
            (final(self)@, action) == operation_step(
                operations@,
                old(self)@,
                Operation::Store(value, address),
                input,
            ),
    {
        proof {
            reveal(operation_step);
        }
        match (self.value(value), self.cell(address)) {
            (Some(value), Some(cell)) => {
                self.cursors.set(cell, value);
                self.finish(0)
            },
            _ => self.fail(Failure::Panic),
        }
    }

    fn run_arithmetic(
        &mut self,
        operations: &Vec<Operation>,
        lhs: Value,
        operator: Operator,
        rhs: Value,
        input: Input,
    ) -> (action: Action)
        requires
            old(self).wf(),
        ensures
            final(self).wf(),
            (final(self)@, action) == operation_step(
                operations@,
                old(self)@,
                Operation::Arithmetic(lhs, operator, rhs),
                input,
            ),
    {
        proof {
            reveal(operation_step);
        }
        match (self.value(lhs), self.value(rhs)) {
            (Some(lhs), Some(rhs)) => {
                if can_operate(operator, rhs) {
                    let result = perform_operation(lhs, rhs, &operator);
                    self.finish(result)
                } else {
                    self.fail(Failure::DivisionByZero)
                }
            },
            _ => self.fail(Failure::Panic),
        }
    }

    fn run_bit_not(&mut self, operations: &Vec<Operation>, value: Value, input: Input) -> (action:
        Action)
        requires
            old(self).wf(),
        ensures
            final(self).wf(),
            (final(self)@, action) == operation_step(
                operations@,
                old(self)@,
                Operation::BitNot(value),
                input,
            ),
    {
        proof {
            reveal(operation_step);
        }
        match self.value(value) {
            Some(value) => self.finish(!value),
            None => self.fail(Failure::Panic),
        }
    }

    fn run_compare(
        &mut self,
        operations: &Vec<Operation>,
        lhs: Value,
        comparison: Compare,
        rhs: Value,
        input: Input,
    ) -> (action: Action)
        requires
            old(self).wf(),
        ensures
            final(self).wf(),
            (final(self)@, action) == operation_step(
                operations@,
                old(self)@,
                Operation::Compare(lhs, comparison, rhs),
                input,
            ),
    {
        proof {
            reveal(operation_step);
        }
        match (self.value(lhs), self.value(rhs)) {
            (Some(lhs), Some(rhs)) => {
                let holds = match comparison {
                    Compare::Equal => lhs == rhs,
                    Compare::Greater => lhs > rhs,
                    Compare::GreaterOrEqual => lhs >= rhs,
                };
                self.finish(
                    if holds {
                        1
                    } else {
                        0
                    },
                )
            },
            _ => self.fail(Failure::Panic),
        }
    }

    fn run_cast(
        &mut self,
        operations: &Vec<Operation>,
        value: Value,
        target: Type,
        input: Input,
    ) -> (action: Action)
        requires
            old(self).wf(),
        ensures
            final(self).wf(),
            (final(self)@, action) == operation_step(
                operations@,
                old(self)@,
                Operation::CastInt(value, target),
                input,
            ),
    {
        proof {
            reveal(operation_step);
        }
        match self.value(value) {
            Some(value) => {
                let result = match target {
                    Type::I1 => value & 1,
                    Type::I32 => (#[verifier::truncate] (value as i32)) as i64,
                    Type::I64 => value,
                };
                self.finish(result)
            },
            None => self.fail(Failure::Panic),
        }
    }

    fn run_zero_extend(
        &mut self,
        operations: &Vec<Operation>,
        value: Value,
        target: Type,
        input: Input,
    ) -> (action: Action)
        requires
            old(self).wf(),
        ensures
            final(self).wf(),
            (final(self)@, action) == operation_step(
                operations@,
                old(self)@,
                Operation::ZeroExtendInt(value, target),
                input,
            ),
    {
        proof {
            reveal(operation_step);
        }
        match self.value(value) {
            Some(value) => self.finish(value),
            None => self.fail(Failure::Panic),
        }
    }

    fn run_switch(
        &mut self,
        operations: &Vec<Operation>,
        condition: Value,
        default: Block,
        cases: usize,
        input: Input,
    ) -> (action: Action)
        requires
            old(self).wf(),
            old(self)@.registers.len() < operations@.len(),
        ensures
            final(self).wf(),
            (final(self)@, action) == operation_step(
                operations@,
                old(self)@,
                Operation::Switch(condition, default, cases),
                input,
            ),
    {
        proof {
            reveal(operation_step);
        }
        match self.value(condition) {
            Some(value) => {
                let count = operations.len();
                let position = self.registers.len();
                let target = self.find_case(operations, position + 1, cases, value, default);
                self.go_to(target)
            },
            None => self.fail(Failure::Panic),
        }
    }

    fn run_return(&mut self, operations: &Vec<Operation>, value: Value, input: Input) -> (action:
        Action)
        requires
            old(self).wf(),
        ensures
            final(self).wf(),
            (final(self)@, action) == operation_step(
                operations@,
                old(self)@,
                Operation::ReturnValue(value),
                input,
            ),
    {
        proof {
            reveal(operation_step);
        }
        match self.value(value) {
            Some(status) => {
                let status = #[verifier::truncate] (status as i32);
                self.status = Some(status);
                Action::Exit(status)
            },
            None => self.fail(Failure::Panic),
        }
    }
}

/// A machine together with its input and output, as a mathematical value.
pub struct World {
    /// The state of the machine.
    pub state: State,
    /// The bytes of the input that have not been read.
    pub input: Seq<u8>,
    /// The bytes that have been written to the output.
    pub output: Seq<u8>,
}

/// The bytes that an action writes to the output.
pub open spec fn emitted(action: Action) -> Seq<u8> {
    match action {
        Action::PutChar(byte) => seq![byte],
        Action::PutNumber(number) => decimal(number as int),
        _ => Seq::empty(),
    }
}

/// One step of a machine whose reads are served from `world.input` and whose
/// writes go to `world.output`.
pub open spec fn advance(blocks: Seq<Seq<Operation>>, world: World) -> World {
    let asked = step(blocks, world.state, Input::Nothing);
    if asked.1 is GetChar {
        if world.input.len() > 0 {
            World {
                state: step(blocks, world.state, Input::Byte(world.input.first())).0,
                input: world.input.drop_first(),
                output: world.output,
            }
        } else {
            World { state: step(blocks, world.state, Input::End).0, ..world }
        }
    } else {
        World { state: asked.0, input: world.input, output: world.output + emitted(asked.1) }
    }
}

/// The world after `steps` steps.
pub open spec fn run_for(blocks: Seq<Seq<Operation>>, world: World, steps: nat) -> World
    decreases steps,
{
    if steps == 0 {
        world
    } else {
        advance(blocks, run_for(blocks, world, (steps - 1) as nat))
    }
}

/// The world in which a program with these global cells starts on `input`.
pub open spec fn initial_world(globals: Seq<i64>, input: Seq<u8>) -> World {
    World { state: initial_state(globals), input, output: Seq::empty() }
}

/// Once the program has ended, further steps change nothing.
pub proof fn lemma_ended_stays(blocks: Seq<Seq<Operation>>, world: World, steps: nat)
    requires
        world.state.status is Some,
    ensures
        run_for(blocks, world, steps) == world,
    decreases steps,
{
    if steps > 0 {
        lemma_ended_stays(blocks, world, (steps - 1) as nat);
        assert(world.output + Seq::<u8>::empty() =~= world.output);
    }
}

/// Steps add up.
pub proof fn lemma_run_for_adds(blocks: Seq<Seq<Operation>>, world: World, first: nat, then: nat)
    ensures
        run_for(blocks, world, first + then) == run_for(blocks, run_for(blocks, world, first), then),
    decreases then,
{
    if then > 0 {
        lemma_run_for_adds(blocks, world, first, (then - 1) as nat);
    }
}

/// What a run of a program has come to.
pub struct Outcome {
    /// The exit status, if the program has ended.
    pub status: Option<i32>,
    /// The bytes that the program has written.
    pub output: Vec<u8>,
}

/// Appends the bytes that an action writes to the output.
pub fn emit(output: &mut Vec<u8>, action: Action)
    ensures
        final(output)@ == old(output)@ + emitted(action),
{
    match action {
        Action::PutChar(byte) => {
            output.push(byte);
            assert(output@ =~= old(output)@ + emitted(action));
        },
        Action::PutNumber(number) => {
            let text = number_text(number);
            let mut index: usize = 0;
            assert(output@ =~= old(output)@ + text@.take(0));
            while index < text.len()
                invariant
                    index <= text.len(),
                    output@ == old(output)@ + text@.take(index as int),
                decreases text.len() - index,
            {
                output.push(text[index]);
                assert(output@ =~= old(output)@ + text@.take(index + 1));
                index += 1;
            }
            assert(text@.take(index as int) =~= text@);
        },
        _ => {
            assert(output@ =~= old(output)@ + emitted(action));
        },
    }
}

/// One step of a machine whose reads are served from `input`, of which
/// `read` bytes are gone, and whose writes go to `output`.
fn advance_once(
    machine: &mut Machine,
    program: &Builder,
    input: &Vec<u8>,
    read: &mut usize,
    output: &mut Vec<u8>,
)
    requires
        old(machine).wf(),
        program.wf(),
        *old(read) <= input@.len(),
    ensures
        final(machine).wf(),
        *final(read) <= input@.len(),
        (World {
            state: final(machine)@,
            input: input@.skip(*final(read) as int),
            output: final(output)@,
        }) == advance(
            program.blocks(),
            World {
                state: old(machine)@,
                input: input@.skip(*old(read) as int),
                output: old(output)@,
            },
        ),
{
    proof {
        reveal(operation_step);
        reveal(call_step);
    }
    let action = machine.step(program, Input::Nothing);
    match action {
        Action::GetChar => {
            if *read < input.len() {
                machine.step(program, Input::Byte(input[*read]));
                assert(input@.skip(*read as int).drop_first() =~= input@.skip(*read + 1));
                *read = *read + 1;
            } else {
                machine.step(program, Input::End);
            }
        },
        _ => {
            emit(output, action);
        },
    }
}

/// Runs a program on `input` for `steps` steps at most.
pub fn run(program: &Builder, input: &Vec<u8>, steps: u64) -> (outcome: Outcome)
    requires
        program.wf(),
    ensures
        outcome.status == run_for(
            program.blocks(),
            initial_world(program.globals(), input@),
            steps as nat,
        ).state.status,
        outcome.output@ == run_for(
            program.blocks(),
            initial_world(program.globals(), input@),
            steps as nat,
        ).output,
{
    let ghost blocks = program.blocks();
    let ghost start = initial_world(program.globals(), input@);
    let mut machine = Machine::new(program);
    let mut output: Vec<u8> = Vec::new();
    let mut read: usize = 0;
    let mut taken: u64 = 0;
    assert(input@.skip(0) =~= input@);
    while taken < steps
        invariant
            taken <= steps,
            program.wf(),
            machine.wf(),
            blocks == program.blocks(),
            start == initial_world(program.globals(), input@),
            read <= input@.len(),
            run_for(blocks, start, taken as nat) == (World {
                state: machine@,
                input: input@.skip(read as int),
                output: output@,
            }),
        decreases steps - taken,
    {
        if machine.status().is_some() {
            proof {
                let world = run_for(blocks, start, taken as nat);
                lemma_ended_stays(blocks, world, (steps - taken) as nat);
                lemma_run_for_adds(blocks, start, taken as nat, (steps - taken) as nat);
            }
            return Outcome { status: machine.status(), output };
        }
        advance_once(&mut machine, program, input, &mut read, &mut output);
        taken += 1;
    }
    Outcome { status: machine.status(), output }
}

} // verus!
