//! The syntax tree of a program: instructions, grouped into sections, grouped
//! into sequences, one sequence for each line of the source.

use vstd::prelude::*;

verus! {

/// One command of the language.
#[derive(Debug, PartialEq, Eq)]
pub enum Instruction {
    /// Bitwise NOT of the top of the stack.
    BitwiseNot,
    /// Logical NOT of the top of the stack.
    LogicalNot,
    /// Push a value onto the stack.
    Push(ValueSource),
    /// Insert a value into the deque.
    Insert(ValueSource, QueueEnd),
    /// Destroy the value at the top of the stack.
    Destroy,
    /// Output a character.
    OutputCharacter(ValueSource),
    /// Output an integer.
    OutputNumber(ValueSource),
    /// Pop the stack and skip the next instruction unless the value is 1.
    SkipIfNotOne,
    /// Jump to another sequence.
    Jump(Direction, Start),
    /// Exit the program.
    Exit,
}

/// Where the value that an instruction works on comes from.
#[derive(Debug, PartialEq, Eq)]
pub enum ValueSource {
    /// A constant value.
    Constant(i64),
    /// Pop a value from the stack.
    Pop,
    /// The result of an operation on two values.
    Operate(Box<ValueSource>, Operator, Box<ValueSource>),
    /// A copy of the top of the stack, which stays where it is.
    CloneTop,
    /// Remove a value from the deque.
    Remove(QueueEnd),
    /// Read a byte from the input.
    Input,
    /// 1 if the top of the stack equals the front of the deque, else 0. Pops
    /// the stack; the deque keeps its front.
    Equal,
    /// 1 if the top of the stack is greater than the front of the deque, else
    /// 0. Pops the stack; the deque keeps its front.
    Greater,
}

/// An arithmetic or bitwise operation on two values.
#[derive(Debug, PartialEq, Eq, Clone, Copy, Structural)]
pub enum Operator {
    Add,
    Sub,
    Mul,
    Div,
    Mod,
    /// Bitwise AND.
    And,
    /// Bitwise OR.
    Or,
    /// Bitwise XOR.
    Xor,
}

/// An end of the deque.
#[derive(Debug, PartialEq, Eq, Clone, Copy, Structural)]
pub enum QueueEnd {
    Front,
    Back,
}

/// The sequence that a jump goes to, seen from the one it stands in.
#[derive(Debug, PartialEq, Eq, Clone, Copy, Structural)]
pub enum Direction {
    Current,
    Previous,
    Next,
}

/// Where the sequence that a jump goes to takes up its work.
#[derive(Debug, PartialEq, Eq, Clone, Copy, Structural)]
pub enum Start {
    /// From its first section.
    Restart,
    /// Where it last left off.
    Continue,
}

/// A run of instructions between two jumps or skips.
pub type Section = Vec<Instruction>;

/// The sections of one line of the source.
pub type Sequence = Vec<Section>;

impl DeepView for Instruction {
    type V = Instruction;

    open spec fn deep_view(&self) -> Instruction {
        *self
    }
}

impl Clone for ValueSource {
    fn clone(&self) -> (copy: ValueSource)
        ensures
            copy == *self,
        decreases *self,
    {
        match self {
            ValueSource::Constant(value) => ValueSource::Constant(*value),
            ValueSource::Pop => ValueSource::Pop,
            ValueSource::Operate(lhs, operator, rhs) => {
                let lhs_copy = (**lhs).clone();
                let rhs_copy = (**rhs).clone();
                ValueSource::Operate(Box::new(lhs_copy), *operator, Box::new(rhs_copy))
            },
            ValueSource::CloneTop => ValueSource::CloneTop,
            ValueSource::Remove(end) => ValueSource::Remove(*end),
            ValueSource::Input => ValueSource::Input,
            ValueSource::Equal => ValueSource::Equal,
            ValueSource::Greater => ValueSource::Greater,
        }
    }
}

impl Clone for Instruction {
    fn clone(&self) -> (copy: Instruction)
        ensures
            copy == *self,
    {
        match self {
            Instruction::BitwiseNot => Instruction::BitwiseNot,
            Instruction::LogicalNot => Instruction::LogicalNot,
            Instruction::Push(source) => Instruction::Push(source.clone()),
            Instruction::Insert(source, end) => Instruction::Insert(source.clone(), *end),
            Instruction::Destroy => Instruction::Destroy,
            Instruction::OutputCharacter(source) => Instruction::OutputCharacter(source.clone()),
            Instruction::OutputNumber(source) => Instruction::OutputNumber(source.clone()),
            Instruction::SkipIfNotOne => Instruction::SkipIfNotOne,
            Instruction::Jump(direction, start) => Instruction::Jump(*direction, *start),
            Instruction::Exit => Instruction::Exit,
        }
    }
}

} // verus!
