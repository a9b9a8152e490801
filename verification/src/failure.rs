//! The ways in which a running program stops without reaching `Exit`.

use vstd::prelude::*;

verus! {

/// A fatal condition of the runtime. Each has an exit status of its own.
#[derive(Debug, Clone, Copy, PartialEq, Eq, Structural)]
pub enum Failure {
    /// A jump table was entered with a cursor that names no section.
    Panic,
    /// A value was removed from an empty deque.
    DequeUnderflow,
    /// A value was popped from an empty stack.
    StackUnderflow,
    /// A byte was read after the input had ended.
    EndOfInput,
    /// A division or remainder had a zero divisor.
    DivisionByZero,
    /// A container could not grow any further.
    OutOfMemory,
}

impl Failure {
    /// The exit status that the process ends with.
    pub open spec fn spec_status(self) -> i32 {
        match self {
            Failure::Panic => 1,
            Failure::DequeUnderflow => 13,
            Failure::StackUnderflow => 14,
            Failure::EndOfInput => 15,
            Failure::DivisionByZero => 16,
            Failure::OutOfMemory => 17,
        }
    }

    /// The exit status that the process ends with: never zero, and different
    /// for each failure.
    #[verifier::when_used_as_spec(spec_status)]
    pub fn status(self) -> (code: i32)
        ensures
            code == self.spec_status(),
            code != 0,
    {
        match self {
            Failure::Panic => 1,
            Failure::DequeUnderflow => 13,
            Failure::StackUnderflow => 14,
            Failure::EndOfInput => 15,
            Failure::DivisionByZero => 16,
            Failure::OutOfMemory => 17,
        }
    }
}

} // verus!
