//! The reference interpreter: it walks the syntax tree and works on the
//! containers of the host.
//!
//! The back of the host's deque holds the front of the language's deque, so
//! that the view of both lists the values from the back to the front.

use std::collections::VecDeque;
use vstd::prelude::*;
use crate::failure::Failure;
use crate::instruction_builder::jump_target;
use crate::machine::{comparison_result, emit, emitted, Action, Outcome};
use crate::builder::Compare;
use crate::operation::{
    bitwise_not, can_operate, is_defined, operation_result, perform_operation,
};
use crate::parse::lemma_section_view;
use crate::sequence_builder::Program;
use crate::syntax::{Direction, Instruction, QueueEnd, Sequence, Start, ValueSource};

verus! {

/// The type of the values of the language.
pub type DataType = i64;

/// What a value source may consume: the stack, the deque and the input.
pub struct Operands {
    /// The values on the stack, the top last.
    pub stack: Seq<i64>,
    /// The values in the deque, from the back to the front.
    pub deque: Seq<i64>,
    /// The bytes of the input that have not been read.
    pub input: Seq<u8>,
}

/// The stack with its top taken off, or underflow.
pub open spec fn popped(operands: Operands) -> Result<(i64, Operands), Failure> {
    if operands.stack.len() > 0 {
        Ok((operands.stack.last(), Operands { stack: operands.stack.drop_last(), ..operands }))
    } else {
        Err(Failure::StackUnderflow)
    }
}

/// The deque with the value at one end taken out, or underflow.
pub open spec fn removed(operands: Operands, end: QueueEnd) -> Result<(i64, Operands), Failure> {
    if operands.deque.len() == 0 {
        Err(Failure::DequeUnderflow)
    } else {
        match end {
            QueueEnd::Front => Ok(
                (operands.deque.last(), Operands { deque: operands.deque.drop_last(), ..operands }),
            ),
            QueueEnd::Back => Ok(
                (
                    operands.deque.first(),
                    Operands {
                        deque: operands.deque.subrange(1, operands.deque.len() as int),
                        ..operands
                    },
                ),
            ),
        }
    }
}

/// The deque with a value put in at one end.
pub open spec fn inserted(deque: Seq<i64>, value: i64, end: QueueEnd) -> Seq<i64> {
    match end {
        QueueEnd::Front => deque.push(value),
        QueueEnd::Back => seq![value] + deque,
    }
}

/// The comparison of the top of the stack with the front of the deque: the
/// stack loses its top, the deque keeps its front.
pub open spec fn compared(operands: Operands, comparison: Compare) -> Result<
    (i64, Operands),
    Failure,
> {
    if operands.stack.len() == 0 {
        Err(Failure::StackUnderflow)
    } else if operands.deque.len() == 0 {
        Err(Failure::DequeUnderflow)
    } else {
        Ok(
            (
                comparison_result(operands.stack.last(), comparison, operands.deque.last()),
                Operands { stack: operands.stack.drop_last(), ..operands },
            ),
        )
    }
}

/// The value of a source and what is left of the operands, or the failure
/// that evaluating it runs into. The left-hand side of an operator is
/// evaluated first.
pub open spec fn evaluate(source: ValueSource, operands: Operands) -> Result<
    (i64, Operands),
    Failure,
>
    decreases source,
{
    match source {
        ValueSource::Constant(constant) => Ok((constant, operands)),
        ValueSource::Pop => popped(operands),
        ValueSource::Remove(end) => removed(operands, end),
        ValueSource::Operate(lhs, operator, rhs) => match evaluate(*lhs, operands) {
            Err(failure) => Err(failure),
            Ok((left, after_left)) => match evaluate(*rhs, after_left) {
                Err(failure) => Err(failure),
                Ok((right, after_right)) => if is_defined(operator, right) {
                    Ok((operation_result(left, operator, right), after_right))
                } else {
                    Err(Failure::DivisionByZero)
                },
            },
        },
        ValueSource::CloneTop => if operands.stack.len() > 0 {
            Ok((operands.stack.last(), operands))
        } else {
            Err(Failure::StackUnderflow)
        },
        ValueSource::Input => if operands.input.len() > 0 {
            Ok(
                (
                    operands.input.first() as i64,
                    Operands { input: operands.input.drop_first(), ..operands },
                ),
            )
        } else {
            Err(Failure::EndOfInput)
        },
        ValueSource::Equal => compared(operands, Compare::Equal),
        ValueSource::Greater => compared(operands, Compare::Greater),
    }
}

/// What an instruction that stays in its section does to the operands, and
/// what it writes; or the failure that it runs into.
pub open spec fn perform(instruction: Instruction, operands: Operands) -> Result<
    (Operands, Action),
    Failure,
> {
    match instruction {
        Instruction::BitwiseNot => match popped(operands) {
            Err(failure) => Err(failure),
            Ok((value, rest)) => Ok(
                (Operands { stack: rest.stack.push(bitwise_not(value)), ..rest }, Action::Continue),
            ),
        },
        Instruction::LogicalNot => match popped(operands) {
            Err(failure) => Err(failure),
            Ok((value, rest)) => Ok(
                (
                    Operands {
                        stack: rest.stack.push(comparison_result(value, Compare::Equal, 0)),
                        ..rest
                    },
                    Action::Continue,
                ),
            ),
        },
        Instruction::Push(source) => match evaluate(source, operands) {
            Err(failure) => Err(failure),
            Ok((value, rest)) => Ok(
                (Operands { stack: rest.stack.push(value), ..rest }, Action::Continue),
            ),
        },
        Instruction::Insert(source, end) => match evaluate(source, operands) {
            Err(failure) => Err(failure),
            Ok((value, rest)) => Ok(
                (Operands { deque: inserted(rest.deque, value, end), ..rest }, Action::Continue),
            ),
        },
        Instruction::Destroy => match popped(operands) {
            Err(failure) => Err(failure),
            Ok((_, rest)) => Ok((rest, Action::Continue)),
        },
        Instruction::OutputCharacter(source) => match evaluate(source, operands) {
            Err(failure) => Err(failure),
            Ok((value, rest)) => Ok((rest, Action::PutChar(value as u8))),
        },
        Instruction::OutputNumber(source) => match evaluate(source, operands) {
            Err(failure) => Err(failure),
            Ok((value, rest)) => Ok((rest, Action::PutNumber(value))),
        },
        _ => Ok((operands, Action::Continue)),
    }
}

/// The state of the interpreter as a mathematical value.
pub struct Position {
    /// The stack, the deque and the unread input.
    pub operands: Operands,
    /// The number of the sequence that is running.
    pub sequence: int,
    /// The number of the section that is running.
    pub section: int,
    /// The number of instructions of the section that have run.
    pub done: int,
    /// The cursor of each sequence: the number of the section that it runs
    /// next when it is entered.
    pub cursors: Seq<int>,
    /// The exit status, once the program has ended.
    pub status: Option<i32>,
}

/// The interpreter after it has let its containers go and dropped the rest
/// of the input, as it does when it fails.
pub open spec fn released(position: Position) -> Position {
    Position {
        operands: Operands { stack: Seq::empty(), deque: Seq::empty(), input: Seq::empty() },
        ..position
    }
}

/// The interpreter after the program has ended with a failure, and the action
/// that reports it.
pub open spec fn stopped(position: Position, failure: Failure) -> (Position, Action) {
    (
        Position { status: Some(failure.spec_status()), ..released(position) },
        Action::Exit(failure.spec_status()),
    )
}

/// The interpreter at the start of a section. The cursor of the sequence
/// moves past the section, unless the section ends in a jump. A section that
/// does not exist ends the program with a panic.
pub open spec fn entered(program: Program, position: Position, sequence: int, section: int) -> (
    Position,
    Action,
) {
    if 0 <= sequence < program.len() && sequence < position.cursors.len() && 0 <= section
        < program[sequence].len() {
        let instructions = program[sequence][section];
        let cursors = if instructions.len() > 0 && instructions.last() is Jump {
            position.cursors
        } else {
            position.cursors.update(sequence, section + 1)
        };
        (Position { sequence, section, done: 0, cursors, ..position }, Action::Continue)
    } else {
        stopped(position, Failure::Panic)
    }
}

/// The interpreter after it has gone into a sequence through its cursor.
pub open spec fn resumed(program: Program, position: Position, sequence: int) -> (Position, Action) {
    if 0 <= sequence < position.cursors.len() {
        entered(program, position, sequence, position.cursors[sequence])
    } else {
        stopped(position, Failure::Panic)
    }
}

/// One step of the interpreter: the next instruction of the section, or the
/// move to the next section when the section has none left.
pub open spec fn interpreter_step(program: Program, position: Position) -> (Position, Action) {
    if position.status is Some {
        (position, Action::Exit(position.status->0))
    } else if !(0 <= position.sequence < program.len() && 0 <= position.section
        < program[position.sequence].len() && 0 <= position.done) {
        stopped(position, Failure::Panic)
    } else {
        let instructions = program[position.sequence][position.section];
        if position.done >= instructions.len() {
            resumed(program, position, position.sequence)
        } else {
            let gone = Position { done: position.done + 1, ..position };
            match instructions[position.done] {
                Instruction::Exit => (Position { status: Some(0), ..gone }, Action::Exit(0)),
                Instruction::SkipIfNotOne => match popped(position.operands) {
                    Err(failure) => stopped(gone, failure),
                    Ok((value, rest)) => entered(
                        program,
                        Position { operands: rest, ..gone },
                        position.sequence,
                        if value == 1 {
                            position.section + 1
                        } else {
                            position.section + 2
                        },
                    ),
                },
                Instruction::Jump(direction, start) => {
                    let target = jump_target(position.sequence, direction);
                    if 0 <= target < position.cursors.len() {
                        let cursors = if start is Restart {
                            position.cursors.update(target, 0)
                        } else {
                            position.cursors
                        };
                        resumed(program, Position { cursors, ..gone }, target)
                    } else {
                        stopped(gone, Failure::Panic)
                    }
                },
                instruction => match perform(instruction, position.operands) {
                    Err(failure) => stopped(gone, failure),
                    Ok((operands, action)) => (Position { operands, ..gone }, action),
                },
            }
        }
    }
}

/// The cursors at the start of a program of `count` sequences: the sequence
/// that the program starts with goes on with its second section, every other
/// one starts with its first.
pub open spec fn initial_cursors(count: nat) -> Seq<int> {
    Seq::new(
        count,
        |sequence: int|
            if sequence == 1 {
                1int
            } else {
                0int
            },
    )
}

/// The interpreter at the start of a program: at the first section of the
/// sequence of the first line.
pub open spec fn initial_position(program: Program, input: Seq<u8>) -> Position {
    entered(
        program,
        Position {
            operands: Operands { stack: Seq::empty(), deque: Seq::empty(), input },
            sequence: 1,
            section: 0,
            done: 0,
            cursors: initial_cursors(program.len()),
            status: None,
        },
        1,
        0,
    ).0
}

/// Whether a value source reads from the input.
pub open spec fn mentions_input(source: ValueSource) -> bool
    decreases source,
{
    match source {
        ValueSource::Input => true,
        ValueSource::Operate(lhs, _, rhs) => mentions_input(*lhs) || mentions_input(*rhs),
        _ => false,
    }
}

/// Whether an instruction evaluates a value source that reads from the
/// input.
pub open spec fn wants_input(instruction: Instruction) -> bool {
    match instruction {
        Instruction::Push(source) => mentions_input(source),
        Instruction::Insert(source, _) => mentions_input(source),
        Instruction::OutputCharacter(source) => mentions_input(source),
        Instruction::OutputNumber(source) => mentions_input(source),
        _ => false,
    }
}

/// Whether the next step of the interpreter ends the program because the
/// input has ended: the instruction that runs next stays in its section and
/// reads a byte that the input does not have.
pub open spec fn starved(program: Program, position: Position) -> bool {
    &&& position.status is None
    &&& 0 <= position.sequence < program.len()
    &&& 0 <= position.section < program[position.sequence].len()
    &&& 0 <= position.done < program[position.sequence][position.section].len()
    &&& perform(
        program[position.sequence][position.section][position.done],
        position.operands,
    ) == Err::<(Operands, Action), Failure>(Failure::EndOfInput)
}

/// Only a value source that reads from the input fails for want of input.
pub proof fn lemma_mentions_input(source: ValueSource, operands: Operands)
    requires
        evaluate(source, operands) == Err::<(i64, Operands), Failure>(Failure::EndOfInput),
    ensures
        mentions_input(source),
    decreases source,
{
    match source {
        ValueSource::Operate(lhs, _, rhs) => {
            match evaluate(*lhs, operands) {
                Err(_) => {
                    lemma_mentions_input(*lhs, operands);
                },
                Ok((_, after_left)) => {
                    match evaluate(*rhs, after_left) {
                        Err(_) => {
                            lemma_mentions_input(*rhs, after_left);
                        },
                        Ok(_) => {},
                    }
                },
            }
        },
        _ => {},
    }
}

/// Only an instruction that reads from the input fails for want of input.
pub proof fn lemma_wants_input(instruction: Instruction, operands: Operands)
    ensures
        perform(instruction, operands) == Err::<(Operands, Action), Failure>(Failure::EndOfInput)
            ==> wants_input(instruction),
{
    if perform(instruction, operands) == Err::<(Operands, Action), Failure>(Failure::EndOfInput) {
        match instruction {
            Instruction::Push(source) => lemma_mentions_input(source, operands),
            Instruction::Insert(source, _) => lemma_mentions_input(source, operands),
            Instruction::OutputCharacter(source) => lemma_mentions_input(source, operands),
            Instruction::OutputNumber(source) => lemma_mentions_input(source, operands),
            _ => {},
        }
    }
}

/// No other failure has the exit status of the end of the input.
pub proof fn lemma_statuses_differ()
    ensures
        forall|failure: Failure|
            #[trigger] failure.spec_status() == Failure::EndOfInput.spec_status() ==> failure
                == Failure::EndOfInput,
{
}

/// Whether a value source reads from the input.
fn source_reads_input(source: &ValueSource) -> (reads: bool)
    ensures
        reads == mentions_input(*source),
    decreases *source,
{
    match source {
        ValueSource::Input => true,
        ValueSource::Operate(lhs, _, rhs) => source_reads_input(lhs) || source_reads_input(rhs),
        _ => false,
    }
}

/// Whether an instruction evaluates a value source that reads from the
/// input.
fn reads_input(instruction: &Instruction) -> (reads: bool)
    ensures
        reads == wants_input(*instruction),
{
    match instruction {
        Instruction::Push(source) => source_reads_input(source),
        Instruction::Insert(source, _) => source_reads_input(source),
        Instruction::OutputCharacter(source) => source_reads_input(source),
        Instruction::OutputNumber(source) => source_reads_input(source),
        _ => false,
    }
}

/// A copy of the bytes.
fn copy_of(bytes: &Vec<u8>) -> (copy: Vec<u8>)
    ensures
        copy@ == bytes@,
{
    let copy = bytes.clone();
    assert(copy@ =~= bytes@);
    copy
}

/// The interpreter: the containers of the host, the cursors, and the place
/// reached in the program.
pub struct State<'a> {
    stack: Vec<DataType>,
    deque: VecDeque<DataType>,
    current_sequence: usize,
    next_sections: Vec<usize>,
    current_section: usize,
    done: usize,
    read: usize,
    status: Option<i32>,
    input: Vec<u8>,
    sequences: &'a Vec<Sequence>,
}

impl<'a> View for State<'a> {
    type V = Position;

    closed spec fn view(&self) -> Position {
        Position {
            operands: Operands {
                stack: self.stack@,
                deque: self.deque@,
                input: self.input@.skip(self.read as int),
            },
            sequence: self.current_sequence as int,
            section: self.current_section as int,
            done: self.done as int,
            cursors: Seq::new(self.next_sections@.len(), |i: int| self.next_sections@[i] as int),
            status: self.status,
        }
    }
}

impl<'a> State<'a> {
    /// No more of the input has been read than there is.
    pub closed spec fn wf(&self) -> bool {
        self.read <= self.input@.len()
    }

    /// The program that is interpreted.
    pub closed spec fn program(&self) -> Program {
        self.sequences.deep_view()
    }

    /// The whole input that the interpreter has been given so far.
    pub closed spec fn input(&self) -> Seq<u8> {
        self.input@
    }

    /// An interpreter at the start of a program, with the input that is
    /// known so far; more can be supplied later.
    pub fn new(sequences: &'a Vec<Sequence>, input: &Vec<u8>) -> (state: State<'a>)
        ensures
            state.wf(),
            state.program() == sequences.deep_view(),
            state.input() == input@,
            state@ == initial_position(sequences.deep_view(), input@),
    {
        let mut next_sections: Vec<usize> = Vec::new();
        let mut index: usize = 0;
        while index < sequences.len()
            invariant
                index <= sequences.len(),
                next_sections@.len() == index,
                forall|sequence: int|
                    0 <= sequence < index ==> #[trigger] next_sections@[sequence] == if sequence
                        == 1 {
                        1usize
                    } else {
                        0usize
                    },
            decreases sequences.len() - index,
        {
            next_sections.push(
                if index == 1 {
                    1
                } else {
                    0
                },
            );
            index += 1;
        }
        let mut state = State {
            stack: Vec::new(),
            deque: VecDeque::new(),
            current_sequence: 1,
            next_sections,
            current_section: 0,
            done: 0,
            read: 0,
            status: None,
            input: copy_of(input),
            sequences,
        };
        assert(input@.skip(0) =~= input@);
        assert(state@.cursors =~= initial_cursors(sequences.deep_view().len()));
        state.enter(1, 0);
        state
    }

    /// The exit status, once the program has ended.
    pub fn status(&self) -> (status: Option<i32>)
        ensures
            status == self@.status,
    {
        self.status
    }

    /// Gives the interpreter one more byte of input, after those that it
    /// has been given before.
    pub fn supply(&mut self, byte: u8)
        requires
            old(self).wf(),
        ensures
            final(self).wf(),
            final(self).program() == old(self).program(),
            final(self).input() == old(self).input().push(byte),
            final(self)@ == (Position {
                operands: Operands {
                    input: old(self)@.operands.input.push(byte),
                    ..old(self)@.operands
                },
                ..old(self)@
            }),
    {
        self.input.push(byte);
        assert(self.input@.skip(self.read as int) =~= old(self).input@.skip(
            self.read as int,
        ).push(byte));
    }

    /// A second interpreter in the same state.
    fn duplicate(&self) -> (copy: State<'a>)
        requires
            self.wf(),
        ensures
            copy.wf(),
            copy.program() == self.program(),
            copy.input() == self.input(),
            copy@ == self@,
    {
        let stack = self.stack.clone();
        let deque = self.deque.clone();
        let next_sections = self.next_sections.clone();
        let input = self.input.clone();
        assert(stack@ =~= self.stack@);
        assert(deque@ =~= self.deque@);
        assert(next_sections@ =~= self.next_sections@);
        assert(input@ =~= self.input@);
        let copy = State {
            stack,
            deque,
            current_sequence: self.current_sequence,
            next_sections,
            current_section: self.current_section,
            done: self.done,
            read: self.read,
            status: self.status,
            input,
            sequences: self.sequences,
        };
        assert(copy@.cursors =~= self@.cursors);
        copy
    }

    /// Whether the next step would end the program for want of input: the
    /// instruction that runs next reads more bytes than the interpreter has
    /// been given. A caller that can get more input supplies a byte and asks
    /// again.
    pub fn starved(&self) -> (hungry: bool)
        requires
            self.wf(),
        ensures
            hungry == starved(self.program(), self@),
    {
        if self.status.is_some() {
            return false;
        }
        match self.get_instruction() {
            None => false,
            Some(instruction) => {
                if !reads_input(instruction) {
                    proof {
                        lemma_wants_input(*instruction, self@.operands);
                    }
                    return false;
                }
                let mut copy = self.duplicate();
                copy.perform(instruction);
                proof {
                    lemma_statuses_differ();
                }
                match copy.status {
                    Some(status) => status == Failure::EndOfInput.status(),
                    None => false,
                }
            },
        }
    }

    /// Ends the program with a failure.
    fn stop(&mut self, failure: Failure) -> (action: Action)
        requires
            old(self).wf(),
        ensures
            final(self).wf(),
            final(self).program() == old(self).program(),
            final(self).input() == old(self).input(),
            (final(self)@, action) == stopped(old(self)@, failure),
    {
        let status = failure.status();
        self.release();
        self.status = Some(status);
        Action::Exit(status)
    }

    /// Lets the containers go and drops the rest of the input.
    fn release(&mut self)
        requires
            old(self).wf(),
        ensures
            final(self).wf(),
            final(self).program() == old(self).program(),
            final(self).input() == old(self).input(),
            final(self)@ == released(old(self)@),
    {
        self.stack = Vec::new();
        self.deque = VecDeque::new();
        self.read = self.input.len();
        assert(self.input@.skip(self.read as int) =~= Seq::<u8>::empty());
    }

    /// Goes to the start of a section.
    fn enter(&mut self, sequence: usize, section: usize) -> (action: Action)
        requires
            old(self).wf(),
        ensures
            final(self).wf(),
            final(self).program() == old(self).program(),
            final(self).input() == old(self).input(),
            (final(self)@, action) == entered(
                old(self).program(),
                old(self)@,
                sequence as int,
                section as int,
            ),
    {
        let ghost program = self.program();
        if sequence < self.sequences.len() && sequence < self.next_sections.len() {
            assert(program[sequence as int].len() == self.sequences@[sequence as int]@.len());
            if section < self.sequences[sequence].len() {
                let instructions = &self.sequences[sequence][section];
                proof {
                    lemma_section_view(*instructions);
                    assert(program[sequence as int][section as int] == instructions@);
                }
                let count = instructions.len();
                let ends_in_jump = count > 0 && matches!(
                    instructions[count - 1],
                    Instruction::Jump(_, _)
                );
                if !ends_in_jump {
                    self.next_sections.set(sequence, section + 1);
                    assert(self@.cursors =~= old(self)@.cursors.update(
                        sequence as int,
                        section + 1,
                    ));
                }
                self.current_sequence = sequence;
                self.current_section = section;
                self.done = 0;
                return Action::Continue;
            }
        }
        self.stop(Failure::Panic)
    }

    /// Goes into a sequence through its cursor.
    fn resume(&mut self, sequence: usize) -> (action: Action)
        requires
            old(self).wf(),
        ensures
            final(self).wf(),
            final(self).program() == old(self).program(),
            final(self).input() == old(self).input(),
            (final(self)@, action) == resumed(old(self).program(), old(self)@, sequence as int),
    {
        if sequence < self.next_sections.len() {
            let section = self.next_sections[sequence];
            self.enter(sequence, section)
        } else {
            self.stop(Failure::Panic)
        }
    }

    /// The instruction that runs next, if the section that is running has
    /// one left.
    pub fn get_instruction(&self) -> (instruction: Option<&'a Instruction>)
        ensures
            instruction is Some ==> self@.done < usize::MAX,
            ({
                let position = self@;
                let program = self.program();
                if 0 <= position.sequence < program.len() && 0 <= position.section
                    < program[position.sequence].len() && position.done
                    < program[position.sequence][position.section].len() {
                    instruction == Some(
                        &program[position.sequence][position.section][position.done],
                    )
                } else {
                    instruction is None
                }
            }),
    {
        let ghost program = self.program();
        if self.current_sequence < self.sequences.len() {
            assert(program[self.current_sequence as int].len()
                == self.sequences@[self.current_sequence as int]@.len());
            if self.current_section < self.sequences[self.current_sequence].len() {
                let instructions = &self.sequences[self.current_sequence][self.current_section];
                proof {
                    lemma_section_view(*instructions);
                    assert(program[self.current_sequence as int][self.current_section as int]
                        == instructions@);
                }
                if self.done < instructions.len() {
                    return Some(&instructions[self.done]);
                }
            }
        }
        None
    }

    /// Passes the instruction that runs next.
    pub fn advance(&mut self)
        requires
            old(self).wf(),
            old(self)@.done < usize::MAX,
        ensures
            final(self).wf(),
            final(self).program() == old(self).program(),
            final(self).input() == old(self).input(),
            final(self)@ == (Position { done: old(self)@.done + 1, ..old(self)@ }),
    {
        self.done += 1;
    }

    /// The next instruction of the section that is running, which is then
    /// passed; or nothing when the section has none left or does not exist.
    pub fn next_instruction(&mut self) -> (instruction: Option<&'a Instruction>)
        requires
            old(self).wf(),
        ensures
            final(self).wf(),
            final(self).program() == old(self).program(),
            final(self).input() == old(self).input(),
            ({
                let position = old(self)@;
                let program = old(self).program();
                if 0 <= position.sequence < program.len() && 0 <= position.section
                    < program[position.sequence].len() && position.done
                    < program[position.sequence][position.section].len() {
                    &&& instruction == Some(
                        &program[position.sequence][position.section][position.done],
                    )
                    &&& final(self)@ == (Position { done: position.done + 1, ..position })
                } else {
                    &&& instruction is None
                    &&& final(self)@ == position
                }
            }),
    {
        let instruction = self.get_instruction();
        if instruction.is_some() {
            self.advance();
        }
        instruction
    }

    /// Puts a value on the stack.
    pub fn push(&mut self, value: DataType)
        requires
            old(self).wf(),
        ensures
            final(self).wf(),
            final(self).program() == old(self).program(),
            final(self).input() == old(self).input(),
            final(self)@ == (Position {
                operands: Operands {
                    stack: old(self)@.operands.stack.push(value),
                    ..old(self)@.operands
                },
                ..old(self)@
            }),
    {
        self.stack.push(value);
    }

    /// Takes the top of the stack off.
    pub fn pop(&mut self) -> (result: Result<DataType, Failure>)
        requires
            old(self).wf(),
        ensures
            final(self).wf(),
            final(self).program() == old(self).program(),
            final(self).input() == old(self).input(),
            match popped(old(self)@.operands) {
                Ok((value, operands)) => result == Ok::<DataType, Failure>(value) && final(self)@ == (
                Position { operands, ..old(self)@ }),
                Err(failure) => result == Err::<DataType, Failure>(failure) && final(self)@
                    == old(self)@,
            },
    {
        match self.stack.pop() {
            Some(value) => {
                assert(self.stack@ =~= old(self).stack@.drop_last());
                Ok(value)
            },
            None => Err(Failure::StackUnderflow),
        }
    }

    /// Puts a value into the deque at one end.
    pub fn insert(&mut self, value: DataType, end: &QueueEnd)
        requires
            old(self).wf(),
        ensures
            final(self).wf(),
            final(self).program() == old(self).program(),
            final(self).input() == old(self).input(),
            final(self)@ == (Position {
                operands: Operands {
                    deque: inserted(old(self)@.operands.deque, value, *end),
                    ..old(self)@.operands
                },
                ..old(self)@
            }),
    {
        match end {
            QueueEnd::Back => self.deque.push_front(value),
            QueueEnd::Front => self.deque.push_back(value),
        }
    }

    /// Takes the value at one end of the deque out.
    pub fn remove(&mut self, end: &QueueEnd) -> (result: Result<DataType, Failure>)
        requires
            old(self).wf(),
        ensures
            final(self).wf(),
            final(self).program() == old(self).program(),
            final(self).input() == old(self).input(),
            match removed(old(self)@.operands, *end) {
                Ok((value, operands)) => result == Ok::<DataType, Failure>(value) && final(self)@ == (
                Position { operands, ..old(self)@ }),
                Err(failure) => result == Err::<DataType, Failure>(failure) && final(self)@
                    == old(self)@,
            },
    {
        let removed = match end {
            QueueEnd::Back => self.deque.pop_front(),
            QueueEnd::Front => self.deque.pop_back(),
        };
        match removed {
            Some(value) => {
                assert(*end is Front ==> self.deque@ =~= old(self).deque@.drop_last());
                Ok(value)
            },
            None => Err(Failure::DequeUnderflow),
        }
    }

    /// Jumps to another sequence, which goes on where its cursor stands, or
    /// from its first section if it restarts.
    pub fn jump(&mut self, direction: &Direction, start: &Start) -> (action: Action)
        requires
            old(self).wf(),
        ensures
            final(self).wf(),
            final(self).program() == old(self).program(),
            final(self).input() == old(self).input(),
            ({
                let position = old(self)@;
                let target = jump_target(position.sequence, *direction);
                (final(self)@, action) == if 0 <= target < position.cursors.len() {
                    resumed(
                        old(self).program(),
                        Position {
                            cursors: if *start is Restart {
                                position.cursors.update(target, 0)
                            } else {
                                position.cursors
                            },
                            ..position
                        },
                        target,
                    )
                } else {
                    stopped(position, Failure::Panic)
                }
            }),
    {
        let count = self.next_sections.len();
        let target = match direction {
            Direction::Previous => if self.current_sequence > 0 {
                Some(self.current_sequence - 1)
            } else {
                None
            },
            Direction::Current => Some(self.current_sequence),
            Direction::Next => if self.current_sequence < count {
                Some(self.current_sequence + 1)
            } else {
                None
            },
        };
        match target {
            Some(target) => {
                if target < count {
                    match start {
                        Start::Restart => {
                            self.next_sections.set(target, 0);
                            assert(self@.cursors =~= old(self)@.cursors.update(target as int, 0));
                        },
                        Start::Continue => {},
                    }
                    self.resume(target)
                } else {
                    self.stop(Failure::Panic)
                }
            },
            None => self.stop(Failure::Panic),
        }
    }

    /// The result of comparing the top of the stack, which is popped, with
    /// the front of the deque, which stays.
    fn compare(&mut self, comparison: Compare) -> (result: Result<DataType, Failure>)
        requires
            old(self).wf(),
        ensures
            final(self).wf(),
            final(self).program() == old(self).program(),
            final(self).input() == old(self).input(),
            match compared(old(self)@.operands, comparison) {
                Ok((value, operands)) => result == Ok::<DataType, Failure>(value) && final(self)@ == (
                Position { operands, ..old(self)@ }),
                Err(failure) => result == Err::<DataType, Failure>(failure) && final(self)@
                    == released(old(self)@),
            },
    {
        let top = match self.stack.pop() {
            Some(top) => top,
            None => {
                self.release();
                return Err(Failure::StackUnderflow);
            },
        };
        assert(self.stack@ =~= old(self).stack@.drop_last());
        let count = self.deque.len();
        if count == 0 {
            self.release();
            return Err(Failure::DequeUnderflow);
        }
        let front = self.deque[count - 1];
        let holds = match comparison {
            Compare::Equal => top == front,
            Compare::Greater => top > front,
            Compare::GreaterOrEqual => top >= front,
        };
        Ok(
            if holds {
                1
            } else {
                0
            },
        )
    }

    /// The value of a source. What the source consumes is gone from the
    /// stack, the deque and the input; when the evaluation fails, all of them
    /// are let go.
    pub fn value_from_source(&mut self, source: &ValueSource) -> (result: Result<
        DataType,
        Failure,
    >)
        requires
            old(self).wf(),
        ensures
            final(self).wf(),
            final(self).program() == old(self).program(),
            final(self).input() == old(self).input(),
            match evaluate(*source, old(self)@.operands) {
                Ok((value, operands)) => result == Ok::<DataType, Failure>(value) && final(self)@ == (
                Position { operands, ..old(self)@ }),
                Err(failure) => result == Err::<DataType, Failure>(failure) && final(self)@
                    == released(old(self)@),
            },
        decreases *source,
    {
        match source {
            ValueSource::Pop => match self.pop() {
                Ok(value) => Ok(value),
                Err(failure) => {
                    self.release();
                    Err(failure)
                },
            },
            ValueSource::Remove(end) => match self.remove(end) {
                Ok(value) => Ok(value),
                Err(failure) => {
                    self.release();
                    Err(failure)
                },
            },
            ValueSource::Constant(value) => Ok(*value),
            ValueSource::Operate(lhs, operator, rhs) => {
                let lhs_value = match self.value_from_source(lhs) {
                    Ok(value) => value,
                    Err(failure) => {
                        return Err(failure);
                    },
                };
                let rhs_value = match self.value_from_source(rhs) {
                    Ok(value) => value,
                    Err(failure) => {
                        return Err(failure);
                    },
                };
                if can_operate(*operator, rhs_value) {
                    Ok(perform_operation(lhs_value, rhs_value, operator))
                } else {
                    self.release();
                    Err(Failure::DivisionByZero)
                }
            },
            ValueSource::CloneTop => {
                let count = self.stack.len();
                if count > 0 {
                    Ok(self.stack[count - 1])
                } else {
                    self.release();
                    Err(Failure::StackUnderflow)
                }
            },
            ValueSource::Input => {
                if self.read < self.input.len() {
                    let byte = self.input[self.read];
                    assert(self.input@.skip(self.read as int).drop_first() =~= self.input@.skip(
                        self.read + 1,
                    ));
                    self.read += 1;
                    Ok(byte as DataType)
                } else {
                    self.release();
                    Err(Failure::EndOfInput)
                }
            },
            ValueSource::Equal => self.compare(Compare::Equal),
            ValueSource::Greater => self.compare(Compare::Greater),
        }
    }

    /// Runs an instruction that stays in its section.
    fn perform(&mut self, instruction: &Instruction) -> (action: Action)
        requires
            old(self).wf(),
        ensures
            final(self).wf(),
            final(self).program() == old(self).program(),
            final(self).input() == old(self).input(),
            (final(self)@, action) == match perform(*instruction, old(self)@.operands) {
                Ok((operands, action)) => (Position { operands, ..old(self)@ }, action),
                Err(failure) => stopped(old(self)@, failure),
            },
    {
        match instruction {
            Instruction::BitwiseNot => match self.pop() {
                Ok(value) => {
                    self.push(!value);
                    Action::Continue
                },
                Err(failure) => self.stop(failure),
            },
            Instruction::LogicalNot => match self.pop() {
                Ok(value) => {
                    self.push(
                        if value == 0 {
                            1
                        } else {
                            0
                        },
                    );
                    Action::Continue
                },
                Err(failure) => self.stop(failure),
            },
            Instruction::Push(source) => match self.value_from_source(source) {
                Ok(value) => {
                    self.push(value);
                    Action::Continue
                },
                Err(failure) => self.stop(failure),
            },
            Instruction::Destroy => match self.pop() {
                Ok(_) => Action::Continue,
                Err(failure) => self.stop(failure),
            },
            Instruction::Insert(source, end) => match self.value_from_source(source) {
                Ok(value) => {
                    self.insert(value, end);
                    Action::Continue
                },
                Err(failure) => self.stop(failure),
            },
            Instruction::OutputNumber(source) => match self.value_from_source(source) {
                Ok(value) => Action::PutNumber(value),
                Err(failure) => self.stop(failure),
            },
            Instruction::OutputCharacter(source) => match self.value_from_source(source) {
                Ok(value) => Action::PutChar(#[verifier::truncate] (value as u8)),
                Err(failure) => self.stop(failure),
            },
            _ => Action::Continue,
        }
    }

    /// Runs the next instruction, or moves to the next section when the
    /// section that is running has no instruction left.
    pub fn step(&mut self) -> (action: Action)
        requires
            old(self).wf(),
        ensures
            final(self).wf(),
            final(self).program() == old(self).program(),
            final(self).input() == old(self).input(),
            (final(self)@, action) == interpreter_step(old(self).program(), old(self)@),
    {
        let ghost program = self.program();
        if let Some(status) = self.status {
            return Action::Exit(status);
        }
        let sequence = self.current_sequence;
        let section = self.current_section;
        if sequence >= self.sequences.len() {
            return self.stop(Failure::Panic);
        }
        assert(program[sequence as int].len() == self.sequences@[sequence as int]@.len());
        if section >= self.sequences[sequence].len() {
            return self.stop(Failure::Panic);
        }
        match self.next_instruction() {
            None => self.resume(sequence),
            Some(instruction) => match instruction {
                Instruction::Exit => {
                    self.status = Some(0);
                    Action::Exit(0)
                },
                Instruction::SkipIfNotOne => match self.pop() {
                    Err(failure) => self.stop(failure),
                    Ok(value) => {
                        let count = self.sequences[sequence].len();
                        if value == 1 {
                            self.enter(sequence, section + 1)
                        } else if section + 1 < count {
                            self.enter(sequence, section + 2)
                        } else {
                            self.stop(Failure::Panic)
                        }
                    },
                },
                Instruction::Jump(direction, start) => self.jump(direction, start),
                other => self.perform(other),
            },
        }
    }
}

/// An interpreter together with its output, as a mathematical value.
pub struct Interpretation {
    /// The state of the interpreter.
    pub position: Position,
    /// The bytes that have been written to the output.
    pub output: Seq<u8>,
}

/// One step of an interpreter whose writes go to `output`.
pub open spec fn interpret_once(program: Program, run: Interpretation) -> Interpretation {
    let stepped = interpreter_step(program, run.position);
    Interpretation { position: stepped.0, output: run.output + emitted(stepped.1) }
}

/// The interpreter and its output after `steps` steps.
pub open spec fn interpret_for(program: Program, run: Interpretation, steps: nat) -> Interpretation
    decreases steps,
{
    if steps == 0 {
        run
    } else {
        interpret_once(program, interpret_for(program, run, (steps - 1) as nat))
    }
}

/// The interpreter at the start of a program on `input`, before it has
/// written anything.
pub open spec fn initial_interpretation(program: Program, input: Seq<u8>) -> Interpretation {
    Interpretation { position: initial_position(program, input), output: Seq::empty() }
}

/// Once the program has ended, further steps change nothing.
pub proof fn lemma_interpreter_ended_stays(program: Program, run: Interpretation, steps: nat)
    requires
        run.position.status is Some,
    ensures
        interpret_for(program, run, steps) == run,
    decreases steps,
{
    if steps > 0 {
        lemma_interpreter_ended_stays(program, run, (steps - 1) as nat);
        assert(run.output + Seq::<u8>::empty() =~= run.output);
    }
}

/// Steps of the interpreter add up.
pub proof fn lemma_interpret_for_adds(
    program: Program,
    run: Interpretation,
    first: nat,
    then: nat,
)
    ensures
        interpret_for(program, run, first + then) == interpret_for(
            program,
            interpret_for(program, run, first),
            then,
        ),
    decreases then,
{
    if then > 0 {
        lemma_interpret_for_adds(program, run, first, (then - 1) as nat);
    }
}

/// Interprets a program on `input` for `steps` steps at most.
pub fn execute(sequences: &Vec<Sequence>, input: &Vec<u8>, steps: u64) -> (outcome: Outcome)
    ensures
        outcome.status == interpret_for(
            sequences.deep_view(),
            initial_interpretation(sequences.deep_view(), input@),
            steps as nat,
        ).position.status,
        outcome.output@ == interpret_for(
            sequences.deep_view(),
            initial_interpretation(sequences.deep_view(), input@),
            steps as nat,
        ).output,
{
    let ghost program = sequences.deep_view();
    let ghost start = initial_interpretation(program, input@);
    let mut state = State::new(sequences, input);
    let mut output: Vec<u8> = Vec::new();
    let mut taken: u64 = 0;
    while taken < steps
        invariant
            taken <= steps,
            state.wf(),
            state.program() == program,
            program == sequences.deep_view(),
            start == initial_interpretation(program, input@),
            interpret_for(program, start, taken as nat) == (Interpretation {
                position: state@,
                output: output@,
            }),
        decreases steps - taken,
    {
        if state.status().is_some() {
            proof {
                let run = interpret_for(program, start, taken as nat);
                lemma_interpreter_ended_stays(program, run, (steps - taken) as nat);
                lemma_interpret_for_adds(program, start, taken as nat, (steps - taken) as nat);
            }
            return Outcome { status: state.status(), output };
        }
        let action = state.step();
        emit(&mut output, action);
        taken += 1;
    }
    Outcome { status: state.status(), output }
}

} // verus!
