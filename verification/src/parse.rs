//! The line parser: one character is one command, one line is one sequence.

use vstd::prelude::*;
use crate::error::Error;
use crate::syntax::{Direction, Instruction, Operator, QueueEnd, Section, Sequence, Start, ValueSource};

verus! {

/// What a character that is no command does to the scan of its line.
#[derive(Debug, PartialEq, Eq, Clone, Copy, Structural)]
pub enum ControlFlow {
    /// The character is a blank and is skipped.
    Continue,
    /// The character is not recognized, and the scan ends with an error.
    Break,
}

/// The instruction that pops two values and pushes the result of `operator`.
pub open spec fn arithmetic(operator: Operator) -> Instruction {
    Instruction::Push(
        ValueSource::Operate(Box::new(ValueSource::Pop), operator, Box::new(ValueSource::Pop)),
    )
}

impl Instruction {
    /// The meaning of a character of the source.
    pub open spec fn spec_from(character: char) -> Result<Instruction, ControlFlow> {
        match character {
            '+' => Ok(arithmetic(Operator::Add)),
            '-' => Ok(arithmetic(Operator::Sub)),
            '*' => Ok(arithmetic(Operator::Mul)),
            '/' => Ok(arithmetic(Operator::Div)),
            '%' => Ok(arithmetic(Operator::Mod)),
            '&' => Ok(arithmetic(Operator::And)),
            '|' => Ok(arithmetic(Operator::Or)),
            '^' => Ok(arithmetic(Operator::Xor)),
            '~' => Ok(Instruction::BitwiseNot),
            '!' => Ok(Instruction::LogicalNot),
            '=' => Ok(Instruction::Push(ValueSource::Equal)),
            '>' => Ok(Instruction::Push(ValueSource::Greater)),
            '@' => Ok(Instruction::SkipIfNotOne),
            '}' => Ok(Instruction::Insert(ValueSource::Pop, QueueEnd::Front)),
            '{' => Ok(Instruction::Push(ValueSource::Remove(QueueEnd::Front))),
            '[' => Ok(Instruction::Insert(ValueSource::Pop, QueueEnd::Back)),
            ']' => Ok(Instruction::Push(ValueSource::Remove(QueueEnd::Back))),
            '#' => Ok(Instruction::Destroy),
            '\\' => Ok(Instruction::Push(ValueSource::CloneTop)),
            '?' => Ok(Instruction::Push(ValueSource::Input)),
            ':' => Ok(Instruction::OutputCharacter(ValueSource::Pop)),
            ';' => Ok(Instruction::OutputNumber(ValueSource::Pop)),
            ',' => Ok(Instruction::Jump(Direction::Next, Start::Restart)),
            '.' => Ok(Instruction::Jump(Direction::Next, Start::Continue)),
            '\'' => Ok(Instruction::Jump(Direction::Previous, Start::Continue)),
            '<' => Ok(Instruction::Jump(Direction::Current, Start::Restart)),
            ' ' | '\t' => Err(ControlFlow::Continue),
            _ => if '0' <= character && character <= '9' {
                Ok(Instruction::Push(ValueSource::Constant((character as u32 - '0' as u32) as i64)))
            } else {
                Err(ControlFlow::Break)
            },
        }
    }

    /// The instruction that a character of the source stands for. A blank is
    /// passed over; any other character that is no command is not recognized.
    pub fn from(character: char) -> (result: Result<Instruction, ControlFlow>)
        ensures
            result == Instruction::spec_from(character),
    {
        match character {
            '+' => Ok(operate(Operator::Add)),
            '-' => Ok(operate(Operator::Sub)),
            '*' => Ok(operate(Operator::Mul)),
            '/' => Ok(operate(Operator::Div)),
            '%' => Ok(operate(Operator::Mod)),
            '&' => Ok(operate(Operator::And)),
            '|' => Ok(operate(Operator::Or)),
            '^' => Ok(operate(Operator::Xor)),
            '~' => Ok(Instruction::BitwiseNot),
            '!' => Ok(Instruction::LogicalNot),
            '=' => Ok(Instruction::Push(ValueSource::Equal)),
            '>' => Ok(Instruction::Push(ValueSource::Greater)),
            '@' => Ok(Instruction::SkipIfNotOne),
            '}' => Ok(Instruction::Insert(ValueSource::Pop, QueueEnd::Front)),
            '{' => Ok(Instruction::Push(ValueSource::Remove(QueueEnd::Front))),
            '[' => Ok(Instruction::Insert(ValueSource::Pop, QueueEnd::Back)),
            ']' => Ok(Instruction::Push(ValueSource::Remove(QueueEnd::Back))),
            '#' => Ok(Instruction::Destroy),
            '\\' => Ok(Instruction::Push(ValueSource::CloneTop)),
            '?' => Ok(Instruction::Push(ValueSource::Input)),
            ':' => Ok(Instruction::OutputCharacter(ValueSource::Pop)),
            ';' => Ok(Instruction::OutputNumber(ValueSource::Pop)),
            ',' => Ok(Instruction::Jump(Direction::Next, Start::Restart)),
            '.' => Ok(Instruction::Jump(Direction::Next, Start::Continue)),
            '\'' => Ok(Instruction::Jump(Direction::Previous, Start::Continue)),
            '<' => Ok(Instruction::Jump(Direction::Current, Start::Restart)),
            ' ' | '\t' => Err(ControlFlow::Continue),
            _ => if '0' <= character && character <= '9' {
                let value: u32 = character as u32 - '0' as u32;
                Ok(Instruction::Push(ValueSource::Constant(value as i64)))
            } else {
                Err(ControlFlow::Break)
            },
        }
    }

    /// Whether a section ends with this instruction.
    pub open spec fn spec_breaks_section(&self) -> bool {
        self is Jump || self is SkipIfNotOne
    }

    /// Whether a section ends with this instruction: a jump or a skip.
    #[verifier::when_used_as_spec(spec_breaks_section)]
    pub fn breaks_section(&self) -> (breaks: bool)
        ensures
            breaks == self.spec_breaks_section(),
    {
        match self {
            Instruction::Jump(_, _) | Instruction::SkipIfNotOne => true,
            _ => false,
        }
    }
}

fn operate(operator: Operator) -> (instruction: Instruction)
    ensures
        instruction == arithmetic(operator),
{
    Instruction::Push(
        ValueSource::Operate(Box::new(ValueSource::Pop), operator, Box::new(ValueSource::Pop)),
    )
}

/// Whether a character is not recognized: it is neither a command nor a
/// blank.
pub open spec fn is_invalid(character: char) -> bool {
    Instruction::spec_from(character) == Err::<Instruction, ControlFlow>(ControlFlow::Break)
}

/// Whether a character ends a line.
pub open spec fn is_newline(character: char) -> bool {
    character == '\n'
}

/// The number of characters at the start of `text` before the first one at
/// which `stops` holds.
pub open spec fn run_length(text: Seq<char>, stops: spec_fn(char) -> bool) -> nat
    decreases text.len(),
{
    if text.len() == 0 || stops(text.first()) {
        0
    } else {
        1 + run_length(text.drop_first(), stops)
    }
}

/// A run ends at the first character at which `stops` holds, or with the text.
pub proof fn lemma_run_length(text: Seq<char>, stops: spec_fn(char) -> bool, length: nat)
    requires
        length <= text.len(),
        forall|i: int| 0 <= i < length ==> !stops(#[trigger] text[i]),
        length == text.len() || stops(text[length as int]),
    ensures
        run_length(text, stops) == length,
    decreases length,
{
    if length > 0 {
        let rest = text.drop_first();
        assert forall|i: int| 0 <= i < length - 1 implies !stops(#[trigger] rest[i]) by {
            assert(rest[i] == text[i + 1]);
        }
        lemma_run_length(rest, stops, (length - 1) as nat);
    }
}

/// The instructions that the characters of `code` stand for, the blanks
/// among them passed over.
pub open spec fn commands(code: Seq<char>) -> Seq<Instruction>
    decreases code.len(),
{
    if code.len() == 0 {
        Seq::empty()
    } else {
        let earlier = commands(code.drop_last());
        match Instruction::spec_from(code.last()) {
            Ok(instruction) => earlier.push(instruction),
            Err(_) => earlier,
        }
    }
}

/// The number of characters of a line before the first one that is not
/// recognized.
pub open spec fn valid_length(line: Seq<char>) -> nat {
    run_length(line, |c: char| is_invalid(c))
}

/// The instructions of a line; or the error that names the first of its
/// characters that is neither a command nor a blank.
pub open spec fn scanned_line(line: Seq<char>) -> Result<Seq<Instruction>, Error> {
    let valid = valid_length(line);
    if valid < line.len() {
        Err(Error::InvalidCommand(line[valid as int]))
    } else {
        Ok(commands(line))
    }
}

/// Whether a section ends with the instruction at `index`: it is a jump or a
/// skip, or it is the one instruction that the skip before it may skip.
pub open spec fn ends_section(instructions: Seq<Instruction>, index: int) -> bool {
    instructions[index].spec_breaks_section() || (index > 0 && instructions[index - 1]
        is SkipIfNotOne)
}

/// The sections that the first `count` instructions have closed, and the
/// section that is still open after them.
pub open spec fn split(instructions: Seq<Instruction>, count: nat) -> (
    Seq<Seq<Instruction>>,
    Seq<Instruction>,
)
    decreases count,
{
    if count == 0 {
        (Seq::empty(), Seq::empty())
    } else {
        let (closed, open) = split(instructions, (count - 1) as nat);
        let extended = open.push(instructions[count - 1]);
        if ends_section(instructions, count - 1) {
            (closed.push(extended), Seq::empty())
        } else {
            (closed, extended)
        }
    }
}

/// The sections of a line with these instructions. The last section ends
/// with `Exit`.
pub open spec fn sections(instructions: Seq<Instruction>) -> Seq<Seq<Instruction>> {
    let (closed, open) = split(instructions, instructions.len());
    closed.push(open.push(Instruction::Exit))
}

/// Whether the last instruction is a skip, which then has nothing to skip.
pub open spec fn ends_in_skip(instructions: Seq<Instruction>) -> bool {
    instructions.len() > 0 && instructions.last() is SkipIfNotOne
}

/// The sequence that a line stands for, or the error in it: a character that
/// is not recognized, or else a skip at its end.
pub open spec fn parsed_line(line: Seq<char>, line_number: usize) -> Result<
    Seq<Seq<Instruction>>,
    Error,
> {
    match scanned_line(line) {
        Err(error) => Err(error),
        Ok(instructions) => if ends_in_skip(instructions) {
            Err(Error::TrailingSkip(line_number))
        } else {
            Ok(sections(instructions))
        },
    }
}

/// A vector of instructions is its own deep view.
pub proof fn lemma_section_view(section: Section)
    ensures
        section.deep_view() == section@,
{
    assert(section.deep_view() =~= section@);
}

/// The instructions of a line, in order. A character that is neither a
/// command nor a blank is an error.
pub fn scan_line(characters: &Vec<char>) -> (result: Result<Vec<Instruction>, Error>)
    ensures
        result matches Ok(instructions) ==> scanned_line(characters@) == Ok::<
            Seq<Instruction>,
            Error,
        >(instructions@),
        result matches Err(error) ==> scanned_line(characters@) == Err::<Seq<Instruction>, Error>(
            error,
        ),
{
    let ghost stops = |c: char| is_invalid(c);
    let mut instructions: Vec<Instruction> = Vec::new();
    let mut position: usize = 0;
    while position < characters.len()
        invariant
            position <= characters.len(),
            forall|i: int| 0 <= i < position ==> !stops(#[trigger] characters@[i]),
            instructions@ == commands(characters@.take(position as int)),
            stops == |c: char| is_invalid(c),
        decreases characters.len() - position,
    {
        let ghost before = characters@.take(position as int);
        let ghost after = characters@.take(position + 1);
        assert(after.drop_last() =~= before);
        let character = characters[position];
        match Instruction::from(character) {
            Ok(instruction) => {
                instructions.push(instruction);
            },
            Err(ControlFlow::Continue) => {},
            Err(ControlFlow::Break) => {
                proof {
                    lemma_run_length(characters@, stops, position as nat);
                }
                return Err(Error::InvalidCommand(character));
            },
        }
        position += 1;
    }
    proof {
        lemma_run_length(characters@, stops, position as nat);
        assert(characters@.take(position as int) =~= characters@);
    }
    Ok(instructions)
}

/// The sections of a line with these instructions.
pub fn split_sections(instructions: &Vec<Instruction>) -> (sequence: Sequence)
    ensures
        sequence.deep_view() == sections(instructions@),
{
    let mut sequence: Sequence = Vec::new();
    let mut section: Section = Vec::new();
    let mut index: usize = 0;
    assert(sequence.deep_view() =~= Seq::<Seq<Instruction>>::empty());
    while index < instructions.len()
        invariant
            index <= instructions.len(),
            (sequence.deep_view(), section@) == split(instructions@, index as nat),
        decreases instructions.len() - index,
    {
        let instruction = instructions[index].clone();
        let after_skip = index > 0 && matches!(instructions[index - 1], Instruction::SkipIfNotOne);
        let closes = instruction.breaks_section() || after_skip;
        section.push(instruction);
        if closes {
            let ghost closed = sequence.deep_view();
            proof {
                lemma_section_view(section);
            }
            sequence.push(section);
            assert(sequence.deep_view() =~= closed.push(section@));
            section = Vec::new();
        }
        index += 1;
    }
    let ghost closed = sequence.deep_view();
    section.push(Instruction::Exit);
    proof {
        lemma_section_view(section);
    }
    sequence.push(section);
    assert(sequence.deep_view() =~= closed.push(section@));
    sequence
}

/// Parses one line of the source into a sequence.
///
/// The line fails to parse when one of its characters is neither a command
/// nor a blank, or when its last instruction is a skip.
pub fn parse_line(characters: &Vec<char>, line_number: usize) -> (result: Result<Sequence, Error>)
    ensures
        result matches Ok(sequence) ==> parsed_line(characters@, line_number) == Ok::<
            Seq<Seq<Instruction>>,
            Error,
        >(sequence.deep_view()),
        result matches Err(error) ==> parsed_line(characters@, line_number) == Err::<
            Seq<Seq<Instruction>>,
            Error,
        >(error),
{
    let instructions = match scan_line(characters) {
        Ok(instructions) => instructions,
        Err(error) => {
            return Err(error);
        },
    };
    let count = instructions.len();
    if count > 0 && matches!(instructions[count - 1], Instruction::SkipIfNotOne) {
        Err(Error::TrailingSkip(line_number))
    } else {
        Ok(split_sections(&instructions))
    }
}

/// The sequence that stands before the first line and after the last one: a
/// jump out of the program ends it.
pub open spec fn sentinel() -> Seq<Seq<Instruction>> {
    seq![seq![Instruction::Exit]]
}

/// The number of characters of the first line of `text`, its line ending
/// left out.
pub open spec fn first_line_length(text: Seq<char>) -> nat {
    let end = run_length(text, |c: char| is_newline(c));
    if 0 < end < text.len() && text[end - 1] == '\r' {
        (end - 1) as nat
    } else {
        end
    }
}

/// The first line of `text`: what stands before the first line feed, without
/// the carriage return that may precede the line feed.
pub open spec fn first_line(text: Seq<char>) -> Seq<char> {
    text.take(first_line_length(text) as int)
}

/// What follows the first line of `text` and its line ending.
pub open spec fn after_first_line(text: Seq<char>) -> Seq<char> {
    let end = run_length(text, |c: char| is_newline(c));
    if end < text.len() {
        text.skip(end as int + 1)
    } else {
        Seq::empty()
    }
}

/// The sequences of the lines of `text` up to its end or its first empty
/// line, the first of them numbered `line_number`; or the error of the first
/// line that has one.
pub open spec fn parsed_lines(text: Seq<char>, line_number: nat) -> Result<
    Seq<Seq<Seq<Instruction>>>,
    Error,
>
    decreases text.len(),
{
    if text.len() == 0 || first_line(text).len() == 0 {
        Ok(Seq::empty())
    } else {
        match parsed_line(first_line(text), line_number as usize) {
            Err(error) => Err(error),
            Ok(sequence) => match parsed_lines(after_first_line(text), line_number + 1) {
                Err(error) => Err(error),
                Ok(later) => Ok(seq![sequence] + later),
            },
        }
    }
}

/// The program that a source text stands for: a sentinel, the sequences of
/// its lines, and a sentinel.
pub open spec fn parsed_source(text: Seq<char>) -> Result<Seq<Seq<Seq<Instruction>>>, Error> {
    match parsed_lines(text, 1) {
        Err(error) => Err(error),
        Ok(lines) => Ok(seq![sentinel()] + lines + seq![sentinel()]),
    }
}

/// The characters of a text.
pub fn characters(text: &str) -> (chars: Vec<char>)
    ensures
        chars@ == text@,
{
    let mut chars: Vec<char> = Vec::new();
    for character in iter: text.chars()
        invariant
            iter.seq() == text@,
            chars@.len() == iter.index(),
            chars@ == text@.take(chars@.len() as int),
    {
        assert(text@.take(chars@.len() as int + 1) =~= text@.take(chars@.len() as int).push(
            character,
        ));
        chars.push(character);
    }
    assert(text@.take(text@.len() as int) =~= text@);
    chars
}

fn exit_only() -> (sequence: Sequence)
    ensures
        sequence.deep_view() == sentinel(),
{
    let mut section: Section = Vec::new();
    section.push(Instruction::Exit);
    let mut sequence: Sequence = Vec::new();
    proof {
        lemma_section_view(section);
    }
    sequence.push(section);
    assert(sequence.deep_view() =~= sentinel());
    sequence
}

/// The first line of what stands in `text` from `position` on, and the
/// position after its line ending.
fn take_line(text: &Vec<char>, position: usize) -> (taken: (Vec<char>, usize))
    requires
        position < text.len(),
    ensures
        taken.0@ == first_line(text@.skip(position as int)),
        position < taken.1 <= text.len(),
        text@.skip(taken.1 as int) == after_first_line(text@.skip(position as int)),
{
    let ghost rest = text@.skip(position as int);
    let ghost newline = |c: char| is_newline(c);
    let mut end: usize = position;
    while end < text.len() && text[end] != '\n'
        invariant
            position <= end <= text.len(),
            rest == text@.skip(position as int),
            newline == |c: char| is_newline(c),
            forall|i: int| 0 <= i < end - position ==> !newline(#[trigger] rest[i]),
        decreases text.len() - end,
    {
        end += 1;
    }
    proof {
        lemma_run_length(rest, newline, (end - position) as nat);
    }
    let stop: usize = if end < text.len() && end > position && text[end - 1] == '\r' {
        end - 1
    } else {
        end
    };
    assert(stop - position == first_line_length(rest));
    let mut line: Vec<char> = Vec::new();
    let mut index: usize = position;
    while index < stop
        invariant
            position <= index <= stop <= text.len(),
            line@ == text@.subrange(position as int, index as int),
        decreases stop - index,
    {
        line.push(text[index]);
        assert(text@.subrange(position as int, index + 1) =~= text@.subrange(
            position as int,
            index as int,
        ).push(text@[index as int]));
        index += 1;
    }
    assert(line@ =~= first_line(rest));
    if end < text.len() {
        assert(after_first_line(rest) =~= text@.skip(end + 1));
        (line, end + 1)
    } else {
        assert(after_first_line(rest) =~= text@.skip(end as int));
        (line, end)
    }
}

/// Parses a source text into its sequences, one for each line up to the end
/// of the text or its first empty line, between two sentinels.
pub fn parse_str(source_code: &str) -> (result: Result<Vec<Sequence>, Error>)
    ensures
        result matches Ok(sequences) ==> parsed_source(source_code@) == Ok::<
            Seq<Seq<Seq<Instruction>>>,
            Error,
        >(sequences.deep_view()),
        result matches Err(error) ==> parsed_source(source_code@) == Err::<
            Seq<Seq<Seq<Instruction>>>,
            Error,
        >(error),
{
    let text = characters(source_code);
    let mut sequences: Vec<Sequence> = Vec::new();
    sequences.push(exit_only());
    let ghost mut done: Seq<Seq<Seq<Instruction>>> = Seq::empty();
    let mut position: usize = 0;
    let mut line_number: usize = 1;
    let mut finished = false;
    assert(sequences.deep_view() =~= seq![sentinel()] + done);
    assert(text@.skip(0) =~= text@);
    while !finished
        invariant
            text@ == source_code@,
            position <= text.len(),
            line_number <= position + 1,
            sequences.deep_view() == seq![sentinel()] + done,
            finished ==> parsed_lines(text@, 1) == Ok::<Seq<Seq<Seq<Instruction>>>, Error>(done),
            !finished ==> parsed_lines(text@, 1) == match parsed_lines(
                text@.skip(position as int),
                line_number as nat,
            ) {
                Err(error) => Err::<Seq<Seq<Seq<Instruction>>>, Error>(error),
                Ok(later) => Ok(done + later),
            },
        decreases
                if finished {
                    0
                } else {
                    1 + text.len() - position
                },
    {
        if position >= text.len() {
            assert(done + Seq::<Seq<Seq<Instruction>>>::empty() =~= done);
            finished = true;
        } else {
            let ghost rest = text@.skip(position as int);
            let (line, next) = take_line(&text, position);
            if line.len() == 0 {
                assert(done + Seq::<Seq<Seq<Instruction>>>::empty() =~= done);
                finished = true;
            } else {
                match parse_line(&line, line_number) {
                    Err(error) => {
                        return Err(error);
                    },
                    Ok(sequence) => {
                        let ghost added = sequence.deep_view();
                        let ghost held = sequences.deep_view();
                        sequences.push(sequence);
                        proof {
                            assert(sequences.deep_view() =~= held.push(added));
                            match parsed_lines(after_first_line(rest), (line_number + 1) as nat) {
                                Err(_) => {},
                                Ok(later) => {
                                    assert(done + (seq![added] + later) =~= done.push(added)
                                        + later);
                                },
                            }
                            done = done.push(added);
                            assert(sequences.deep_view() =~= seq![sentinel()] + done);
                        }
                        if next < text.len() {
                            position = next;
                            line_number += 1;
                        } else {
                            assert(done + Seq::<Seq<Seq<Instruction>>>::empty() =~= done);
                            position = next;
                            finished = true;
                        }
                    },
                }
            }
        }
    }
    let ghost held = sequences.deep_view();
    sequences.push(exit_only());
    proof {
        assert(sequences.deep_view() =~= held.push(sentinel()));
        assert(held.push(sentinel()) =~= seq![sentinel()] + done + seq![sentinel()]);
    }
    Ok(sequences)
}

/// The instructions of a line that is not cut into sections, with the exit
/// that ends it; or the error in the line: a character that is not
/// recognized, or else a skip at its end.
pub open spec fn interpreted_line(line: Seq<char>, line_number: usize) -> Result<
    Seq<Instruction>,
    Error,
> {
    match scanned_line(line) {
        Err(error) => Err(error),
        Ok(instructions) => if ends_in_skip(instructions) {
            Err(Error::TrailingSkip(line_number))
        } else {
            Ok(instructions.push(Instruction::Exit))
        },
    }
}

/// The instructions of every line of `text`, the first of them numbered
/// `line_number`; or the error of the first line that has one.
pub open spec fn interpreted_lines(text: Seq<char>, line_number: nat) -> Result<
    Seq<Seq<Instruction>>,
    Error,
>
    decreases text.len(),
{
    if text.len() == 0 {
        Ok(Seq::empty())
    } else {
        match interpreted_line(first_line(text), line_number as usize) {
            Err(error) => Err(error),
            Ok(instructions) => match interpreted_lines(after_first_line(text), line_number + 1) {
                Err(error) => Err(error),
                Ok(later) => Ok(seq![instructions] + later),
            },
        }
    }
}

/// The program without sections that a source text stands for: an exit, the
/// instructions of each line, and an exit.
pub open spec fn interpreted_source(text: Seq<char>) -> Result<Seq<Seq<Instruction>>, Error> {
    match interpreted_lines(text, 1) {
        Err(error) => Err(error),
        Ok(lines) => Ok(seq![seq![Instruction::Exit]] + lines + seq![seq![Instruction::Exit]]),
    }
}

/// Parses a source text into the instructions of its lines, without
/// sections, between two exits.
pub fn interpret(source_code: &str) -> (result: Result<Vec<Section>, Error>)
    ensures
        result matches Ok(sequences) ==> interpreted_source(source_code@) == Ok::<
            Seq<Seq<Instruction>>,
            Error,
        >(sequences.deep_view()),
        result matches Err(error) ==> interpreted_source(source_code@) == Err::<
            Seq<Seq<Instruction>>,
            Error,
        >(error),
{
    let text = characters(source_code);
    let mut sequences: Vec<Section> = Vec::new();
    let mut first: Section = Vec::new();
    first.push(Instruction::Exit);
    proof {
        lemma_section_view(first);
    }
    sequences.push(first);
    let ghost mut done: Seq<Seq<Instruction>> = Seq::empty();
    let mut position: usize = 0;
    let mut line_number: usize = 1;
    assert(sequences.deep_view() =~= seq![seq![Instruction::Exit]] + done);
    assert(text@.skip(0) =~= text@);
    while position < text.len()
        invariant
            text@ == source_code@,
            position <= text.len(),
            line_number <= position + 1,
            sequences.deep_view() == seq![seq![Instruction::Exit]] + done,
            interpreted_lines(text@, 1) == match interpreted_lines(
                text@.skip(position as int),
                line_number as nat,
            ) {
                Err(error) => Err::<Seq<Seq<Instruction>>, Error>(error),
                Ok(later) => Ok(done + later),
            },
        decreases text.len() - position,
    {
        let ghost rest = text@.skip(position as int);
        let (line, next) = take_line(&text, position);
        let mut instructions = match scan_line(&line) {
            Ok(instructions) => instructions,
            Err(error) => {
                return Err(error);
            },
        };
        let count = instructions.len();
        if count > 0 && matches!(instructions[count - 1], Instruction::SkipIfNotOne) {
            return Err(Error::TrailingSkip(line_number));
        }
        instructions.push(Instruction::Exit);
        let ghost added = instructions@;
        let ghost held = sequences.deep_view();
        proof {
            lemma_section_view(instructions);
        }
        sequences.push(instructions);
        proof {
            assert(sequences.deep_view() =~= held.push(added));
            match interpreted_lines(after_first_line(rest), (line_number + 1) as nat) {
                Err(_) => {},
                Ok(later) => {
                    assert(done + (seq![added] + later) =~= done.push(added) + later);
                },
            }
            done = done.push(added);
            assert(sequences.deep_view() =~= seq![seq![Instruction::Exit]] + done);
        }
        position = next;
        if position < text.len() {
            line_number += 1;
        }
    }
    let ghost held = sequences.deep_view();
    let mut last: Section = Vec::new();
    last.push(Instruction::Exit);
    proof {
        lemma_section_view(last);
    }
    sequences.push(last);
    proof {
        assert(done + Seq::<Seq<Instruction>>::empty() =~= done);
        assert(sequences.deep_view() =~= held.push(seq![Instruction::Exit]));
        assert(held.push(seq![Instruction::Exit]) =~= seq![seq![Instruction::Exit]] + done
            + seq![seq![Instruction::Exit]]);
    }
    Ok(sequences)
}

} // verus!
