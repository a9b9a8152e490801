//! What the parser produces can be compiled, and the constant folder keeps it
//! so.

use vstd::prelude::*;
use crate::compiler::valid_program;
use crate::instruction_builder::{jump_target, leaves_block};
use crate::optimize::{fold_step, folded_program, folded_section, folded_sequence};
use crate::parse::{
    after_first_line, commands, ends_in_skip, ends_section, first_line, parsed_line,
    parsed_lines, parsed_source, sections, sentinel, split, ControlFlow,
};
use crate::sequence_builder::{valid_section, Program};
use crate::syntax::Instruction;

verus! {

/// Whether only the last instruction of a section is a jump, a skip or an
/// exit.
pub open spec fn tidy_section(section: Seq<Instruction>) -> bool {
    forall|index: int|
        0 <= index < section.len() - 1 ==> !leaves_block(#[trigger] section[index])
}

/// Whether a sequence is as the parser makes it: only the last instruction
/// of a section leaves it, two sections follow a skip, and the sections can
/// be numbered.
pub open spec fn tidy(sequence: Seq<Seq<Instruction>>) -> bool {
    &&& sequence.len() < i64::MAX
    &&& forall|section: int|
        0 <= section < sequence.len() ==> tidy_section(#[trigger] sequence[section])
    &&& forall|section: int|
        0 <= section < sequence.len() && (#[trigger] sequence[section]).len() > 0
            && sequence[section].last() is SkipIfNotOne ==> section + 2 < sequence.len()
}

/// Whether none of the instructions is an exit.
pub open spec fn exit_free(instructions: Seq<Instruction>) -> bool {
    forall|index: int| 0 <= index < instructions.len() ==> !(#[trigger] instructions[index] is Exit)
}

/// No character stands for an exit, and no character for more than one
/// instruction.
pub proof fn lemma_commands_exit_free(code: Seq<char>)
    ensures
        exit_free(commands(code)),
        commands(code).len() <= code.len(),
    decreases code.len(),
{
    if code.len() > 0 {
        lemma_commands_exit_free(code.drop_last());
        assert(Instruction::spec_from(code.last()) != Ok::<Instruction, ControlFlow>(
            Instruction::Exit,
        ));
    }
}

/// What holds of the sections that the first `count` instructions have
/// closed and of the one that is still open.
pub open spec fn split_invariant(instructions: Seq<Instruction>, count: nat) -> bool {
    let closed = split(instructions, count).0;
    let open = split(instructions, count).1;
    &&& closed.len() <= count
    &&& forall|index: int| 0 <= index < open.len() ==> !leaves_block(#[trigger] open[index])
    &&& forall|section: int|
        0 <= section < closed.len() ==> {
            &&& (#[trigger] closed[section]).len() > 0
            &&& tidy_section(closed[section])
            &&& closed[section].last() is SkipIfNotOne ==> (section + 1 < closed.len() || (count
                > 0 && instructions[count - 1] is SkipIfNotOne))
        }
}

/// The invariant of the split holds after any number of instructions.
pub proof fn lemma_split_invariant(instructions: Seq<Instruction>, count: nat)
    requires
        exit_free(instructions),
        count <= instructions.len(),
    ensures
        split_invariant(instructions, count),
    decreases count,
{
    if count > 0 {
        let before = (count - 1) as nat;
        lemma_split_invariant(instructions, before);
        let closed = split(instructions, before).0;
        let open = split(instructions, before).1;
        let instruction = instructions[count - 1];
        let extended = open.push(instruction);
        assert(!(instruction is Exit));
        if ends_section(instructions, count - 1) {
            let grown = closed.push(extended);
            assert(split(instructions, count).0 == grown);
            assert forall|section: int| 0 <= section < grown.len() implies {
                &&& (#[trigger] grown[section]).len() > 0
                &&& tidy_section(grown[section])
                &&& grown[section].last() is SkipIfNotOne ==> (section + 1 < grown.len() || (
                count > 0 && instructions[count - 1] is SkipIfNotOne))
            } by {
                if section < closed.len() {
                    assert(grown[section] == closed[section]);
                } else {
                    assert(grown[section] == extended);
                    assert forall|index: int| 0 <= index < extended.len() - 1 implies !leaves_block(
                        #[trigger] extended[index],
                    ) by {
                        assert(extended[index] == open[index]);
                    }
                }
            }
        } else {
            assert(split(instructions, count).0 == closed);
            assert(split(instructions, count).1 == extended);
            assert forall|index: int| 0 <= index < extended.len() implies !leaves_block(
                #[trigger] extended[index],
            ) by {
                if index < open.len() {
                    assert(extended[index] == open[index]);
                }
            }
        }
    }
}

/// The sections of a line that does not end in a skip are tidy.
pub proof fn lemma_sections_tidy(instructions: Seq<Instruction>)
    requires
        exit_free(instructions),
        !ends_in_skip(instructions),
        instructions.len() + 1 < i64::MAX,
    ensures
        tidy(sections(instructions)),
        sections(instructions).len() > 0,
{
    lemma_split_invariant(instructions, instructions.len());
    let closed = split(instructions, instructions.len()).0;
    let open = split(instructions, instructions.len()).1;
    let last = open.push(Instruction::Exit);
    let all = sections(instructions);
    assert(all == closed.push(last));
    assert forall|index: int| 0 <= index < last.len() - 1 implies !leaves_block(
        #[trigger] last[index],
    ) by {
        assert(last[index] == open[index]);
    }
    assert forall|section: int| 0 <= section < all.len() implies tidy_section(
        #[trigger] all[section],
    ) by {
        if section < closed.len() {
            assert(all[section] == closed[section]);
        }
    }
    assert forall|section: int|
        0 <= section < all.len() && (#[trigger] all[section]).len() > 0
            && all[section].last() is SkipIfNotOne implies section + 2 < all.len() by {
        if section < closed.len() {
            assert(all[section] == closed[section]);
        }
    }
}

/// Whether every jump of a sequence has a sequence to go to when it stands
/// among `count` sequences at `sequence`.
pub open spec fn jumps_fit(sequence: Seq<Seq<Instruction>>, at: int, count: int) -> bool {
    forall|section: int, index: int|
        0 <= section < sequence.len() && 0 <= index < sequence[section].len() ==> (
        #[trigger] sequence[section][index] matches Instruction::Jump(direction, _) ==> 0
            <= jump_target(at, direction) < count)
}

/// A tidy sequence whose jumps have a sequence to go to can be compiled.
pub proof fn lemma_tidy_is_valid(program: Program, sequence: int)
    requires
        0 <= sequence < program.len(),
        tidy(program[sequence]),
        jumps_fit(program[sequence], sequence, program.len() as int),
    ensures
        forall|section: int|
            0 <= section < program[sequence].len() ==> #[trigger] valid_section(
                program,
                sequence,
                section,
            ),
{
    let sections = program[sequence];
    assert forall|section: int| 0 <= section < sections.len() implies #[trigger] valid_section(
        program,
        sequence,
        section,
    ) by {
        let instructions = sections[section];
        assert(tidy_section(instructions));
        assert forall|index: int| 0 <= index < instructions.len() implies match #[trigger] instructions[index] {
            Instruction::SkipIfNotOne => {
                &&& index == instructions.len() - 1
                &&& section + 2 < program[sequence].len()
            },
            Instruction::Jump(direction, _) => {
                &&& index == instructions.len() - 1
                &&& 0 <= jump_target(sequence, direction) < program.len()
            },
            Instruction::Exit => index == instructions.len() - 1,
            _ => true,
        } by {
            if index < instructions.len() - 1 {
                assert(!leaves_block(instructions[index]));
            } else {
                assert(instructions[index] == instructions.last());
                assert(sections[section][index] == instructions[index]);
            }
        }
    }
}

/// The sequence of a line is tidy.
pub proof fn lemma_parsed_line_tidy(line: Seq<char>, line_number: usize)
    requires
        line.len() + 1 < i64::MAX,
        parsed_line(line, line_number) is Ok,
    ensures
        tidy(parsed_line(line, line_number)->Ok_0),
        parsed_line(line, line_number)->Ok_0.len() > 0,
{
    lemma_commands_exit_free(line);
    lemma_sections_tidy(commands(line));
}

/// A run is no longer than its text.
pub proof fn lemma_run_length_bound(text: Seq<char>, stops: spec_fn(char) -> bool)
    ensures
        crate::parse::run_length(text, stops) <= text.len(),
    decreases text.len(),
{
    if text.len() > 0 && !stops(text.first()) {
        lemma_run_length_bound(text.drop_first(), stops);
    }
}

/// The sequences of the lines of a text are tidy and have a section.
pub proof fn lemma_parsed_lines_tidy(text: Seq<char>, line_number: nat)
    requires
        text.len() + 1 < i64::MAX,
        parsed_lines(text, line_number) is Ok,
    ensures
        forall|line: int|
            0 <= line < parsed_lines(text, line_number)->Ok_0.len() ==> {
                let sequence = #[trigger] parsed_lines(text, line_number)->Ok_0[line];
                tidy(sequence) && sequence.len() > 0
            },
    decreases text.len(),
{
    if text.len() == 0 || first_line(text).len() == 0 {
    } else {
        let newline = |c: char| crate::parse::is_newline(c);
        lemma_run_length_bound(text, newline);
        let first = parsed_line(first_line(text), line_number as usize);
        lemma_parsed_line_tidy(first_line(text), line_number as usize);
        lemma_parsed_lines_tidy(after_first_line(text), line_number + 1);
        let later = parsed_lines(after_first_line(text), line_number + 1)->Ok_0;
        let all = parsed_lines(text, line_number)->Ok_0;
        assert(all == seq![first->Ok_0] + later);
        assert forall|line: int| 0 <= line < all.len() implies {
            let sequence = #[trigger] all[line];
            tidy(sequence) && sequence.len() > 0
        } by {
            if line > 0 {
                assert(all[line] == later[line - 1]);
            }
        }
    }
}

/// A source that parses can be compiled: only the last instruction of a
/// section leaves it, two sections follow every skip, and every jump has a
/// sequence to go to, thanks to the two sentinels.
pub proof fn lemma_parsed_source_is_valid(text: Seq<char>)
    requires
        text.len() + 1 < i64::MAX,
        parsed_source(text) is Ok,
    ensures
        valid_program(parsed_source(text)->Ok_0),
{
    let lines = parsed_lines(text, 1)->Ok_0;
    let program = parsed_source(text)->Ok_0;
    assert(program == seq![sentinel()] + lines + seq![sentinel()]);
    lemma_parsed_lines_tidy(text, 1);
    assert forall|sequence: int, section: int|
        0 <= sequence < program.len() && 0 <= section
            < program[sequence].len() implies #[trigger] valid_section(
        program,
        sequence,
        section,
    ) by {
        if sequence == 0 || sequence == program.len() - 1 {
            assert(program[sequence] == sentinel());
            assert(tidy_section(sentinel()[0]));
            assert(tidy(sentinel()));
            assert(jumps_fit(sentinel(), sequence, program.len() as int));
        } else {
            assert(program[sequence] == lines[sequence - 1]);
            assert(tidy(lines[sequence - 1]));
        }
        lemma_tidy_is_valid(program, sequence);
    }
    if lines.len() > 0 {
        assert(program[1] == lines[0]);
    } else {
        assert(program[1] == sentinel());
    }
}

/// Whether none of the instructions leaves its section.
pub open spec fn plain(instructions: Seq<Instruction>) -> bool {
    forall|index: int| 0 <= index < instructions.len() ==> !leaves_block(#[trigger] instructions[index])
}

/// Folding an instruction that stays in its section into instructions that
/// stay in theirs leaves only such instructions.
pub proof fn lemma_fold_step_plain(folded: Seq<Instruction>, instruction: Instruction)
    requires
        plain(folded),
        !leaves_block(instruction),
    ensures
        plain(fold_step(folded, instruction)),
{
    let result = fold_step(folded, instruction);
    assert forall|index: int| 0 <= index < result.len() implies !leaves_block(
        #[trigger] result[index],
    ) by {
        if index < result.len() - 1 {
            assert(result[index] == folded[index]);
        }
    }
}

/// Folding instructions that stay in their section leaves only such
/// instructions.
pub proof fn lemma_fold_plain(section: Seq<Instruction>)
    requires
        plain(section),
    ensures
        plain(folded_section(section)),
    decreases section.len(),
{
    if section.len() > 0 {
        assert forall|index: int| 0 <= index < section.drop_last().len() implies !leaves_block(
            #[trigger] section.drop_last()[index],
        ) by {
            assert(section.drop_last()[index] == section[index]);
        }
        lemma_fold_plain(section.drop_last());
        assert(!leaves_block(section[section.len() - 1]));
        lemma_fold_step_plain(folded_section(section.drop_last()), section.last());
    }
}

/// Folding keeps a section tidy, and keeps the instruction that leaves it.
pub proof fn lemma_fold_keeps_tidy(section: Seq<Instruction>)
    requires
        tidy_section(section),
    ensures
        tidy_section(folded_section(section)),
        forall|index: int|
            0 <= index < folded_section(section).len() && leaves_block(
                #[trigger] folded_section(section)[index],
            ) ==> section.len() > 0 && folded_section(section)[index] == section.last(),
{
    if section.len() > 0 {
        let init = section.drop_last();
        assert forall|index: int| 0 <= index < init.len() implies !leaves_block(
            #[trigger] init[index],
        ) by {
            assert(init[index] == section[index]);
        }
        lemma_fold_plain(init);
        let before = folded_section(init);
        let folded = folded_section(section);
        if leaves_block(section.last()) {
            assert(folded == before.push(section.last()));
            assert forall|index: int| 0 <= index < folded.len() - 1 implies !leaves_block(
                #[trigger] folded[index],
            ) by {
                assert(folded[index] == before[index]);
            }
        } else {
            lemma_fold_step_plain(before, section.last());
        }
    }
}

/// The constant folder keeps a program that can be compiled so.
pub proof fn lemma_folded_program_is_valid(program: Program)
    requires
        valid_program(program),
    ensures
        valid_program(folded_program(program)),
{
    let folded = folded_program(program);
    assert(folded[1] == folded_sequence(program[1]));
    assert forall|sequence: int, section: int|
        0 <= sequence < folded.len() && 0 <= section
            < folded[sequence].len() implies #[trigger] valid_section(
        folded,
        sequence,
        section,
    ) by {
        assert(folded[sequence] == folded_sequence(program[sequence]));
        let before = program[sequence][section];
        let after = folded[sequence][section];
        assert(after == folded_section(before));
        assert(valid_section(program, sequence, section));
        assert forall|index: int| 0 <= index < before.len() - 1 implies !leaves_block(
            #[trigger] before[index],
        ) by {}
        lemma_fold_keeps_tidy(before);
        assert forall|index: int| 0 <= index < after.len() implies match #[trigger] after[index] {
            Instruction::SkipIfNotOne => {
                &&& index == after.len() - 1
                &&& section + 2 < folded[sequence].len()
            },
            Instruction::Jump(direction, _) => {
                &&& index == after.len() - 1
                &&& 0 <= jump_target(sequence, direction) < folded.len()
            },
            Instruction::Exit => index == after.len() - 1,
            _ => true,
        } by {
            if leaves_block(after[index]) {
                assert(after[index] == before.last());
                assert(before[before.len() - 1] == before.last());
                if index < after.len() - 1 {
                    assert(!leaves_block(after[index]));
                }
            }
        }
    }
}

} // verus!
