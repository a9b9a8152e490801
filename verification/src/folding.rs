//! Constant folding keeps the meaning of a section: the folded instructions
//! do to the stack, the deque and the input what the instructions did, and
//! write the same. So the interpreter does on the folded program what it
//! does on the program itself, section by section.

use vstd::prelude::*;
use crate::compiler::valid_program;
use crate::execution::{
    entered, evaluate, initial_cursors, initial_interpretation, interpret_for, interpret_once,
    interpreter_step, lemma_interpret_for_adds, perform, popped, Interpretation, Operands,
    Position,
};
use crate::instruction_builder::{jump_target, leaves_block};
use crate::optimize::{folded_program, folded_sequence};
use crate::sequence_builder::{valid_section, Program};
use crate::validity::{lemma_fold_keeps_tidy, lemma_fold_plain, plain, tidy_section};
use crate::failure::Failure;
use crate::machine::emitted;
use crate::operation::operation_result;
use crate::optimize::{constant_below, fold_step, folded_section};
use crate::syntax::{Instruction, ValueSource};

verus! {

/// What a run of instructions has come to: the operands that it leaves, or
/// the failure that ended it, and the bytes that it has written.
pub struct Effect {
    /// The operands that are left, or the failure.
    pub result: Result<Operands, Failure>,
    /// The bytes that were written.
    pub output: Seq<u8>,
}

/// The effect of one more instruction after an effect.
pub open spec fn then(effect: Effect, instruction: Instruction) -> Effect {
    match effect.result {
        Err(_) => effect,
        Ok(operands) => match perform(instruction, operands) {
            Err(failure) => Effect { result: Err(failure), output: effect.output },
            Ok((rest, action)) => Effect { result: Ok(rest), output: effect.output + emitted(action) },
        },
    }
}

/// The effect of instructions that stay in their section, one after the
/// other.
pub open spec fn effect_of(instructions: Seq<Instruction>, operands: Operands) -> Effect
    decreases instructions.len(),
{
    if instructions.len() == 0 {
        Effect { result: Ok(operands), output: Seq::empty() }
    } else {
        then(effect_of(instructions.drop_last(), operands), instructions.last())
    }
}

/// The effect of instructions with one more at their end.
pub proof fn lemma_effect_push(
    instructions: Seq<Instruction>,
    instruction: Instruction,
    operands: Operands,
)
    ensures
        effect_of(instructions.push(instruction), operands) == then(
            effect_of(instructions, operands),
            instruction,
        ),
{
    assert(instructions.push(instruction).drop_last() =~= instructions);
}

/// A push of a constant puts the constant on the stack and writes nothing.
pub proof fn lemma_then_constant(effect: Effect, constant: i64)
    ensures
        then(effect, Instruction::Push(ValueSource::Constant(constant))) == match effect.result {
            Err(_) => effect,
            Ok(operands) => Effect {
                result: Ok(Operands { stack: operands.stack.push(constant), ..operands }),
                output: effect.output,
            },
        },
{
    assert(effect.output + Seq::<u8>::empty() =~= effect.output);
}

/// Folding one more instruction into folded instructions has the effect of
/// the instruction after them.
pub proof fn lemma_fold_step_effect(
    folded: Seq<Instruction>,
    instruction: Instruction,
    operands: Operands,
)
    ensures
        effect_of(fold_step(folded, instruction), operands) == then(
            effect_of(folded, operands),
            instruction,
        ),
{
    let result = fold_step(folded, instruction);
    lemma_effect_push(folded, instruction, operands);
    if result != folded.push(instruction) {
        let top = constant_below(folded, 0)->0;
        let init = folded.drop_last();
        let before = effect_of(init, operands);
        assert(folded =~= init.push(Instruction::Push(ValueSource::Constant(top))));
        lemma_effect_push(init, Instruction::Push(ValueSource::Constant(top)), operands);
        lemma_then_constant(before, top);
        match instruction {
            Instruction::Push(ValueSource::Operate(lhs, operator, rhs)) => {
                let below = constant_below(folded, 1)->0;
                let start = init.drop_last();
                let first = effect_of(start, operands);
                assert(init =~= start.push(Instruction::Push(ValueSource::Constant(below))));
                assert(folded.take(folded.len() - 2) =~= start);
                lemma_effect_push(start, Instruction::Push(ValueSource::Constant(below)), operands);
                lemma_then_constant(first, below);
                let value = operation_result(top, operator, below);
                lemma_effect_push(start, Instruction::Push(ValueSource::Constant(value)), operands);
                lemma_then_constant(first, value);
                match first.result {
                    Err(_) => {},
                    Ok(rest) => {
                        let stack = rest.stack.push(below).push(top);
                        assert(stack.drop_last() =~= rest.stack.push(below));
                        assert(stack.drop_last().drop_last() =~= rest.stack);
                        assert(first.output + Seq::<u8>::empty() =~= first.output);
                        let full = Operands { stack, ..rest };
                        let less = Operands { stack: stack.drop_last(), ..rest };
                        assert(evaluate(*lhs, full) == popped(full));
                        assert(evaluate(*rhs, less) == popped(less));
                    },
                }
            },
            Instruction::Push(ValueSource::CloneTop) => {
                lemma_effect_push(folded, Instruction::Push(ValueSource::Constant(top)), operands);
                lemma_then_constant(effect_of(folded, operands), top);
                match before.result {
                    Err(_) => {},
                    Ok(rest) => {
                        assert(before.output + Seq::<u8>::empty() =~= before.output);
                    },
                }
            },
            Instruction::Insert(ValueSource::Pop, end) => {
                lemma_effect_push(
                    init,
                    Instruction::Insert(ValueSource::Constant(top), end),
                    operands,
                );
                match before.result {
                    Err(_) => {},
                    Ok(rest) => {
                        assert(rest.stack.push(top).drop_last() =~= rest.stack);
                    },
                }
            },
            Instruction::OutputNumber(ValueSource::Pop) => {
                lemma_effect_push(
                    init,
                    Instruction::OutputNumber(ValueSource::Constant(top)),
                    operands,
                );
                match before.result {
                    Err(_) => {},
                    Ok(rest) => {
                        assert(rest.stack.push(top).drop_last() =~= rest.stack);
                    },
                }
            },
            Instruction::OutputCharacter(ValueSource::Pop) => {
                lemma_effect_push(
                    init,
                    Instruction::OutputCharacter(ValueSource::Constant(top)),
                    operands,
                );
                match before.result {
                    Err(_) => {},
                    Ok(rest) => {
                        assert(rest.stack.push(top).drop_last() =~= rest.stack);
                    },
                }
            },
            _ => {},
        }
    }
}

/// Constant folding keeps the effect of a run of instructions, on any
/// operands.
pub proof fn lemma_folding_keeps_effect(instructions: Seq<Instruction>, operands: Operands)
    ensures
        effect_of(folded_section(instructions), operands) == effect_of(instructions, operands),
    decreases instructions.len(),
{
    if instructions.len() > 0 {
        lemma_folding_keeps_effect(instructions.drop_last(), operands);
        lemma_fold_step_effect(
            folded_section(instructions.drop_last()),
            instructions.last(),
            operands,
        );
    }
}

/// The instructions of a section that stay in it: all but a last one that
/// leaves.
pub open spec fn body_of(instructions: Seq<Instruction>) -> Seq<Instruction> {
    if instructions.len() > 0 && leaves_block(instructions.last()) {
        instructions.drop_last()
    } else {
        instructions
    }
}

/// Folding a section folds its body and keeps the instruction that leaves
/// it.
pub proof fn lemma_folded_body(instructions: Seq<Instruction>)
    requires
        tidy_section(instructions),
    ensures
        body_of(folded_section(instructions)) == folded_section(body_of(instructions)),
        instructions.len() > 0 && leaves_block(instructions.last()) ==> folded_section(
            instructions,
        ) == folded_section(instructions.drop_last()).push(instructions.last()),
        !(instructions.len() > 0 && leaves_block(instructions.last())) ==> plain(
            folded_section(instructions),
        ),
{
    if instructions.len() > 0 && leaves_block(instructions.last()) {
        let init = instructions.drop_last();
        assert forall|index: int| 0 <= index < init.len() implies !leaves_block(
            #[trigger] init[index],
        ) by {
            assert(init[index] == instructions[index]);
        }
        lemma_fold_plain(init);
        let folded = folded_section(init).push(instructions.last());
        assert(folded_section(instructions) == folded);
        assert(folded.drop_last() =~= folded_section(init));
    } else {
        assert forall|index: int| 0 <= index < instructions.len() implies !leaves_block(
            #[trigger] instructions[index],
        ) by {
            if index == instructions.len() - 1 {
                assert(instructions[index] == instructions.last());
            }
        }
        lemma_fold_plain(instructions);
        let folded = folded_section(instructions);
        if folded.len() > 0 {
            assert(!leaves_block(folded[folded.len() - 1]));
        }
    }
}

/// Whether two interpretations have written the same and have ended with
/// the same status, or stand at the same place with the same operands and
/// cursors.
pub open spec fn agree(first: Interpretation, second: Interpretation) -> bool {
    &&& first.output == second.output
    &&& first.position.status == second.position.status
    &&& first.position.status is None ==> first.position == second.position
}

/// Whether the interpreter, if it runs, stands at the start of a section
/// that exists.
pub open spec fn at_start(program: Program, position: Position) -> bool {
    position.status is None ==> {
        &&& 0 <= position.sequence < program.len()
        &&& 0 <= position.section < program[position.sequence].len()
        &&& position.done == 0
    }
}

/// The first steps of the interpreter in a section have the effect of the
/// first instructions of its body.
pub proof fn lemma_body_runs(program: Program, run: Interpretation, count: nat)
    requires
        run.position.status is None,
        at_start(program, run.position),
        tidy_section(program[run.position.sequence][run.position.section]),
        count <= body_of(program[run.position.sequence][run.position.section]).len(),
    ensures
        ({
            let body = body_of(program[run.position.sequence][run.position.section]);
            let effect = effect_of(body.take(count as int), run.position.operands);
            let after = interpret_for(program, run, count);
            &&& after.output == run.output + effect.output
            &&& match effect.result {
                Ok(operands) => after.position == (Position {
                    operands,
                    done: count as int,
                    ..run.position
                }),
                Err(failure) => after.position.status == Some(failure.spec_status()),
            }
        }),
    decreases count,
{
    let instructions = program[run.position.sequence][run.position.section];
    let body = body_of(instructions);
    if count == 0 {
        assert(body.take(0) =~= Seq::<Instruction>::empty());
        assert(run.output + Seq::<u8>::empty() =~= run.output);
    } else {
        let earlier = (count - 1) as nat;
        lemma_body_runs(program, run, earlier);
        assert(body.take(count as int).drop_last() =~= body.take(earlier as int));
        let before = interpret_for(program, run, earlier);
        let effect = effect_of(body.take(earlier as int), run.position.operands);
        let instruction = body[earlier as int];
        assert(body.take(count as int).last() == instruction);
        assert(instruction == instructions[earlier as int]);
        assert(!leaves_block(instruction));
        assert(before.output + Seq::<u8>::empty() =~= before.output);
        match effect.result {
            Ok(operands) => {
                match perform(instruction, operands) {
                    Ok((rest, action)) => {
                        assert(run.output + (effect.output + emitted(action)) =~= run.output
                            + effect.output + emitted(action));
                    },
                    Err(_) => {},
                }
            },
            Err(_) => {},
        }
    }
}

/// The number of steps that the interpreter takes in the section at whose
/// start it stands, the step that leaves the section included.
pub open spec fn section_steps(program: Program, position: Position) -> nat {
    if position.status is None {
        body_of(program[position.sequence][position.section]).len() + 1
    } else {
        0
    }
}

/// A section is entered in the folded program as in the program itself.
pub proof fn lemma_entered_agrees(
    program: Program,
    first: Position,
    second: Position,
    sequence: int,
    section: int,
)
    requires
        valid_program(program),
        first.operands == second.operands,
        first.cursors == second.cursors,
        first.status == second.status,
    ensures
        entered(program, first, sequence, section).1 == entered(
            folded_program(program),
            second,
            sequence,
            section,
        ).1,
        entered(program, first, sequence, section).0.status == entered(
            folded_program(program),
            second,
            sequence,
            section,
        ).0.status,
        entered(program, first, sequence, section).1 is Continue ==> {
            &&& entered(program, first, sequence, section).0 == entered(
                folded_program(program),
                second,
                sequence,
                section,
            ).0
            &&& first.status is None ==> at_start(
                program,
                entered(program, first, sequence, section).0,
            )
        },
{
    let folded = folded_program(program);
    if 0 <= sequence < program.len() {
        assert(folded[sequence] == folded_sequence(program[sequence]));
        if 0 <= section < program[sequence].len() {
            let instructions = program[sequence][section];
            assert(folded[sequence][section] == folded_section(instructions));
            assert(valid_section(program, sequence, section));
            assert forall|index: int| 0 <= index < instructions.len() - 1 implies !leaves_block(
                #[trigger] instructions[index],
            ) by {}
            lemma_folded_body(instructions);
            let after = folded_section(instructions);
            if !(instructions.len() > 0 && leaves_block(instructions.last())) && after.len() > 0 {
                assert(!leaves_block(after[after.len() - 1]));
            }
        }
    }
}

/// The step that leaves a section does in the folded program what it does
/// in the program itself.
pub proof fn lemma_leaving_agrees(program: Program, first: Position, second: Position)
    requires
        valid_program(program),
        first.status is None,
        0 <= first.sequence < program.len(),
        0 <= first.section < program[first.sequence].len(),
        first.done == body_of(program[first.sequence][first.section]).len(),
        second == (Position {
            done: body_of(
                folded_program(program)[first.sequence][first.section],
            ).len() as int,
            ..first
        }),
    ensures
        ({
            let stepped = interpreter_step(program, first);
            let folded = interpreter_step(folded_program(program), second);
            &&& emitted(stepped.1) == Seq::<u8>::empty()
            &&& emitted(folded.1) == Seq::<u8>::empty()
            &&& stepped.0.status == folded.0.status
            &&& stepped.0.status is None ==> stepped.0 == folded.0 && at_start(program, stepped.0)
        }),
{
    let sequence = first.sequence;
    let section = first.section;
    let other = folded_program(program);
    let instructions = program[sequence][section];
    assert(other[sequence] == folded_sequence(program[sequence]));
    assert(other[sequence][section] == folded_section(instructions));
    assert(valid_section(program, sequence, section));
    assert forall|index: int| 0 <= index < instructions.len() - 1 implies !leaves_block(
        #[trigger] instructions[index],
    ) by {}
    lemma_folded_body(instructions);
    let after = folded_section(instructions);
    if instructions.len() > 0 && leaves_block(instructions.last()) {
        let last = instructions.last();
        assert(instructions[first.done] == last);
        assert(after[second.done] == last);
        let gone = Position { done: first.done + 1, ..first };
        let gone_folded = Position { done: second.done + 1, ..second };
        match last {
            Instruction::SkipIfNotOne => {
                match popped(first.operands) {
                    Ok((value, rest)) => {
                        let target = if value == 1 {
                            section + 1
                        } else {
                            section + 2
                        };
                        lemma_entered_agrees(
                            program,
                            Position { operands: rest, ..gone },
                            Position { operands: rest, ..gone_folded },
                            sequence,
                            target,
                        );
                    },
                    Err(_) => {},
                }
            },
            Instruction::Jump(direction, start) => {
                let target = jump_target(sequence, direction);
                if 0 <= target < first.cursors.len() {
                    let cursors = if start is Restart {
                        first.cursors.update(target, 0)
                    } else {
                        first.cursors
                    };
                    lemma_entered_agrees(
                        program,
                        Position { cursors, ..gone },
                        Position { cursors, ..gone_folded },
                        target,
                        cursors[target],
                    );
                }
            },
            _ => {},
        }
    } else {
        if 0 <= sequence < first.cursors.len() {
            lemma_entered_agrees(program, first, second, sequence, first.cursors[sequence]);
        }
    }
}

/// After the steps of a section, the interpreter of the folded program
/// agrees with the interpreter of the program itself.
pub proof fn lemma_section_agrees(program: Program, first: Interpretation, second: Interpretation)
    requires
        valid_program(program),
        agree(first, second),
        at_start(program, first.position),
    ensures
        agree(
            interpret_for(program, first, section_steps(program, first.position)),
            interpret_for(
                folded_program(program),
                second,
                section_steps(folded_program(program), second.position),
            ),
        ),
        at_start(
            program,
            interpret_for(program, first, section_steps(program, first.position)).position,
        ),
{
    let other = folded_program(program);
    let position = first.position;
    if position.status is None {
        let sequence = position.sequence;
        let section = position.section;
        let instructions = program[sequence][section];
        assert(other[sequence] == folded_sequence(program[sequence]));
        assert(other[sequence][section] == folded_section(instructions));
        assert(valid_section(program, sequence, section));
        assert forall|index: int| 0 <= index < instructions.len() - 1 implies !leaves_block(
            #[trigger] instructions[index],
        ) by {}
        lemma_fold_keeps_tidy(instructions);
        lemma_folded_body(instructions);
        let body = body_of(instructions);
        let folded_body = body_of(folded_section(instructions));
        lemma_folding_keeps_effect(body, position.operands);
        lemma_body_runs(program, first, body.len());
        lemma_body_runs(other, second, folded_body.len());
        assert(body.take(body.len() as int) =~= body);
        assert(folded_body.take(folded_body.len() as int) =~= folded_body);
        let effect = effect_of(body, position.operands);
        let reached = interpret_for(program, first, body.len());
        let reached_folded = interpret_for(other, second, folded_body.len());
        assert(interpret_for(program, first, body.len() + 1) == interpret_once(program, reached));
        assert(interpret_for(other, second, folded_body.len() + 1) == interpret_once(
            other,
            reached_folded,
        ));
        assert(reached.output + Seq::<u8>::empty() =~= reached.output);
        match effect.result {
            Ok(operands) => {
                lemma_leaving_agrees(program, reached.position, reached_folded.position);
            },
            Err(_) => {},
        }
    } else {
        assert(interpret_for(program, first, 0) == first);
        assert(interpret_for(other, second, 0) == second);
    }
}

/// The number of steps that the interpreter takes on `input` for the first
/// `sections` sections that it runs.
pub open spec fn ticks(program: Program, input: Seq<u8>, sections: nat) -> nat
    decreases sections,
{
    if sections == 0 {
        0
    } else {
        let earlier = ticks(program, input, (sections - 1) as nat);
        earlier + section_steps(
            program,
            interpret_for(program, initial_interpretation(program, input), earlier).position,
        )
    }
}

/// After any number of sections, the interpreter of the folded program
/// agrees with the interpreter of the program itself.
pub proof fn lemma_sections_agree(program: Program, input: Seq<u8>, sections: nat)
    requires
        valid_program(program),
    ensures
        agree(
            interpret_for(
                program,
                initial_interpretation(program, input),
                ticks(program, input, sections),
            ),
            interpret_for(
                folded_program(program),
                initial_interpretation(folded_program(program), input),
                ticks(folded_program(program), input, sections),
            ),
        ),
        at_start(
            program,
            interpret_for(
                program,
                initial_interpretation(program, input),
                ticks(program, input, sections),
            ).position,
        ),
    decreases sections,
{
    let other = folded_program(program);
    let start = initial_interpretation(program, input);
    let start_folded = initial_interpretation(other, input);
    if sections == 0 {
        let before = Position {
            operands: Operands { stack: Seq::empty(), deque: Seq::empty(), input },
            sequence: 1,
            section: 0,
            done: 0,
            cursors: initial_cursors(program.len()),
            status: None,
        };
        assert(initial_cursors(other.len()) =~= initial_cursors(program.len()));
        lemma_entered_agrees(program, before, before, 1, 0);
        assert(interpret_for(program, start, 0) == start);
        assert(interpret_for(other, start_folded, 0) == start_folded);
    } else {
        let earlier = (sections - 1) as nat;
        lemma_sections_agree(program, input, earlier);
        let taken = ticks(program, input, earlier);
        let taken_folded = ticks(other, input, earlier);
        let first = interpret_for(program, start, taken);
        let second = interpret_for(other, start_folded, taken_folded);
        lemma_section_agrees(program, first, second);
        lemma_interpret_for_adds(program, start, taken, section_steps(program, first.position));
        lemma_interpret_for_adds(
            other,
            start_folded,
            taken_folded,
            section_steps(other, second.position),
        );
    }
}

/// Constant folding keeps what a program does: after any number of sections,
/// the interpreter has written the same and has ended with the same status,
/// or not yet, on the folded program as on the program itself.
pub proof fn lemma_folding_keeps_runs(program: Program, input: Seq<u8>, sections: nat)
    requires
        valid_program(program),
    ensures
        ({
            let plain_run = interpret_for(
                program,
                initial_interpretation(program, input),
                ticks(program, input, sections),
            );
            let folded_run = interpret_for(
                folded_program(program),
                initial_interpretation(folded_program(program), input),
                ticks(folded_program(program), input, sections),
            );
            &&& plain_run.output == folded_run.output
            &&& plain_run.position.status == folded_run.position.status
        }),
{
    lemma_sections_agree(program, input, sections);
}

} // verus!
