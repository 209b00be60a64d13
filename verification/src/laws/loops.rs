//! Counted loops and ranges.

use crate::error::EvaluationError;
use crate::interpreter::evaluation;
use crate::laws::{first, fresh, lemma_run_ends, lemma_run_steps};
use crate::machine::{run, Halt, Machine, Registers};
use crate::number::Number;
use crate::token::{EmojiToken, Operator};
use vstd::prelude::*;

verus! {

/// A number is no zero where it counts at least one.
proof fn lemma_counted_is_not_zero(n: Number)
    requires
        n.count() >= 1,
    ensures
        !n.is_zero(),
{
}

/// The tokens of a counted loop with nothing in it.
pub open spec fn empty_loop(n: Number) -> Seq<EmojiToken> {
    seq![EmojiToken::Number(n), EmojiToken::LoopStart, EmojiToken::LoopEnd]
}

/// The number of times that the loop of `empty_loop(n)` goes back.
pub open spec fn repetitions(n: Number) -> nat {
    if first(n).is_zero() {
        0
    } else {
        first(n).count()
    }
}

/// A loop with nothing in it, entered with a zero accumulator, goes back as
/// often as its count says and is then left.
proof fn lemma_empty_loop_unwinds(
    n: Number,
    variables: Map<char, Number>,
    machine: Machine,
    fuel: nat,
)
    requires
        machine.position == 1,
        machine.capturing is None,
        machine.registers.accumulator.is_zero(),
        machine.registers.loop_start == Some(1usize),
        fuel >= 2 * machine.registers.remaining + 2,
    ensures
        run(empty_loop(n), variables, machine, fuel) == (Halt {
            machine: Machine {
                position: 3,
                registers: Registers {
                    remaining: 0,
                    loop_start: None,
                    in_loop: false,
                    ..machine.registers
                },
                ..machine
            },
            fuel: (fuel - (2 * machine.registers.remaining + 2)) as nat,
            error: None,
        }),
    decreases machine.registers.remaining,
{
    let tokens = empty_loop(n);
    let entered = machine.step(tokens[1], variables)->Ok_0;
    lemma_run_steps(tokens, variables, machine, fuel);
    assert(entered.position == 2 && entered.registers == (Registers {
        in_loop: true,
        ..machine.registers
    }));
    let back = entered.step(tokens[2], variables)->Ok_0;
    lemma_run_steps(tokens, variables, entered, (fuel - 1) as nat);
    if machine.registers.remaining > 0 {
        assert(back.position == 1 && back.registers == (Registers {
            remaining: (machine.registers.remaining - 1) as usize,
            ..entered.registers
        }));
        lemma_empty_loop_unwinds(n, variables, back, (fuel - 2) as nat);
    } else {
        assert(back.position == 3);
        lemma_run_ends(tokens, variables, back, (fuel - 2) as nat);
    }
}

/// A counted loop with nothing in it: the number in front of the loop is
/// taken as the count, the loop goes back that many times, and the result
/// is zero. The pass takes one step for the number and two for each time
/// that the loop is entered.
pub proof fn law_counted_loop(
    n: Number,
    variables: Map<char, Number>,
    functions: Map<char, Seq<EmojiToken>>,
    fuel: nat,
)
    requires
        fuel >= 2 * repetitions(n) + 3,
    ensures
        run(empty_loop(n), variables, Machine::start(0, functions), fuel).error is None,
        run(empty_loop(n), variables, Machine::start(0, functions), fuel).fuel == fuel - (2
            * repetitions(n) + 3),
        evaluation(fresh(empty_loop(n), variables, functions), fuel).result == Ok::<
            Number,
            EvaluationError,
        >(if first(n).is_zero() {
            first(n)
        } else {
            Number { bits: 0 }
        }),
{
    let tokens = empty_loop(n);
    let start = Machine::start(0, functions);
    let counted = start.step(tokens[0], variables)->Ok_0;
    lemma_run_steps(tokens, variables, start, fuel);
    assert(counted.position == 1 && counted.registers.accumulator == first(n));
    let entered = counted.step(tokens[1], variables)->Ok_0;
    lemma_run_steps(tokens, variables, counted, (fuel - 1) as nat);
    assert(entered.position == 2 && entered.registers.loop_start == Some(1usize));
    assert(entered.registers.remaining == repetitions(n));
    assert(entered.registers.accumulator.is_zero());
    let back = entered.step(tokens[2], variables)->Ok_0;
    lemma_run_steps(tokens, variables, entered, (fuel - 2) as nat);
    if repetitions(n) > 0 {
        assert(back.position == 1 && back.registers.remaining == repetitions(n) - 1);
        assert(back.registers.accumulator == Number { bits: 0 });
        lemma_empty_loop_unwinds(n, variables, back, (fuel - 3) as nat);
    } else {
        assert(back.position == 3 && back.registers.call is None);
        lemma_run_ends(tokens, variables, back, (fuel - 3) as nat);
    }
}

/// The tokens of a counted loop that adds `step` each time.
pub open spec fn adding_loop(n: Number, step: Number) -> Seq<EmojiToken> {
    seq![
        EmojiToken::Number(n),
        EmojiToken::LoopStart,
        EmojiToken::Add,
        EmojiToken::Number(step),
        EmojiToken::LoopEnd,
    ]
}

/// Once a loop that adds has gone back, it goes back for ever: each entry
/// takes the sum that the body left as a new count.
proof fn lemma_adding_loop_goes_on(
    n: Number,
    step: Number,
    variables: Map<char, Number>,
    machine: Machine,
    fuel: nat,
)
    requires
        first(step).count() >= 1,
        machine.position == 1,
        machine.capturing is None,
        machine.registers.accumulator == first(step),
        machine.registers.operator == Operator::Add,
        machine.registers.loop_start == Some(1usize),
        machine.registers.target is None,
        !machine.registers.skipping(),
    ensures
        run(adding_loop(n, step), variables, machine, fuel).error == Some(
            EvaluationError::StepLimit,
        ),
    decreases fuel,
{
    let tokens = adding_loop(n, step);
    lemma_counted_is_not_zero(first(step));
    if fuel >= 1 {
        let entered = machine.step(tokens[1], variables)->Ok_0;
        lemma_run_steps(tokens, variables, machine, fuel);
        assert(entered.position == 2 && entered.registers == (Registers {
            remaining: first(step).count() as usize,
            accumulator: Number { bits: 0 },
            in_loop: true,
            ..machine.registers
        }));
        if fuel >= 2 {
            let ready = entered.step(tokens[2], variables)->Ok_0;
            lemma_run_steps(tokens, variables, entered, (fuel - 1) as nat);
            assert(ready.position == 3 && ready.registers == entered.registers);
            if fuel >= 3 {
                let added = ready.step(tokens[3], variables)->Ok_0;
                lemma_run_steps(tokens, variables, ready, (fuel - 2) as nat);
                assert(added.position == 4 && added.registers == (Registers {
                    accumulator: first(step),
                    ..ready.registers
                }));
                if fuel >= 4 {
                    let back = added.step(tokens[4], variables)->Ok_0;
                    lemma_run_steps(tokens, variables, added, (fuel - 3) as nat);
                    assert(back.position == 1 && back.registers == (Registers {
                        remaining: (first(step).count() - 1) as usize,
                        ..added.registers
                    }));
                    lemma_adding_loop_goes_on(n, step, variables, back, (fuel - 4) as nat);
                }
            }
        }
    }
}

/// A counted loop whose body adds a number does not end, where the count and
/// the sum that the body leaves are both at least one: the loop start takes
/// that sum as a new count each time it is read again. Every budget runs out.
pub proof fn law_adding_loop_never_ends(
    n: Number,
    step: Number,
    variables: Map<char, Number>,
    functions: Map<char, Seq<EmojiToken>>,
    fuel: nat,
)
    requires
        first(n).count() >= 1,
        first(step).count() >= 1,
    ensures
        evaluation(fresh(adding_loop(n, step), variables, functions), fuel).result == Err::<
            Number,
            EvaluationError,
        >(EvaluationError::StepLimit),
{
    let tokens = adding_loop(n, step);
    let start = Machine::start(0, functions);
    lemma_counted_is_not_zero(first(n));
    if fuel >= 1 {
        let counted = start.step(tokens[0], variables)->Ok_0;
        lemma_run_steps(tokens, variables, start, fuel);
        assert(counted.position == 1 && counted.registers == (Registers {
            accumulator: first(n),
            ..Registers::initial()
        }));
        if fuel >= 2 {
            let entered = counted.step(tokens[1], variables)->Ok_0;
            lemma_run_steps(tokens, variables, counted, (fuel - 1) as nat);
            assert(entered.position == 2 && entered.registers == (Registers {
                remaining: first(n).count() as usize,
                accumulator: Number { bits: 0 },
                in_loop: true,
                loop_start: Some(1usize),
                ..counted.registers
            }));
            if fuel >= 3 {
                let ready = entered.step(tokens[2], variables)->Ok_0;
                lemma_run_steps(tokens, variables, entered, (fuel - 2) as nat);
                assert(ready.position == 3 && ready.registers == entered.registers);
                if fuel >= 4 {
                    let added = ready.step(tokens[3], variables)->Ok_0;
                    lemma_run_steps(tokens, variables, ready, (fuel - 3) as nat);
                    assert(added.position == 4 && added.registers == (Registers {
                        accumulator: first(step),
                        ..ready.registers
                    }));
                    if fuel >= 5 {
                        let back = added.step(tokens[4], variables)->Ok_0;
                        lemma_run_steps(tokens, variables, added, (fuel - 4) as nat);
                        assert(back.position == 1 && back.registers == (Registers {
                            remaining: (first(n).count() - 1) as usize,
                            ..added.registers
                        }));
                        lemma_adding_loop_goes_on(n, step, variables, back, (fuel - 5) as nat);
                    }
                }
            }
        }
    }
}

/// The integer part of the difference between the two ends of a range: one
/// less than the count that the range sets.
pub open spec fn span(start: Number, end: Number) -> nat {
    end.difference(start).count()
}

/// A range that no loop start precedes is passed over: `[s..e] LoopEnd`
/// gives the zero that the accumulator began with.
pub proof fn law_range_outside_loop(
    start: Number,
    end: Number,
    variables: Map<char, Number>,
    functions: Map<char, Seq<EmojiToken>>,
    fuel: nat,
)
    requires
        fuel >= 2,
    ensures
        evaluation(
            fresh(seq![EmojiToken::LoopRange(start, end), EmojiToken::LoopEnd], variables, functions),
            fuel,
        ).result == Ok::<Number, EvaluationError>(Number { bits: 0 }),
{
    let tokens = seq![EmojiToken::LoopRange(start, end), EmojiToken::LoopEnd];
    let m0 = Machine::start(0, functions);
    let m1 = m0.step(tokens[0], variables)->Ok_0;
    lemma_run_steps(tokens, variables, m0, fuel);
    assert(m1.position == 1 && m1.registers == Registers::initial());
    let m2 = m1.step(tokens[1], variables)->Ok_0;
    lemma_run_steps(tokens, variables, m1, (fuel - 1) as nat);
    assert(m2.position == 2 && m2.registers == Registers::initial());
    lemma_run_ends(tokens, variables, m2, (fuel - 2) as nat);
}

/// A loop that holds nothing but a range is over after six steps: the loop
/// start, the range and the loop end are each read twice, so the loop goes
/// back once and not once for each value of the range. The result is the
/// start of the range where that is zero, and else zero, since the loop
/// start takes a start that is not zero as a count.
///
/// This holds where the count that is in force at the second reading of the
/// range is not zero: the span of the range for a zero start, the integer
/// part of the start otherwise.
pub proof fn law_range_inside_loop(
    start: Number,
    end: Number,
    variables: Map<char, Number>,
    functions: Map<char, Seq<EmojiToken>>,
    fuel: nat,
)
    requires
        span(start, end) < usize::MAX,
        start.is_zero() ==> span(start, end) >= 1,
        !start.is_zero() ==> start.count() >= 1,
        fuel >= 6,
    ensures
        run(
            seq![EmojiToken::LoopStart, EmojiToken::LoopRange(start, end), EmojiToken::LoopEnd],
            variables,
            Machine::start(0, functions),
            fuel,
        ).fuel == fuel - 6,
        evaluation(
            fresh(
                seq![EmojiToken::LoopStart, EmojiToken::LoopRange(start, end), EmojiToken::LoopEnd],
                variables,
                functions,
            ),
            fuel,
        ).result == Ok::<Number, EvaluationError>(
            if start.is_zero() {
                start
            } else {
                Number { bits: 0 }
            },
        ),
{
    let tokens = seq![
        EmojiToken::LoopStart,
        EmojiToken::LoopRange(start, end),
        EmojiToken::LoopEnd,
    ];
    let begun = Machine::start(0, functions);
    let entered = begun.step(tokens[0], variables)->Ok_0;
    lemma_run_steps(tokens, variables, begun, fuel);
    assert(entered.position == 1 && entered.registers.in_loop && entered.registers.remaining == 0);
    let ranged = entered.step(tokens[1], variables)->Ok_0;
    lemma_run_steps(tokens, variables, entered, (fuel - 1) as nat);
    assert(ranged.position == 2 && ranged.registers.remaining == span(start, end) + 1);
    let back = ranged.step(tokens[2], variables)->Ok_0;
    lemma_run_steps(tokens, variables, ranged, (fuel - 2) as nat);
    assert(back.position == 0 && back.registers.accumulator == start);
    let again = back.step(tokens[0], variables)->Ok_0;
    lemma_run_steps(tokens, variables, back, (fuel - 3) as nat);
    assert(again.position == 1 && again.registers.in_loop && again.registers.remaining > 0);
    let closed = again.step(tokens[1], variables)->Ok_0;
    lemma_run_steps(tokens, variables, again, (fuel - 4) as nat);
    assert(closed.position == 2 && closed.registers.remaining == 0);
    let left = closed.step(tokens[2], variables)->Ok_0;
    lemma_run_steps(tokens, variables, closed, (fuel - 5) as nat);
    assert(left.position == 3);
    assert(left.registers.call is None);
    lemma_run_ends(tokens, variables, left, (fuel - 6) as nat);
}

/// A range whose span does not fit the count is an error.
pub proof fn law_range_overflow(
    start: Number,
    end: Number,
    variables: Map<char, Number>,
    functions: Map<char, Seq<EmojiToken>>,
    fuel: nat,
)
    requires
        span(start, end) >= usize::MAX,
        fuel >= 2,
    ensures
        evaluation(
            fresh(seq![EmojiToken::LoopStart, EmojiToken::LoopRange(start, end)], variables, functions),
            fuel,
        ).result == Err::<Number, EvaluationError>(EvaluationError::IterationOverflow),
{
    let tokens = seq![EmojiToken::LoopStart, EmojiToken::LoopRange(start, end)];
    let m0 = Machine::start(0, functions);
    let m1 = m0.step(tokens[0], variables)->Ok_0;
    lemma_run_steps(tokens, variables, m0, fuel);
    assert(m1.position == 1 && m1.registers.in_loop && m1.registers.remaining == 0);
    assert(m1.step(tokens[1], variables) == Err::<Machine, EvaluationError>(
        EvaluationError::IterationOverflow,
    ));
}

} // verus!
