//! Conditionals.

use crate::error::EvaluationError;
use crate::interpreter::evaluation;
use crate::laws::{first, fresh, lemma_run_ends, lemma_run_steps};
use crate::machine::Machine;
use crate::number::Number;
use crate::token::EmojiToken;
use vstd::prelude::*;

verus! {

/// The then glyph does not choose: in `c If Then a Else b` the operand
/// behind `Then` is added to the accumulator and the one behind `Else` is
/// passed over, whether the accumulator was zero or not.
pub proof fn law_then_takes_first_branch(
    c: Number,
    a: Number,
    b: Number,
    variables: Map<char, Number>,
    functions: Map<char, Seq<EmojiToken>>,
    fuel: nat,
)
    requires
        fuel >= 6,
    ensures
        evaluation(
            fresh(
                seq![
                    EmojiToken::Number(c),
                    EmojiToken::If,
                    EmojiToken::Then,
                    EmojiToken::Number(a),
                    EmojiToken::Else,
                    EmojiToken::Number(b),
                ],
                variables,
                functions,
            ),
            fuel,
        ).result == Ok::<Number, EvaluationError>(first(c).sum(a)),
{
    let tokens = seq![
        EmojiToken::Number(c),
        EmojiToken::If,
        EmojiToken::Then,
        EmojiToken::Number(a),
        EmojiToken::Else,
        EmojiToken::Number(b),
    ];
    let m0 = Machine::start(0, functions);
    let m1 = m0.step(tokens[0], variables)->Ok_0;
    lemma_run_steps(tokens, variables, m0, fuel);
    assert(m1.position == 1 && m1.registers.accumulator == first(c));
    let m2 = m1.step(tokens[1], variables)->Ok_0;
    lemma_run_steps(tokens, variables, m1, (fuel - 1) as nat);
    assert(m2.position == 2 && m2.registers.if_active && !m2.registers.else_active);
    let m3 = m2.step(tokens[2], variables)->Ok_0;
    lemma_run_steps(tokens, variables, m2, (fuel - 2) as nat);
    assert(m3.position == 3 && !m3.registers.skipping());
    assert(m3.registers.if_active == m3.registers.condition);
    assert(m3.registers.else_active == !m3.registers.condition);
    let m4 = m3.step(tokens[3], variables)->Ok_0;
    lemma_run_steps(tokens, variables, m3, (fuel - 3) as nat);
    assert(m4.position == 4 && m4.registers.accumulator == first(c).sum(a));
    let m5 = m4.step(tokens[4], variables)->Ok_0;
    lemma_run_steps(tokens, variables, m4, (fuel - 4) as nat);
    assert(m5.position == 5 && m5.registers.skipping());
    let m6 = m5.step(tokens[5], variables)->Ok_0;
    lemma_run_steps(tokens, variables, m5, (fuel - 5) as nat);
    assert(m6.position == 6 && m6.registers == m5.registers);
    lemma_run_ends(tokens, variables, m6, (fuel - 6) as nat);
}

/// Without the then glyph the condition chooses: in `c If a Else b` the
/// operand `a` is added where the accumulator is not zero, and `b` where it
/// is.
pub proof fn law_condition_chooses(
    c: Number,
    a: Number,
    b: Number,
    variables: Map<char, Number>,
    functions: Map<char, Seq<EmojiToken>>,
    fuel: nat,
)
    requires
        fuel >= 5,
    ensures
        evaluation(
            fresh(
                seq![
                    EmojiToken::Number(c),
                    EmojiToken::If,
                    EmojiToken::Number(a),
                    EmojiToken::Else,
                    EmojiToken::Number(b),
                ],
                variables,
                functions,
            ),
            fuel,
        ).result == Ok::<Number, EvaluationError>(
            if first(c).is_zero() {
                first(c).sum(b)
            } else {
                first(c).sum(a)
            },
        ),
{
    let tokens = seq![
        EmojiToken::Number(c),
        EmojiToken::If,
        EmojiToken::Number(a),
        EmojiToken::Else,
        EmojiToken::Number(b),
    ];
    let m0 = Machine::start(0, functions);
    let m1 = m0.step(tokens[0], variables)->Ok_0;
    lemma_run_steps(tokens, variables, m0, fuel);
    assert(m1.position == 1 && m1.registers.accumulator == first(c));
    let m2 = m1.step(tokens[1], variables)->Ok_0;
    lemma_run_steps(tokens, variables, m1, (fuel - 1) as nat);
    assert(m2.position == 2 && m2.registers.if_active && !m2.registers.else_active);
    assert(m2.registers.condition == !first(c).is_zero());
    let m3 = m2.step(tokens[2], variables)->Ok_0;
    lemma_run_steps(tokens, variables, m2, (fuel - 2) as nat);
    assert(m3.position == 3 && m3.registers.accumulator == if first(c).is_zero() {
        first(c)
    } else {
        first(c).sum(a)
    });
    let m4 = m3.step(tokens[3], variables)->Ok_0;
    lemma_run_steps(tokens, variables, m3, (fuel - 3) as nat);
    assert(m4.position == 4 && !m4.registers.if_active && m4.registers.else_active);
    let m5 = m4.step(tokens[4], variables)->Ok_0;
    lemma_run_steps(tokens, variables, m4, (fuel - 4) as nat);
    assert(m5.position == 5 && m5.registers.call is None);
    lemma_run_ends(tokens, variables, m5, (fuel - 5) as nat);
}

} // verus!
