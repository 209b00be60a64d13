//! Two numbers and an operator.

use crate::error::EvaluationError;
use crate::interpreter::evaluation;
use crate::laws::text::{
    lemma_lex_keyword_then, lemma_lex_literal_then, lemma_lone_literal, lemma_plain_decimal,
};
use crate::laws::{first, fresh, lemma_run_ends, lemma_run_steps};
use crate::lexer::lex;
use crate::machine::Machine;
use crate::number::Number;
use crate::script::program_result;
use crate::token::{EmojiToken, Operator, GLYPH_TIMES};
use vstd::prelude::*;

verus! {

/// Two numbers with the times glyph between them: the first is added to
/// the zero accumulator, and the sum is multiplied by the second.
pub proof fn law_product_of_tokens(
    a: Number,
    b: Number,
    variables: Map<char, Number>,
    functions: Map<char, Seq<EmojiToken>>,
    fuel: nat,
)
    requires
        fuel >= 3,
    ensures
        evaluation(
            fresh(
                seq![EmojiToken::Number(a), EmojiToken::Times, EmojiToken::Number(b)],
                variables,
                functions,
            ),
            fuel,
        ).result == Ok::<Number, EvaluationError>(first(a).product(b)),
{
    let tokens = seq![EmojiToken::Number(a), EmojiToken::Times, EmojiToken::Number(b)];
    let m0 = Machine::start(0, functions);
    let m1 = m0.step(tokens[0], variables)->Ok_0;
    lemma_run_steps(tokens, variables, m0, fuel);
    assert(m1.position == 1 && m1.registers.accumulator == first(a));
    let m2 = m1.step(tokens[1], variables)->Ok_0;
    lemma_run_steps(tokens, variables, m1, (fuel - 1) as nat);
    assert(m2.position == 2 && m2.registers.operator == Operator::Times);
    let m3 = m2.step(tokens[2], variables)->Ok_0;
    lemma_run_steps(tokens, variables, m2, (fuel - 2) as nat);
    assert(m3.position == 3 && m3.registers.call is None);
    lemma_run_ends(tokens, variables, m3, (fuel - 3) as nat);
}

/// Two numerals with the times glyph between them are three tokens, and the
/// program gives the product of the two numbers.
pub proof fn law_product(a: Seq<char>, b: Seq<char>, fuel: nat)
    requires
        Number::read(a) is Some,
        Number::read(b) is Some,
        fuel >= 3,
    ensures
        lex(a + seq![GLYPH_TIMES] + b) == Ok::<Seq<EmojiToken>, EvaluationError>(
            seq![
                EmojiToken::Number(Number::read(a)->0),
                EmojiToken::Times,
                EmojiToken::Number(Number::read(b)->0),
            ],
        ),
        program_result(a + seq![GLYPH_TIMES] + b, fuel) == Ok::<Number, EvaluationError>(
            Number::read(a)->0.product(Number::read(b)->0),
        ),
{
    let left = Number::read(a)->0;
    let right = Number::read(b)->0;
    let tail = seq![GLYPH_TIMES] + b;
    lemma_plain_decimal(a);
    lemma_plain_decimal(b);
    lemma_lone_literal(b);
    lemma_lex_keyword_then(GLYPH_TIMES, b, seq![EmojiToken::Number(right)]);
    assert(tail[0] == GLYPH_TIMES);
    lemma_lex_literal_then(
        a,
        left,
        tail,
        seq![EmojiToken::Times] + seq![EmojiToken::Number(right)],
    );
    assert(a + seq![GLYPH_TIMES] + b =~= a + tail);
    assert(seq![EmojiToken::Number(left)] + (seq![EmojiToken::Times] + seq![
        EmojiToken::Number(right),
    ]) =~= seq![EmojiToken::Number(left), EmojiToken::Times, EmojiToken::Number(right)]);
    law_product_of_tokens(left, right, Map::empty(), Map::empty(), fuel);
}

} // verus!
