//! What holds of every program of a given shape.
//!
//! The laws on tokens speak of [`evaluation`](crate::interpreter::evaluation)
//! and [`run`], the laws on source text of [`lex`](crate::lexer::lex) and
//! [`program_result`](crate::script::program_result). Sums and products are
//! the named results of the arithmetic.

pub mod branches;
pub mod budget;
pub mod functions;
pub mod loops;
pub mod products;
pub mod text;

use crate::interpreter::State;
use crate::machine::{run, Halt, Machine};
use crate::number::Number;
use crate::token::EmojiToken;
use vstd::prelude::*;

verus! {

/// The state of an interpreter at the start of `tokens`.
pub open spec fn fresh(
    tokens: Seq<EmojiToken>,
    variables: Map<char, Number>,
    functions: Map<char, Seq<EmojiToken>>,
) -> State {
    State { tokens, position: 0, variables, functions }
}

/// The sum of positive zero and `n`: what the accumulator holds after a
/// first number. It is `n` itself, unless `n` is a NaN or the negative zero.
pub open spec fn first(n: Number) -> Number {
    (Number { bits: 0 }).sum(n)
}

/// A pass from a machine that can take a step is the pass from the machine
/// after that step, with one step less.
pub proof fn lemma_run_steps(
    tokens: Seq<EmojiToken>,
    variables: Map<char, Number>,
    machine: Machine,
    fuel: nat,
)
    requires
        machine.position < tokens.len(),
        fuel > 0,
        machine.step(tokens[machine.position as int], variables) is Ok,
    ensures
        run(tokens, variables, machine, fuel) == run(
            tokens,
            variables,
            machine.step(tokens[machine.position as int], variables)->Ok_0,
            (fuel - 1) as nat,
        ),
{
}

/// A pass from a machine whose position is outside the tokens is over.
pub proof fn lemma_run_ends(
    tokens: Seq<EmojiToken>,
    variables: Map<char, Number>,
    machine: Machine,
    fuel: nat,
)
    requires
        machine.position >= tokens.len(),
    ensures
        run(tokens, variables, machine, fuel) == (Halt { machine, fuel, error: None }),
{
}

} // verus!
