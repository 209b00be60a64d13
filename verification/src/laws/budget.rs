//! The step budget and the result.

use crate::error::EvaluationError;
use crate::interpreter::{committed, evaluation, State};
use crate::machine::{lemma_run_spends, run, Halt, Machine};
use crate::number::Number;
use crate::token::EmojiToken;
use vstd::prelude::*;

verus! {

/// A pass that ends for another reason than the budget ends in the same way
/// with a larger budget, and leaves as much more of it.
pub proof fn lemma_run_with_more(
    tokens: Seq<EmojiToken>,
    variables: Map<char, Number>,
    machine: Machine,
    fuel: nat,
    more: nat,
)
    requires
        run(tokens, variables, machine, fuel).error != Some(EvaluationError::StepLimit),
    ensures
        run(tokens, variables, machine, fuel + more) == (Halt {
            fuel: run(tokens, variables, machine, fuel).fuel + more,
            ..run(tokens, variables, machine, fuel)
        }),
    decreases fuel,
{
    if machine.position < tokens.len() && fuel > 0 {
        let step = machine.step(tokens[machine.position as int], variables);
        if step is Ok {
            lemma_run_with_more(tokens, variables, step->Ok_0, (fuel - 1) as nat, more);
        }
    }
}

/// The budget decides whether an evaluation comes to an end, not what it
/// gives: an evaluation that does not run out of steps gives the same
/// result, and leaves the same state, with every larger budget.
pub proof fn law_budget(state: State, fuel: nat, more: nat)
    requires
        evaluation(state, fuel).result != Err::<Number, EvaluationError>(
            EvaluationError::StepLimit,
        ),
    ensures
        evaluation(state, fuel + more) == evaluation(state, fuel),
    decreases fuel,
{
    let start = Machine::start(state.position, state.functions);
    let halt = run(state.tokens, state.variables, start, fuel);
    lemma_run_with_more(state.tokens, state.variables, start, fuel, more);
    lemma_run_spends(state.tokens, state.variables, start, fuel);
    let registers = halt.machine.registers;
    if halt.error is None && registers.call is Some && halt.machine.functions.contains_key(
        registers.call->0,
    ) && halt.fuel > 0 {
        let inner = State {
            tokens: halt.machine.functions[registers.call->0],
            position: 0,
            variables: committed(state.variables, registers.assignment),
            functions: halt.machine.functions,
        };
        law_budget(inner, (halt.fuel - 1) as nat, more);
        assert(halt.fuel - 1 + more == halt.fuel + more - 1);
    }
}

} // verus!
