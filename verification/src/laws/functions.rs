//! Function definitions and calls.

use crate::error::EvaluationError;
use crate::interpreter::{evaluation, State};
use crate::laws::text::{
    lemma_lex_function_then, lemma_lex_keyword_then, lemma_lex_literal_then, lemma_lex_nothing,
    lemma_plain_decimal,
};
use crate::laws::{first, fresh, lemma_run_ends, lemma_run_steps};
use crate::lexer::lex;
use crate::machine::{run, Machine};
use crate::number::Number;
use crate::script::program_result;
use crate::token::{EmojiToken, GLYPH_FUNCTION_CALL, GLYPH_FUNCTION_END, GLYPH_FUNCTION_START};
use vstd::prelude::*;

verus! {

/// The tokens that define the function `name` with the given body and then
/// call it.
pub open spec fn definition_and_call(name: char, body: Seq<EmojiToken>) -> Seq<EmojiToken> {
    seq![EmojiToken::FunctionStart(name)] + body + seq![
        EmojiToken::FunctionEnd,
        EmojiToken::FunctionCall(name),
    ]
}

/// While a function is captured, its body's tokens are only collected.
proof fn lemma_capture(
    name: char,
    body: Seq<EmojiToken>,
    variables: Map<char, Number>,
    machine: Machine,
    fuel: nat,
    taken: nat,
)
    requires
        forall|i: int| 0 <= i < body.len() ==> #[trigger] body[i] != EmojiToken::FunctionEnd,
        body.len() + 3 <= usize::MAX,
        taken <= body.len(),
        machine.capturing is Some,
        machine.position == 1 + taken,
        machine.captured == body.take(taken as int),
        fuel >= body.len() - taken,
    ensures
        run(definition_and_call(name, body), variables, machine, fuel) == run(
            definition_and_call(name, body),
            variables,
            Machine { position: (1 + body.len()) as usize, captured: body, ..machine },
            (fuel - (body.len() - taken)) as nat,
        ),
    decreases body.len() - taken,
{
    let tokens = definition_and_call(name, body);
    if taken < body.len() {
        assert(tokens[machine.position as int] == body[taken as int]);
        let next = machine.step(tokens[machine.position as int], variables)->Ok_0;
        assert(next.captured =~= body.take(taken as int + 1));
        lemma_capture(name, body, variables, next, (fuel - 1) as nat, taken + 1);
    } else {
        assert(body.take(taken as int) =~= body);
    }
}

/// A function that is defined and then called gives what its body gives,
/// and leaves the caller's variables as they were, whatever the body
/// assigns: the body is evaluated from its start, with the caller's
/// variables and with the functions known at the call, its own among them.
/// The definition takes one step for each of its tokens, and the call takes
/// one.
pub proof fn law_function_call(
    name: char,
    body: Seq<EmojiToken>,
    variables: Map<char, Number>,
    functions: Map<char, Seq<EmojiToken>>,
    fuel: nat,
)
    requires
        forall|i: int| 0 <= i < body.len() ==> #[trigger] body[i] != EmojiToken::FunctionEnd,
        body.len() + 3 <= usize::MAX,
        fuel >= body.len() + 4,
    ensures
        evaluation(fresh(definition_and_call(name, body), variables, functions), fuel).result
            == evaluation(
            fresh(body, variables, functions.insert(name, body)),
            (fuel - body.len() - 4) as nat,
        ).result,
        evaluation(
            fresh(definition_and_call(name, body), variables, functions),
            fuel,
        ).state.variables == variables,
        evaluation(
            fresh(definition_and_call(name, body), variables, functions),
            fuel,
        ).state.functions == functions.insert(name, body),
{
    let tokens = definition_and_call(name, body);
    let start = Machine::start(0, functions);
    let opened = Machine { position: 1, capturing: Some(name), ..start };
    let filled = Machine { position: (1 + body.len()) as usize, captured: body, ..opened };
    assert(body.take(0) =~= Seq::<EmojiToken>::empty());
    assert(tokens[0] == EmojiToken::FunctionStart(name));
    assert(start.step(tokens[0], variables) == Ok::<Machine, EvaluationError>(opened));
    assert(run(tokens, variables, start, fuel) == run(
        tokens,
        variables,
        opened,
        (fuel - 1) as nat,
    ));
    lemma_capture(name, body, variables, opened, (fuel - 1) as nat, 0);
    assert(tokens[1 + body.len() as int] == EmojiToken::FunctionEnd);
    assert(tokens[2 + body.len() as int] == EmojiToken::FunctionCall(name));
    assert(tokens.len() == body.len() + 3);
    let left = (fuel - 1 - body.len()) as nat;
    let defined = filled.step(tokens[filled.position as int], variables)->Ok_0;
    lemma_run_steps(tokens, variables, filled, left);
    assert(defined.position == 2 + body.len() && defined.capturing is None);
    assert(defined.functions == functions.insert(name, body));
    let called = defined.step(tokens[defined.position as int], variables)->Ok_0;
    lemma_run_steps(tokens, variables, defined, (left - 1) as nat);
    assert(called.position == 3 + body.len() && called.registers.call == Some(name));
    assert(called.registers.assignment is None);
    lemma_run_ends(tokens, variables, called, (left - 2) as nat);
}

/// A function whose body is one number gives that number, added to the zero
/// accumulator.
pub proof fn law_function_returns_literal(
    name: char,
    literal: Number,
    variables: Map<char, Number>,
    functions: Map<char, Seq<EmojiToken>>,
    fuel: nat,
)
    requires
        fuel >= 6,
    ensures
        evaluation(
            fresh(
                definition_and_call(name, seq![EmojiToken::Number(literal)]),
                variables,
                functions,
            ),
            fuel,
        ).result == Ok::<Number, EvaluationError>(first(literal)),
{
    let body = seq![EmojiToken::Number(literal)];
    law_function_call(name, body, variables, functions, fuel);
    let known = functions.insert(name, body);
    let m0 = Machine::start(0, known);
    let m1 = m0.step(body[0], variables)->Ok_0;
    lemma_run_steps(body, variables, m0, (fuel - 5) as nat);
    assert(m1.position == 1 && m1.registers.call is None);
    lemma_run_ends(body, variables, m1, (fuel - 6) as nat);
}

/// A call of a function that no definition has named is an error, whatever
/// else the pass did.
pub proof fn law_undefined_function(state: State, fuel: nat)
    ensures
        ({
            let halt = run(
                state.tokens,
                state.variables,
                Machine::start(state.position, state.functions),
                fuel,
            );
            halt.error is None && halt.machine.registers.call is Some
                && !halt.machine.functions.contains_key(halt.machine.registers.call->0)
                ==> evaluation(state, fuel).result == Err::<Number, EvaluationError>(
                EvaluationError::UndefinedFunction(halt.machine.registers.call->0),
            )
        }),
{
}

/// A program that is nothing but the call of a function that is not known
/// fails.
pub proof fn law_lone_call_fails(
    name: char,
    variables: Map<char, Number>,
    functions: Map<char, Seq<EmojiToken>>,
    fuel: nat,
)
    requires
        !functions.contains_key(name),
        fuel >= 1,
    ensures
        evaluation(fresh(seq![EmojiToken::FunctionCall(name)], variables, functions), fuel).result
            == Err::<Number, EvaluationError>(EvaluationError::UndefinedFunction(name)),
{
    let tokens = seq![EmojiToken::FunctionCall(name)];
    let m0 = Machine::start(0, functions);
    let m1 = m0.step(tokens[0], variables)->Ok_0;
    lemma_run_steps(tokens, variables, m0, fuel);
    assert(m1.position == 1 && m1.registers.call == Some(name) && m1.functions == functions);
    lemma_run_ends(tokens, variables, m1, (fuel - 1) as nat);
}

/// The source of a function that is defined with the given body and then
/// called.
pub open spec fn definition_and_call_source(name: char, body: Seq<char>) -> Seq<char> {
    seq![GLYPH_FUNCTION_START, name] + body + seq![
        GLYPH_FUNCTION_END,
        GLYPH_FUNCTION_CALL,
        name,
    ]
}

/// A function whose body is one numeral gives that number when it is
/// defined and then called, whatever character names it.
pub proof fn law_function_returns_numeral(name: char, numeral: Seq<char>, fuel: nat)
    requires
        Number::read(numeral) is Some,
        fuel >= 6,
    ensures
        lex(definition_and_call_source(name, numeral)) == Ok::<Seq<EmojiToken>, EvaluationError>(
            definition_and_call(name, seq![EmojiToken::Number(Number::read(numeral)->0)]),
        ),
        program_result(definition_and_call_source(name, numeral), fuel) == Ok::<
            Number,
            EvaluationError,
        >(Number::read(numeral)->0),
{
    let value = Number::read(numeral)->0;
    let number = EmojiToken::Number(value);
    let call = seq![GLYPH_FUNCTION_CALL, name];
    let end = seq![GLYPH_FUNCTION_END] + call;
    let body = numeral + end;
    lemma_plain_decimal(numeral);
    lemma_lex_nothing();
    lemma_lex_function_then(GLYPH_FUNCTION_CALL, name, Seq::empty(), Seq::empty());
    assert(call + Seq::<char>::empty() =~= call);
    let called = seq![EmojiToken::FunctionCall(name)] + Seq::<EmojiToken>::empty();
    lemma_lex_keyword_then(GLYPH_FUNCTION_END, call, called);
    let ended = seq![EmojiToken::FunctionEnd] + called;
    assert(end[0] == GLYPH_FUNCTION_END);
    lemma_lex_literal_then(numeral, value, end, ended);
    let defined = seq![number] + ended;
    lemma_lex_function_then(GLYPH_FUNCTION_START, name, body, defined);
    assert(definition_and_call_source(name, numeral) =~= seq![GLYPH_FUNCTION_START, name] + body);
    assert(seq![EmojiToken::FunctionStart(name)] + defined =~= definition_and_call(
        name,
        seq![number],
    ));
    law_function_returns_literal(name, value, Map::empty(), Map::empty(), fuel);
}

} // verus!
