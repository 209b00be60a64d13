//! A program as it is handed in, and its evaluation from source text.

use crate::error::EvaluationError;
use crate::interpreter::{evaluation, EmojiInterpreter, State};
use crate::lexer::{fault, lex};
use crate::number::Number;
use crate::scanner::PeekableChars;
use vstd::prelude::*;

verus! {

/// What a source text evaluates to with a budget of `fuel` steps: the error
/// of the lexer where it has one, and else what the evaluation of the tokens
/// gives, from the first token on, with no variables and no functions.
pub open spec fn program_result(source: Seq<char>, fuel: nat) -> Result<Number, EvaluationError> {
    match lex(source) {
        Err(e) => Err(e),
        Ok(tokens) => evaluation(
            State { tokens, position: 0, variables: Map::empty(), functions: Map::empty() },
            fuel,
        ).result,
    }
}

/// Evaluates a source text with a budget of `fuel` steps. A text that has an
/// error by its form fails with that error, whatever the budget.
pub fn evaluate(source: &str, fuel: u64) -> (r: Result<Number, EvaluationError>)
    ensures
        r == program_result(source@, fuel as nat),
        fault(source@) is Some ==> r == Err::<Number, EvaluationError>(fault(source@)->0),
{
    let mut peekable_chars = PeekableChars::new(source);
    let tokens = match peekable_chars.tokenize() {
        Ok(tokens) => tokens,
        Err(e) => {
            return Err(e);
        },
    };
    let mut interpreter = EmojiInterpreter::new(tokens);
    interpreter.evaluate(fuel)
}

/// A program to run: its source text.
pub struct Script {
    pub code: String,
}

impl Script {
    /// The script with the given source text.
    pub fn new(code: String) -> (r: Script)
        ensures
            r.code@ == code@,
    {
        Script { code }
    }

    /// Runs the script with a budget of `fuel` steps. A script that has an
    /// error by its form fails with that error, whatever the budget.
    pub fn run(&self, fuel: u64) -> (r: Result<Number, EvaluationError>)
        ensures
            r == program_result(self.code@, fuel as nat),
            fault(self.code@) is Some ==> r == Err::<Number, EvaluationError>(
                fault(self.code@)->0,
            ),
    {
        evaluate(self.code.as_str(), fuel)
    }
}

} // verus!
