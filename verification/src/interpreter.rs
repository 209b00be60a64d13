//! The evaluator: one pass over a token sequence and, where a call is
//! pending at its end, the evaluation of the called function's body.
//!
//! [`evaluation`] says what an evaluation gives and what it leaves behind.
//! [`EmojiInterpreter::evaluate`] computes it.

use crate::error::EvaluationError;
use crate::machine::{lemma_run_spends, run, Machine, Registers};
use crate::number::Number;
use crate::store::{Functions, Variables};
use crate::token::EmojiToken;
use vstd::prelude::*;

verus! {

/// What an interpreter holds.
pub struct State {
    pub tokens: Seq<EmojiToken>,
    /// The index of the token that is read next.
    pub position: usize,
    pub variables: Map<char, Number>,
    pub functions: Map<char, Seq<EmojiToken>>,
}

/// What an evaluation gives, and the state that it leaves.
pub struct Outcome {
    pub result: Result<Number, EvaluationError>,
    pub state: State,
}

/// The variables after the pending assignment, if there is one, was made.
pub open spec fn committed(
    variables: Map<char, Number>,
    assignment: Option<(char, Number)>,
) -> Map<char, Number> {
    match assignment {
        Some((name, value)) => variables.insert(name, value),
        None => variables,
    }
}

/// The evaluation of the tokens of `state` from its position on, with a
/// budget of `fuel` steps.
///
/// A pass is made over the tokens. Where it fails, that is the result, and
/// the variables are as they were. Where it reaches the end, the pending
/// assignment is made. Without a pending call the accumulator is the result.
/// With one, the result is that of evaluating the function's body from its
/// start, with what is left of the budget but for one step, on a copy of the
/// variables and functions: what the body assigns or defines is not kept. A
/// call of a function that was never defined is an error.
pub open spec fn evaluation(state: State, fuel: nat) -> Outcome
    decreases fuel,
    via evaluation_decreases
{
    let halt = run(
        state.tokens,
        state.variables,
        Machine::start(state.position, state.functions),
        fuel,
    );
    let reached = State {
        position: halt.machine.position,
        functions: halt.machine.functions,
        ..state
    };
    let registers = halt.machine.registers;
    if halt.error is Some {
        Outcome { result: Err(halt.error->0), state: reached }
    } else {
        let settled = State {
            variables: committed(state.variables, registers.assignment),
            ..reached
        };
        if registers.call is None {
            Outcome { result: Ok(registers.accumulator), state: settled }
        } else if !settled.functions.contains_key(registers.call->0) {
            Outcome {
                result: Err(EvaluationError::UndefinedFunction(registers.call->0)),
                state: settled,
            }
        } else if halt.fuel == 0 {
            Outcome { result: Err(EvaluationError::StepLimit), state: settled }
        } else {
            Outcome {
                result: evaluation(
                    State {
                        tokens: settled.functions[registers.call->0],
                        position: 0,
                        variables: settled.variables,
                        functions: settled.functions,
                    },
                    (halt.fuel - 1) as nat,
                ).result,
                state: settled,
            }
        }
    }
}

#[via_fn]
proof fn evaluation_decreases(state: State, fuel: nat) {
    lemma_run_spends(
        state.tokens,
        state.variables,
        Machine::start(state.position, state.functions),
        fuel,
    );
}

/// What a pass keeps beside the interpreter's own state.
struct Pass {
    registers: Registers,
    capturing: Option<char>,
    captured: Vec<EmojiToken>,
}

/// An interpreter: a token sequence, a read position, and the variables and
/// functions known so far.
pub struct EmojiInterpreter {
    tokens: Vec<EmojiToken>,
    position: usize,
    variables: Variables,
    functions: Functions,
}

/// How a pass was settled.
enum Turn {
    /// The evaluation is over, with this result.
    Done(Result<Number, EvaluationError>),
    /// The result is that of this interpreter, which stands at the start of
    /// the called function's body, with this budget.
    Call(EmojiInterpreter, u64),
}

impl View for EmojiInterpreter {
    type V = State;

    closed spec fn view(&self) -> State {
        State {
            tokens: self.tokens@,
            position: self.position,
            variables: self.variables@,
            functions: self.functions@,
        }
    }
}

impl EmojiInterpreter {
    /// The machine that the interpreter and a pass make up.
    closed spec fn machine(&self, pass: &Pass) -> Machine {
        Machine {
            registers: pass.registers,
            position: self.position,
            capturing: pass.capturing,
            captured: pass.captured@,
            functions: self.functions@,
        }
    }

    /// An interpreter at the start of `tokens`, with no variables and no
    /// functions.
    pub fn new(tokens: Vec<EmojiToken>) -> (r: Self)
        ensures
            r@ == (State {
                tokens: tokens@,
                position: 0,
                variables: Map::empty(),
                functions: Map::empty(),
            }),
    {
        EmojiInterpreter {
            tokens,
            position: 0,
            variables: Variables::new(),
            functions: Functions::new(),
        }
    }

    /// The index of the token that is read next.
    pub fn position(&self) -> (r: usize)
        ensures
            r == self@.position,
    {
        self.position
    }

    /// The value of the variable `name`, if it has one.
    pub fn variable(&self, name: char) -> (r: Option<Number>)
        ensures
            r == if self@.variables.contains_key(name) {
                Some(self@.variables[name])
            } else {
                None
            },
    {
        self.variables.get(name)
    }

    /// The body of the function `name`, if it is defined.
    pub fn function(&self, name: char) -> (r: Option<Vec<EmojiToken>>)
        ensures
            self@.functions.contains_key(name) ==> r is Some && r->0@ == self@.functions[name],
            !self@.functions.contains_key(name) ==> r is None,
    {
        self.functions.get(name)
    }

    /// Takes the next token, if there is one, and gives it with its index.
    pub fn next_token(&mut self) -> (r: Option<(usize, EmojiToken)>)
        ensures
            old(self)@.position < old(self)@.tokens.len() ==> r == Some(
                (old(self)@.position, old(self)@.tokens[old(self)@.position as int]),
            ) && final(self)@ == (State {
                position: (old(self)@.position + 1) as usize,
                ..old(self)@
            }),
            old(self)@.position < old(self)@.tokens.len() ==> final(self)@.position == old(
                self,
            )@.position + 1,
            old(self)@.position >= old(self)@.tokens.len() ==> r is None && final(self)@ == old(
                self,
            )@,
    {
        if self.position < self.tokens.len() {
            let token = self.tokens[self.position];
            let current_position = self.position;
            self.position = self.position + 1;
            Some((current_position, token))
        } else {
            None
        }
    }

    /// Takes one step of a pass.
    fn step(&mut self, pass: &mut Pass) -> (r: Result<(), EvaluationError>)
        requires
            old(self)@.position < old(self)@.tokens.len(),
        ensures
            final(self)@.tokens == old(self)@.tokens,
            final(self)@.variables == old(self)@.variables,
            match old(self).machine(old(pass)).step(
                old(self)@.tokens[old(self)@.position as int],
                old(self)@.variables,
            ) {
                Ok(next) => r is Ok && final(self).machine(final(pass)) == next,
                Err(e) => r == Err::<(), EvaluationError>(e) && final(self)@.position == old(
                    self,
                )@.position + 1 && final(self)@.functions == old(self)@.functions,
            },
    {
        let (current_position, token) = match self.next_token() {
            Some(found) => found,
            None => {
                return Ok(());
            },
        };
        assert(current_position < self.tokens.len());
        if let Some(name) = pass.capturing {
            match token {
                EmojiToken::FunctionEnd => {
                    let mut body: Vec<EmojiToken> = Vec::new();
                    std::mem::swap(&mut pass.captured, &mut body);
                    self.functions.define(name, body);
                    pass.capturing = None;
                },
                _ => {
                    pass.captured.push(token);
                },
            }
            return Ok(());
        }
        match token {
            EmojiToken::FunctionStart(name) => {
                pass.capturing = Some(name);
                pass.captured = Vec::new();
                Ok(())
            },
            _ => {
                match pass.registers.execute(token, current_position, &self.variables) {
                    Ok(next) => {
                        self.position = next;
                        Ok(())
                    },
                    Err(e) => Err(e),
                }
            },
        }
    }

    /// Makes one pass from the current position on and settles what it
    /// left: the result, or the call that the result is to come from.
    fn turn(&mut self, fuel: u64) -> (r: Turn)
        ensures
            final(self)@ == evaluation(old(self)@, fuel as nat).state,
            match r {
                Turn::Done(result) => result == evaluation(old(self)@, fuel as nat).result,
                Turn::Call(callee, budget) => budget < fuel && evaluation(
                    old(self)@,
                    fuel as nat,
                ).result == evaluation(callee@, budget as nat).result,
            },
    {
        let mut pass = Pass { registers: Registers::new(), capturing: None, captured: Vec::new() };
        let mut budget = fuel;
        let ghost begun = self@;
        while self.position < self.tokens.len()
            invariant
                begun == old(self)@,
                budget <= fuel,
                self@.tokens == begun.tokens,
                self@.variables == begun.variables,
                run(
                    begun.tokens,
                    begun.variables,
                    Machine::start(begun.position, begun.functions),
                    fuel as nat,
                ) == run(begun.tokens, begun.variables, self.machine(&pass), budget as nat),
            decreases budget,
        {
            if budget == 0 {
                return Turn::Done(Err(EvaluationError::StepLimit));
            }
            let ghost before = self.machine(&pass);
            match self.step(&mut pass) {
                Ok(()) => {},
                Err(e) => {
                    assert(self@ =~= (State {
                        position: (before.position + 1) as usize,
                        functions: before.functions,
                        ..begun
                    }));
                    return Turn::Done(Err(e));
                },
            }
            budget = budget - 1;
        }
        let ghost halt = run(
            begun.tokens,
            begun.variables,
            Machine::start(begun.position, begun.functions),
            fuel as nat,
        );
        assert(halt.machine == self.machine(&pass) && halt.fuel == budget && halt.error is None);
        if let Some((var, value)) = pass.registers.assignment {
            self.variables.set(var, value);
        }
        match pass.registers.call {
            None => Turn::Done(Ok(pass.registers.accumulator)),
            Some(name) => {
                let body = match self.functions.get(name) {
                    Some(body) => body,
                    None => {
                        return Turn::Done(Err(EvaluationError::UndefinedFunction(name)));
                    },
                };
                if budget == 0 {
                    return Turn::Done(Err(EvaluationError::StepLimit));
                }
                let function_interpreter = EmojiInterpreter {
                    tokens: body,
                    position: 0,
                    variables: self.variables.copy(),
                    functions: self.functions.copy(),
                };
                Turn::Call(function_interpreter, budget - 1)
            },
        }
    }

    /// Evaluates the tokens from the current position on, with a budget of
    /// `fuel` steps: one for each token read, and one for a call.
    ///
    /// The budget is what makes the evaluation end: a loop may go back
    /// without end, and a function may call itself.
    pub fn evaluate(&mut self, fuel: u64) -> (r: Result<Number, EvaluationError>)
        ensures
            r == evaluation(old(self)@, fuel as nat).result,
            final(self)@ == evaluation(old(self)@, fuel as nat).state,
    {
        let (mut function_interpreter, mut budget) = match self.turn(fuel) {
            Turn::Done(result) => {
                return result;
            },
            Turn::Call(callee, budget) => (callee, budget),
        };
        loop
            invariant
                evaluation(old(self)@, fuel as nat).result == evaluation(
                    function_interpreter@,
                    budget as nat,
                ).result,
                self@ == evaluation(old(self)@, fuel as nat).state,
            decreases budget,
        {
            match function_interpreter.turn(budget) {
                Turn::Done(result) => {
                    return result;
                },
                Turn::Call(callee, left) => {
                    function_interpreter = callee;
                    budget = left;
                },
            }
        }
    }
}

} // verus!
