//! The state of one pass over a token sequence, and what each token does to it.
//!
//! A pass reads the tokens from left to right. Its [`Registers`] hold the
//! accumulator, the pending operator and the flags of conditionals, loops,
//! assignment and calls. A [`Machine`] adds the read position, the function
//! that is being captured and the functions defined so far. [`run`] takes
//! steps until the position leaves the sequence, a step fails or the budget
//! is spent.

use crate::error::EvaluationError;
use crate::number::Number;
use crate::store::Variables;
use crate::token::{EmojiToken, Operator};
use vstd::prelude::*;

verus! {

/// The accumulator and the control flags of a pass.
#[derive(Clone, Copy, Debug)]
pub struct Registers {
    /// The value computed so far.
    pub accumulator: Number,
    /// The operator that the next operand is combined with.
    pub operator: Operator,
    /// What the last `If` found: whether the accumulator was not zero.
    pub condition: bool,
    pub if_active: bool,
    pub else_active: bool,
    /// The variable named last, which the next number is assigned to.
    pub target: Option<char>,
    /// The one assignment that is made when the pass ends.
    pub assignment: Option<(char, Number)>,
    /// The index of the token that a loop goes back to.
    pub loop_start: Option<usize>,
    /// The number of times that the loop still goes back.
    pub remaining: usize,
    pub in_loop: bool,
    /// The one function that is called when the pass ends.
    pub call: Option<char>,
}

impl Registers {
    /// The registers at the start of a pass: a zero accumulator, addition as
    /// the operator, and nothing pending.
    pub open spec fn initial() -> Registers {
        Registers {
            accumulator: Number { bits: 0 },
            operator: Operator::Add,
            condition: false,
            if_active: false,
            else_active: false,
            target: None,
            assignment: None,
            loop_start: None,
            remaining: 0,
            in_loop: false,
            call: None,
        }
    }

    /// Whether operands are passed over: the pass is in the branch that the
    /// condition did not choose.
    pub open spec fn skipping(self) -> bool {
        (self.if_active && !self.condition) || (self.else_active && self.condition)
    }

    /// The registers with `value` combined into the accumulator.
    pub open spec fn combined(self, value: Number) -> Registers {
        Registers { accumulator: self.operator.applied(self.accumulator, value), ..self }
    }

    /// The registers with the loop anchored at `position`, unless it is
    /// anchored already.
    pub open spec fn anchored(self, position: usize) -> Registers {
        if self.loop_start is None {
            Registers { loop_start: Some(position), ..self }
        } else {
            self
        }
    }

    /// The registers after the token at `position`, outside a function
    /// definition.
    ///
    /// Only numbers and variables are passed over in a branch that was not
    /// chosen. A variable names the target of an assignment. A second
    /// variable, while a target is pending, is a read: what is combined into
    /// the accumulator is the value of the pending target, not that of the
    /// variable that the second token names, and the target is pending no
    /// longer. Where the target has no value, nothing is combined. A loop
    /// start takes a non-zero accumulator as the number of repetitions. A
    /// range sets up a loop when none is counting, and ends the loop when
    /// one is.
    pub open spec fn after(
        self,
        token: EmojiToken,
        position: usize,
        variables: Map<char, Number>,
    ) -> Result<Registers, EvaluationError> {
        match token {
            EmojiToken::Number(n) => Ok(
                if self.skipping() {
                    self
                } else if self.target is Some {
                    Registers { assignment: Some((self.target->0, n)), target: None, ..self }
                } else {
                    self.combined(n)
                },
            ),
            EmojiToken::Add => Ok(Registers { operator: Operator::Add, ..self }),
            EmojiToken::Subtract => Ok(Registers { operator: Operator::Subtract, ..self }),
            EmojiToken::Times => Ok(Registers { operator: Operator::Times, ..self }),
            EmojiToken::Division => Ok(Registers { operator: Operator::Division, ..self }),
            EmojiToken::If => Ok(
                Registers { condition: !self.accumulator.is_zero(), if_active: true, ..self },
            ),
            EmojiToken::Then => Ok(
                if self.condition {
                    self
                } else {
                    Registers { if_active: false, else_active: true, ..self }
                },
            ),
            EmojiToken::Else => Ok(
                Registers { if_active: !self.if_active, else_active: !self.else_active, ..self },
            ),
            EmojiToken::EndIf => Ok(Registers { if_active: false, else_active: false, ..self }),
            EmojiToken::Variable(name) => Ok(
                if self.target is None {
                    Registers { target: Some(name), ..self }
                } else if self.skipping() {
                    self
                } else if variables.contains_key(self.target->0) {
                    Registers { target: None, ..self.combined(variables[self.target->0]) }
                } else {
                    Registers { target: None, ..self }
                },
            ),
            EmojiToken::Assign => Ok(self),
            EmojiToken::LoopStart => Ok(
                if self.accumulator.is_zero() {
                    Registers { in_loop: true, ..self.anchored(position) }
                } else {
                    Registers {
                        remaining: self.accumulator.count() as usize,
                        accumulator: Number { bits: 0 },
                        in_loop: true,
                        ..self.anchored(position)
                    }
                },
            ),
            EmojiToken::LoopRange(start, end) => if !self.in_loop {
                Ok(self)
            } else if self.remaining == 0 {
                let span = end.difference(start).count();
                if span >= usize::MAX {
                    Err(EvaluationError::IterationOverflow)
                } else {
                    Ok(
                        Registers {
                            accumulator: start,
                            remaining: (span + 1) as usize,
                            ..self.anchored(position)
                        },
                    )
                }
            } else {
                Ok(Registers { remaining: 0, loop_start: None, in_loop: false, ..self })
            },
            EmojiToken::LoopEnd => Ok(
                if self.remaining > 0 {
                    Registers { remaining: (self.remaining - 1) as usize, ..self }
                } else {
                    Registers { loop_start: None, in_loop: false, ..self }
                },
            ),
            EmojiToken::FunctionStart(_) => Ok(self),
            EmojiToken::FunctionEnd => Ok(self),
            EmojiToken::FunctionCall(name) => Ok(Registers { call: Some(name), ..self }),
        }
    }

    /// The position that is read after the token at `position`: the anchor
    /// of the loop where a loop end goes back, the next position otherwise.
    pub open spec fn destination(self, token: EmojiToken, position: usize) -> usize {
        if token == EmojiToken::LoopEnd && self.remaining > 0 && self.loop_start is Some {
            self.loop_start->0
        } else {
            (position + 1) as usize
        }
    }

    /// The registers at the start of a pass.
    pub fn new() -> (r: Registers)
        ensures
            r == Registers::initial(),
    {
        Registers {
            accumulator: Number::zero(),
            operator: Operator::Add,
            condition: false,
            if_active: false,
            else_active: false,
            target: None,
            assignment: None,
            loop_start: None,
            remaining: 0,
            in_loop: false,
            call: None,
        }
    }

    /// Whether operands are passed over.
    pub fn is_skipping(&self) -> (r: bool)
        ensures
            r == self.skipping(),
    {
        (self.if_active && !self.condition) || (self.else_active && self.condition)
    }

    /// Whether the token divides the accumulator by zero: the operator is
    /// division, no operand is passed over, and the token is a number that
    /// is zero with no target pending, or a variable that reads a pending
    /// target whose value is zero.
    pub open spec fn divides_by_zero(self, token: EmojiToken, variables: Map<char, Number>) -> bool {
        &&& self.operator == Operator::Division
        &&& !self.skipping()
        &&& match token {
            EmojiToken::Number(n) => self.target is None && n.is_zero(),
            EmojiToken::Variable(_) => self.target is Some && variables.contains_key(
                self.target->0,
            ) && variables[self.target->0].is_zero(),
            _ => false,
        }
    }

    /// Takes the token at `position`, outside a function definition, and
    /// gives the position to read next. A division by zero is no error: it
    /// leaves an infinity or a NaN in the accumulator.
    pub fn execute(
        &mut self,
        token: EmojiToken,
        position: usize,
        variables: &Variables,
    ) -> (r: Result<usize, EvaluationError>)
        requires
            position < usize::MAX,
        ensures
            match old(self).after(token, position, variables@) {
                Ok(registers) => *final(self) == registers && r == Ok::<usize, EvaluationError>(
                    old(self).destination(token, position),
                ),
                Err(e) => r == Err::<usize, EvaluationError>(e) && *final(self) == *old(self),
            },
            old(self).divides_by_zero(token, variables@) ==> !final(self).accumulator.is_finite(),
    {
        let mut next = position + 1;
        match token {
            EmojiToken::Number(num) => {
                if !self.is_skipping() {
                    if let Some(var) = self.target {
                        self.assignment = Some((var, num));
                        self.target = None;
                    } else {
                        self.accumulator = self.operator.apply(self.accumulator, num);
                    }
                }
            },
            EmojiToken::Add => {
                self.operator = Operator::Add;
            },
            EmojiToken::Subtract => {
                self.operator = Operator::Subtract;
            },
            EmojiToken::Times => {
                self.operator = Operator::Times;
            },
            EmojiToken::Division => {
                self.operator = Operator::Division;
            },
            EmojiToken::If => {
                self.condition = self.accumulator.is_nonzero();
                self.if_active = true;
            },
            EmojiToken::Then => {
                if !self.condition {
                    self.if_active = false;
                    self.else_active = true;
                }
            },
            EmojiToken::Else => {
                self.if_active = !self.if_active;
                self.else_active = !self.else_active;
            },
            EmojiToken::EndIf => {
                self.if_active = false;
                self.else_active = false;
            },
            EmojiToken::Variable(ch) => {
                if let Some(var) = self.target {
                    if !self.is_skipping() {
                        if let Some(value) = variables.get(var) {
                            self.accumulator = self.operator.apply(self.accumulator, value);
                        }
                        self.target = None;
                    }
                } else {
                    self.target = Some(ch);
                }
            },
            EmojiToken::Assign => {},
            EmojiToken::LoopStart => {
                if self.loop_start.is_none() {
                    self.loop_start = Some(position);
                }
                if self.accumulator.is_nonzero() {
                    self.remaining = self.accumulator.to_count();
                    self.accumulator = Number::zero();
                }
                self.in_loop = true;
            },
            EmojiToken::LoopRange(start, end) => {
                if self.in_loop {
                    if self.remaining == 0 {
                        let span = end.minus(start).to_count();
                        if span == usize::MAX {
                            return Err(EvaluationError::IterationOverflow);
                        }
                        if self.loop_start.is_none() {
                            self.loop_start = Some(position);
                        }
                        self.accumulator = start;
                        self.remaining = span + 1;
                    } else {
                        self.remaining = 0;
                        self.loop_start = None;
                        self.in_loop = false;
                    }
                }
            },
            EmojiToken::LoopEnd => {
                if self.remaining > 0 {
                    self.remaining = self.remaining - 1;
                    if let Some(start) = self.loop_start {
                        next = start;
                    }
                } else {
                    self.loop_start = None;
                    self.in_loop = false;
                }
            },
            EmojiToken::FunctionStart(_) => {},
            EmojiToken::FunctionEnd => {},
            EmojiToken::FunctionCall(name) => {
                self.call = Some(name);
            },
        }
        Ok(next)
    }
}

/// The whole state of a pass.
pub struct Machine {
    pub registers: Registers,
    /// The index of the token that is read next.
    pub position: usize,
    /// The name of the function that is being defined, if one is.
    pub capturing: Option<char>,
    /// The tokens of that function's body so far.
    pub captured: Seq<EmojiToken>,
    /// The bodies of the functions defined so far, by name.
    pub functions: Map<char, Seq<EmojiToken>>,
}

impl Machine {
    /// The machine at the start of a pass that reads from `position` on.
    pub open spec fn start(position: usize, functions: Map<char, Seq<EmojiToken>>) -> Machine {
        Machine {
            registers: Registers::initial(),
            position,
            capturing: None,
            captured: Seq::empty(),
            functions,
        }
    }

    /// The machine after it has taken `token` at its position.
    ///
    /// Inside a function definition every token but the one that ends it is
    /// added to the body and has no other effect: a second function start is
    /// a token of the body like any other. The end stores the body under
    /// the function's name.
    pub open spec fn step(
        self,
        token: EmojiToken,
        variables: Map<char, Number>,
    ) -> Result<Machine, EvaluationError> {
        if self.capturing is Some {
            if token == EmojiToken::FunctionEnd {
                Ok(
                    Machine {
                        position: (self.position + 1) as usize,
                        capturing: None,
                        captured: Seq::empty(),
                        functions: self.functions.insert(self.capturing->0, self.captured),
                        ..self
                    },
                )
            } else {
                Ok(
                    Machine {
                        position: (self.position + 1) as usize,
                        captured: self.captured.push(token),
                        ..self
                    },
                )
            }
        } else if token is FunctionStart {
            Ok(
                Machine {
                    position: (self.position + 1) as usize,
                    capturing: Some(token->FunctionStart_0),
                    captured: Seq::empty(),
                    ..self
                },
            )
        } else {
            match self.registers.after(token, self.position, variables) {
                Ok(registers) => Ok(
                    Machine {
                        registers,
                        position: self.registers.destination(token, self.position),
                        ..self
                    },
                ),
                Err(e) => Err(e),
            }
        }
    }
}

/// How a pass ended.
pub struct Halt {
    /// The machine where the pass ended. After a step that failed, the
    /// token that it failed on counts as read.
    pub machine: Machine,
    /// What is left of the budget.
    pub fuel: nat,
    /// Why the pass did not reach the end of the tokens, if it did not.
    pub error: Option<EvaluationError>,
}

/// Runs a pass from `machine` on, with a budget of `fuel` steps.
///
/// The pass ends without an error where the position is outside the tokens.
/// Each token that is read costs one step, also when a loop reads it again.
pub open spec fn run(
    tokens: Seq<EmojiToken>,
    variables: Map<char, Number>,
    machine: Machine,
    fuel: nat,
) -> Halt
    decreases fuel,
{
    if machine.position >= tokens.len() {
        Halt { machine, fuel, error: None }
    } else if fuel == 0 {
        Halt { machine, fuel, error: Some(EvaluationError::StepLimit) }
    } else {
        match machine.step(tokens[machine.position as int], variables) {
            Ok(next) => run(tokens, variables, next, (fuel - 1) as nat),
            Err(e) => Halt {
                machine: Machine { position: (machine.position + 1) as usize, ..machine },
                fuel: (fuel - 1) as nat,
                error: Some(e),
            },
        }
    }
}

/// A pass never ends with more fuel than it began with.
pub proof fn lemma_run_spends(
    tokens: Seq<EmojiToken>,
    variables: Map<char, Number>,
    machine: Machine,
    fuel: nat,
)
    ensures
        run(tokens, variables, machine, fuel).fuel <= fuel,
    decreases fuel,
{
    if machine.position < tokens.len() && fuel > 0 {
        let step = machine.step(tokens[machine.position as int], variables);
        if step is Ok {
            lemma_run_spends(tokens, variables, step->Ok_0, (fuel - 1) as nat);
        }
    }
}

} // verus!
