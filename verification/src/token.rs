//! The tokens of the language and the glyphs that stand for them.

use crate::number::Number;
use vstd::prelude::*;

verus! {

/// The glyph for addition: a slightly smiling face.
pub const GLYPH_ADD: char = '\u{1F642}';

/// The glyph for subtraction: a crying face.
pub const GLYPH_SUBTRACT: char = '\u{1F622}';

/// The glyph for multiplication: a face with tears of joy.
pub const GLYPH_TIMES: char = '\u{1F602}';

/// The glyph for division: a thinking face.
pub const GLYPH_DIVISION: char = '\u{1F914}';

/// The glyph that opens a conditional: a confused face.
pub const GLYPH_IF: char = '\u{1F615}';

/// The glyph that follows the condition: a grinning face with smiling eyes.
pub const GLYPH_THEN: char = '\u{1F604}';

/// The glyph that switches to the other branch: a disappointed face.
pub const GLYPH_ELSE: char = '\u{1F61E}';

/// The glyph that marks an assignment: the input symbol for latin letters.
pub const GLYPH_ASSIGN: char = '\u{1F524}';

/// The glyph that starts a loop, and that parts the two ends of a range:
/// the repeat arrows.
pub const GLYPH_LOOP_START: char = '\u{1F501}';

/// The glyph that ends a loop: the end arrow.
pub const GLYPH_LOOP_END: char = '\u{1F51A}';

/// The glyph that starts a function definition: a chequered flag.
pub const GLYPH_FUNCTION_START: char = '\u{1F3C1}';

/// The glyph that ends a function definition: a triangular flag on a post.
pub const GLYPH_FUNCTION_END: char = '\u{1F6A9}';

/// The glyph that calls a function: a telephone receiver.
pub const GLYPH_FUNCTION_CALL: char = '\u{1F4DE}';

/// The glyph that flips the decimal flag inside a number: a speech bubble.
pub const GLYPH_DECIMAL_TOGGLE: char = '\u{1F5E8}';

/// One token of a program.
#[derive(Clone, Copy, Debug, PartialEq, Eq, Structural)]
pub enum EmojiToken {
    /// A numeric literal.
    Number(Number),
    Add,
    Subtract,
    Times,
    Division,
    If,
    Then,
    Else,
    /// Clears both branch flags. No glyph stands for it.
    EndIf,
    /// Any character that the language does not reserve.
    Variable(char),
    Assign,
    LoopStart,
    LoopEnd,
    /// The two ends of a bracketed range.
    LoopRange(Number, Number),
    /// Starts the definition of the function with this name.
    FunctionStart(char),
    FunctionEnd,
    /// Asks for a call of the function with this name.
    FunctionCall(char),
}

/// The operator that combines the accumulator with the next operand.
#[derive(Clone, Copy, Debug, PartialEq, Eq, Structural)]
pub enum Operator {
    Add,
    Subtract,
    Times,
    Division,
}

impl Operator {
    /// What the operator makes of two numbers.
    pub open spec fn applied(self, left: Number, right: Number) -> Number {
        match self {
            Operator::Add => left.sum(right),
            Operator::Subtract => left.difference(right),
            Operator::Times => left.product(right),
            Operator::Division => left.quotient(right),
        }
    }

    /// Combines two numbers. Division by zero is not an error: it gives an
    /// infinity or a NaN.
    pub fn apply(self, left: Number, right: Number) -> (r: Number)
        ensures
            r == self.applied(left, right),
            self == Operator::Division && right.is_zero() ==> !r.is_finite(),
    {
        match self {
            Operator::Add => left.plus(right),
            Operator::Subtract => left.minus(right),
            Operator::Times => left.times(right),
            Operator::Division => left.over(right),
        }
    }
}

} // verus!
