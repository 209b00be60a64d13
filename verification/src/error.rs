//! The ways in which reading or running a program fails.

use vstd::prelude::*;

verus! {

/// The part of a bracketed range that was looked for and not found.
#[derive(Clone, Copy, Debug, PartialEq, Eq, Structural)]
pub enum RangePart {
    /// The number after the opening bracket.
    Start,
    /// The loop glyph between the two numbers.
    Separator,
    /// The number after the loop glyph.
    End,
    /// The closing bracket.
    Close,
}

/// Why a program has no result.
#[derive(Clone, Copy, Debug, PartialEq, Eq, Structural)]
pub enum EvaluationError {
    /// A run of digits, points and toggles that is no decimal numeral.
    MalformedNumberLiteral,
    /// A bracketed range that lacks the named part.
    UnterminatedLoopRange(RangePart),
    /// A function glyph at the very end of the program.
    MissingFunctionName,
    /// A call of a function that was never defined.
    UndefinedFunction(char),
    /// A range whose number of iterations does not fit in a `usize`.
    IterationOverflow,
    /// The step budget ran out before the program ended.
    StepLimit,
}

} // verus!
