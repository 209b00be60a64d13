//! How literals and ranges are read.

use crate::error::{EvaluationError, RangePart};
use crate::lexer::{
    fault, in_literal, is_numeral, keyword, lemma_literal_length_is, lemma_run_push, lex, lexeme,
    literal_length, literal_text, literal_value, range_form, range_lexeme, toggles,
    without_toggles, Lexeme,
};
use crate::number::{is_digit, Number};
use crate::script::program_result;
use crate::token::{
    EmojiToken, GLYPH_DECIMAL_TOGGLE, GLYPH_FUNCTION_CALL, GLYPH_FUNCTION_START,
    GLYPH_LOOP_START,
};
use vstd::prelude::*;

verus! {

/// An empty run has no characters to keep and no toggles.
proof fn lemma_empty_run()
    ensures
        without_toggles(Seq::<char>::empty()) == Seq::<char>::empty(),
        toggles(Seq::<char>::empty()) == 0,
{
}

/// A run without toggles is read as it stands.
proof fn lemma_run_without_toggles(run: Seq<char>)
    requires
        forall|i: int| 0 <= i < run.len() ==> #[trigger] run[i] != GLYPH_DECIMAL_TOGGLE,
    ensures
        without_toggles(run) == run,
        toggles(run) == 0,
        literal_text(run) == run,
    decreases run.len(),
{
    if run.len() > 0 {
        lemma_run_without_toggles(run.drop_last());
        lemma_run_push(run.drop_last(), run.last());
        assert(run.drop_last().push(run.last()) =~= run);
    } else {
        lemma_empty_run();
        assert(run =~= Seq::<char>::empty());
    }
}

/// A toggle by itself leaves nothing to read and the flag on.
proof fn lemma_lone_toggle()
    ensures
        without_toggles(seq![GLYPH_DECIMAL_TOGGLE]) == Seq::<char>::empty(),
        toggles(seq![GLYPH_DECIMAL_TOGGLE]) == 1,
{
    lemma_empty_run();
    lemma_run_push(Seq::empty(), GLYPH_DECIMAL_TOGGLE);
    assert(Seq::<char>::empty().push(GLYPH_DECIMAL_TOGGLE) =~= seq![GLYPH_DECIMAL_TOGGLE]);
}

/// A run of digits behind one toggle loses the toggle and leaves the flag on.
proof fn lemma_toggle_then_digits(digits: Seq<char>)
    requires
        forall|i: int| 0 <= i < digits.len() ==> is_digit(#[trigger] digits[i]),
    ensures
        without_toggles(seq![GLYPH_DECIMAL_TOGGLE] + digits) == digits,
        toggles(seq![GLYPH_DECIMAL_TOGGLE] + digits) == 1,
    decreases digits.len(),
{
    let run = seq![GLYPH_DECIMAL_TOGGLE] + digits;
    if digits.len() == 0 {
        lemma_lone_toggle();
        assert(run =~= seq![GLYPH_DECIMAL_TOGGLE]);
        assert(digits =~= Seq::<char>::empty());
    } else {
        let shorter = digits.drop_last();
        lemma_toggle_then_digits(shorter);
        assert(is_digit(digits[digits.len() - 1]));
        lemma_run_push(seq![GLYPH_DECIMAL_TOGGLE] + shorter, digits.last());
        assert((seq![GLYPH_DECIMAL_TOGGLE] + shorter).push(digits.last()) =~= run);
        assert(shorter.push(digits.last()) =~= digits);
    }
}

/// A run of literal characters in front of a text that starts with another
/// character, or that is empty, is the longest run that the whole starts with.
proof fn lemma_literal_split(run: Seq<char>, rest: Seq<char>)
    requires
        forall|i: int| 0 <= i < run.len() ==> in_literal(#[trigger] run[i]),
        rest.len() == 0 || !in_literal(rest[0]),
    ensures
        literal_length(run + rest) == run.len(),
        (run + rest).take(run.len() as int) == run,
        (run + rest).skip(run.len() as int) == rest,
{
    let text = run + rest;
    assert forall|i: int| 0 <= i < run.len() implies in_literal(#[trigger] text[i]) by {
        assert(text[i] == run[i]);
    }
    if rest.len() > 0 {
        assert(text[run.len() as int] == rest[0]);
    }
    lemma_literal_length_is(text, run.len());
    assert(text.take(run.len() as int) =~= run);
    assert(text.skip(run.len() as int) =~= rest);
}

/// A text that starts with a run of literal characters, which ends the text
/// or which another character follows, starts with the number of that run.
proof fn lemma_literal_lexeme(run: Seq<char>, rest: Seq<char>)
    requires
        run.len() > 0,
        forall|i: int| 0 <= i < run.len() ==> in_literal(#[trigger] run[i]),
        rest.len() == 0 || !in_literal(rest[0]),
    ensures
        (run + rest).skip(run.len() as int) == rest,
        lexeme(run + rest) == match literal_value(run) {
            Ok(n) => Ok::<Lexeme, EvaluationError>(
                Lexeme { token: EmojiToken::Number(n), length: run.len() },
            ),
            Err(e) => Err::<Lexeme, EvaluationError>(e),
        },
{
    lemma_literal_split(run, rest);
    assert((run + rest)[0] == run[0]);
}

/// A text that is read as a number is a run of literal characters without
/// toggles, and its value as a literal is that number.
pub proof fn lemma_plain_decimal(text: Seq<char>)
    requires
        Number::read(text) is Some,
    ensures
        text.len() > 0,
        forall|i: int| 0 <= i < text.len() ==> in_literal(#[trigger] text[i]),
        literal_value(text) == Ok::<Number, EvaluationError>(Number::read(text)->0),
        Number::read(text)->0.is_kept_by_zero(),
{
    assert forall|i: int| 0 <= i < text.len() implies #[trigger] text[i]
        != GLYPH_DECIMAL_TOGGLE by {
        assert(is_digit(text[i]) || text[i] == '.');
    }
    lemma_run_without_toggles(text);
}

/// The value of a run of digits between two toggles is that of the digits.
proof fn lemma_value_between_toggles(digits: Seq<char>)
    requires
        forall|i: int| 0 <= i < digits.len() ==> is_digit(#[trigger] digits[i]),
    ensures
        literal_value(seq![GLYPH_DECIMAL_TOGGLE] + digits + seq![GLYPH_DECIMAL_TOGGLE])
            == literal_value(digits),
{
    let opened = seq![GLYPH_DECIMAL_TOGGLE] + digits;
    lemma_toggle_then_digits(digits);
    lemma_run_push(opened, GLYPH_DECIMAL_TOGGLE);
    assert(opened.push(GLYPH_DECIMAL_TOGGLE) =~= opened + seq![GLYPH_DECIMAL_TOGGLE]);
    assert forall|i: int| 0 <= i < digits.len() implies #[trigger] digits[i]
        != GLYPH_DECIMAL_TOGGLE by {
        assert(is_digit(digits[i]));
    }
    lemma_run_without_toggles(digits);
}

/// The value of a run of digits behind one toggle is that of the digits
/// behind a `0`.
proof fn lemma_value_behind_toggle(digits: Seq<char>)
    requires
        forall|i: int| 0 <= i < digits.len() ==> is_digit(#[trigger] digits[i]),
    ensures
        literal_value(seq![GLYPH_DECIMAL_TOGGLE] + digits) == literal_value(seq!['0'] + digits),
{
    let text = seq!['0'] + digits;
    lemma_toggle_then_digits(digits);
    assert forall|i: int| 0 <= i < text.len() implies #[trigger] text[i]
        != GLYPH_DECIMAL_TOGGLE by {
        if i > 0 {
            assert(text[i] == digits[i - 1]);
            assert(is_digit(digits[i - 1]));
        }
    }
    lemma_run_without_toggles(text);
}

/// The empty text has no tokens.
pub proof fn lemma_lex_nothing()
    ensures
        lex(Seq::<char>::empty()) == Ok::<Seq<EmojiToken>, EvaluationError>(Seq::empty()),
{
}

/// A run of literal characters in front of a text that starts with another
/// character, or that is empty, is one number in front of that text's tokens.
pub proof fn lemma_lex_literal_then(
    run: Seq<char>,
    value: Number,
    rest: Seq<char>,
    more: Seq<EmojiToken>,
)
    requires
        run.len() > 0,
        forall|i: int| 0 <= i < run.len() ==> in_literal(#[trigger] run[i]),
        literal_value(run) == Ok::<Number, EvaluationError>(value),
        rest.len() == 0 || !in_literal(rest[0]),
        lex(rest) == Ok::<Seq<EmojiToken>, EvaluationError>(more),
    ensures
        lex(run + rest) == Ok::<Seq<EmojiToken>, EvaluationError>(
            seq![EmojiToken::Number(value)] + more,
        ),
{
    lemma_literal_lexeme(run, rest);
}

/// A keyword glyph in front of a text is its token in front of that text's
/// tokens.
pub proof fn lemma_lex_keyword_then(c: char, rest: Seq<char>, more: Seq<EmojiToken>)
    requires
        keyword(c) is Some,
        lex(rest) == Ok::<Seq<EmojiToken>, EvaluationError>(more),
    ensures
        lex(seq![c] + rest) == Ok::<Seq<EmojiToken>, EvaluationError>(
            seq![keyword(c)->0] + more,
        ),
{
    let text = seq![c] + rest;
    assert(text[0] == c);
    assert(text.skip(1) =~= rest);
}

/// A function glyph and a name in front of a text are one token in front
/// of that text's tokens.
pub proof fn lemma_lex_function_then(
    glyph: char,
    name: char,
    rest: Seq<char>,
    more: Seq<EmojiToken>,
)
    requires
        glyph == GLYPH_FUNCTION_START || glyph == GLYPH_FUNCTION_CALL,
        lex(rest) == Ok::<Seq<EmojiToken>, EvaluationError>(more),
    ensures
        lex(seq![glyph, name] + rest) == Ok::<Seq<EmojiToken>, EvaluationError>(
            seq![
                if glyph == GLYPH_FUNCTION_START {
                    EmojiToken::FunctionStart(name)
                } else {
                    EmojiToken::FunctionCall(name)
                },
            ] + more,
        ),
{
    let text = seq![glyph, name] + rest;
    assert(text[0] == glyph && text[1] == name);
    assert(text.skip(2) =~= rest);
}

/// A text that is one run of literal characters is one number, or the
/// error of that literal.
pub proof fn lemma_lone_literal(run: Seq<char>)
    requires
        run.len() > 0,
        forall|i: int| 0 <= i < run.len() ==> in_literal(#[trigger] run[i]),
    ensures
        lex(run) == match literal_value(run) {
            Ok(n) => Ok::<Seq<EmojiToken>, EvaluationError>(seq![EmojiToken::Number(n)]),
            Err(e) => Err::<Seq<EmojiToken>, EvaluationError>(e),
        },
{
    lemma_lex_nothing();
    lemma_literal_lexeme(run, Seq::empty());
    assert(run + Seq::<char>::empty() =~= run);
    if literal_value(run) is Ok {
        let token = EmojiToken::Number(literal_value(run)->Ok_0);
        assert(seq![token] + Seq::<EmojiToken>::empty() =~= seq![token]);
    }
}

/// Digits between two toggles are read as the digits alone: the toggles are
/// dropped, the flag is off again at the end, and the value is that of the
/// whole number that the digits write. No fraction comes of it.
pub proof fn law_digits_between_toggles(digits: Seq<char>)
    requires
        digits.len() > 0,
        forall|i: int| 0 <= i < digits.len() ==> is_digit(#[trigger] digits[i]),
    ensures
        lex(seq![GLYPH_DECIMAL_TOGGLE] + digits + seq![GLYPH_DECIMAL_TOGGLE]) == lex(digits),
        lex(digits) == match Number::read(digits) {
            Some(n) => Ok::<Seq<EmojiToken>, EvaluationError>(seq![EmojiToken::Number(n)]),
            None => Err::<Seq<EmojiToken>, EvaluationError>(
                EvaluationError::MalformedNumberLiteral,
            ),
        },
{
    let run = seq![GLYPH_DECIMAL_TOGGLE] + digits + seq![GLYPH_DECIMAL_TOGGLE];
    lemma_value_between_toggles(digits);
    assert forall|i: int| 0 <= i < run.len() implies in_literal(#[trigger] run[i]) by {
        if 0 < i < run.len() - 1 {
            assert(run[i] == digits[i - 1]);
        }
    }
    lemma_lone_literal(run);
    lemma_lone_literal(digits);
    assert forall|i: int| 0 <= i < digits.len() implies #[trigger] digits[i]
        != GLYPH_DECIMAL_TOGGLE by {
        assert(is_digit(digits[i]));
    }
    lemma_run_without_toggles(digits);
}

/// Digits behind one toggle are read with a `0` in front: the flag is
/// left on.
pub proof fn law_digits_behind_toggle(digits: Seq<char>)
    requires
        forall|i: int| 0 <= i < digits.len() ==> is_digit(#[trigger] digits[i]),
    ensures
        lex(seq![GLYPH_DECIMAL_TOGGLE] + digits) == lex(seq!['0'] + digits),
{
    let run = seq![GLYPH_DECIMAL_TOGGLE] + digits;
    let text = seq!['0'] + digits;
    lemma_value_behind_toggle(digits);
    assert forall|i: int| 0 <= i < run.len() implies in_literal(#[trigger] run[i]) by {
        if i > 0 {
            assert(run[i] == digits[i - 1]);
        }
    }
    assert forall|i: int| 0 <= i < text.len() implies in_literal(#[trigger] text[i]) by {
        if i > 0 {
            assert(text[i] == digits[i - 1]);
        }
    }
    lemma_lone_literal(run);
    lemma_lone_literal(text);
}

/// What follows the opening bracket of a range that is not closed is no
/// range.
proof fn lemma_range_unclosed(start: Seq<char>, end: Seq<char>, rest: Seq<char>)
    requires
        forall|i: int| 0 <= i < start.len() ==> in_literal(#[trigger] start[i]),
        forall|i: int| 0 <= i < end.len() ==> in_literal(#[trigger] end[i]),
        rest.len() == 0 || (rest[0] != ']' && !in_literal(rest[0])),
    ensures
        range_lexeme(start + (seq![GLYPH_LOOP_START] + (end + rest))) is Err,
        start.len() > 0 && end.len() > 0 && literal_value(start) is Ok && literal_value(end) is Ok
            ==> range_lexeme(start + (seq![GLYPH_LOOP_START] + (end + rest))) == Err::<
            Lexeme,
            EvaluationError,
        >(EvaluationError::UnterminatedLoopRange(RangePart::Close)),
{
    let tail = end + rest;
    let middle = seq![GLYPH_LOOP_START] + tail;
    assert(middle[0] == GLYPH_LOOP_START);
    assert(middle.skip(1) =~= tail);
    lemma_literal_split(start, middle);
    lemma_literal_split(end, rest);
}

/// A range that is not closed is an error, and so is the program: where
/// the character behind the second number of a range is no closing bracket,
/// or the text ends there, no tokens come of it. Where both numbers are
/// well formed, the error names the closing bracket.
pub proof fn law_unclosed_range(start: Seq<char>, end: Seq<char>, rest: Seq<char>, fuel: nat)
    requires
        forall|i: int| 0 <= i < start.len() ==> in_literal(#[trigger] start[i]),
        forall|i: int| 0 <= i < end.len() ==> in_literal(#[trigger] end[i]),
        rest.len() == 0 || (rest[0] != ']' && !in_literal(rest[0])),
    ensures
        lex(seq!['['] + start + seq![GLYPH_LOOP_START] + end + rest) is Err,
        program_result(seq!['['] + start + seq![GLYPH_LOOP_START] + end + rest, fuel) is Err,
        start.len() > 0 && end.len() > 0 && literal_value(start) is Ok && literal_value(end) is Ok
            ==> lex(seq!['['] + start + seq![GLYPH_LOOP_START] + end + rest) == Err::<
            Seq<EmojiToken>,
            EvaluationError,
        >(EvaluationError::UnterminatedLoopRange(RangePart::Close)),
{
    let source = seq!['['] + start + seq![GLYPH_LOOP_START] + end + rest;
    let inner = start + (seq![GLYPH_LOOP_START] + (end + rest));
    lemma_range_unclosed(start, end, rest);
    assert(source.drop_first() =~= inner);
    assert(source[0] == '[');
}

/// The part that a range which is not closed is reported to lack: the
/// first of its two numbers that is missing or malformed, and else the
/// closing bracket.
pub open spec fn unclosed_error(start: Seq<char>, end: Seq<char>) -> EvaluationError {
    if start.len() == 0 {
        EvaluationError::UnterminatedLoopRange(RangePart::Start)
    } else if !is_numeral(start) {
        EvaluationError::MalformedNumberLiteral
    } else if end.len() == 0 {
        EvaluationError::UnterminatedLoopRange(RangePart::End)
    } else if !is_numeral(end) {
        EvaluationError::MalformedNumberLiteral
    } else {
        EvaluationError::UnterminatedLoopRange(RangePart::Close)
    }
}

/// What follows the opening bracket of a range that is not closed has, by
/// its form, the error of that range.
proof fn lemma_range_unclosed_form(start: Seq<char>, end: Seq<char>, rest: Seq<char>)
    requires
        forall|i: int| 0 <= i < start.len() ==> in_literal(#[trigger] start[i]),
        forall|i: int| 0 <= i < end.len() ==> in_literal(#[trigger] end[i]),
        rest.len() == 0 || (rest[0] != ']' && !in_literal(rest[0])),
    ensures
        range_form(start + (seq![GLYPH_LOOP_START] + (end + rest))) == Err::<
            nat,
            EvaluationError,
        >(unclosed_error(start, end)),
{
    let tail = end + rest;
    let middle = seq![GLYPH_LOOP_START] + tail;
    assert(middle[0] == GLYPH_LOOP_START);
    assert(middle.skip(1) =~= tail);
    lemma_literal_split(start, middle);
    lemma_literal_split(end, rest);
}

/// Which error a range that is not closed is, by the form of the text alone:
/// where both numbers are numerals, it names the closing bracket. This is
/// the error that reading the text gives.
pub proof fn law_unclosed_range_error(start: Seq<char>, end: Seq<char>, rest: Seq<char>)
    requires
        forall|i: int| 0 <= i < start.len() ==> in_literal(#[trigger] start[i]),
        forall|i: int| 0 <= i < end.len() ==> in_literal(#[trigger] end[i]),
        rest.len() == 0 || (rest[0] != ']' && !in_literal(rest[0])),
    ensures
        fault(seq!['['] + start + seq![GLYPH_LOOP_START] + end + rest) == Some(
            unclosed_error(start, end),
        ),
{
    let source = seq!['['] + start + seq![GLYPH_LOOP_START] + end + rest;
    let inner = start + (seq![GLYPH_LOOP_START] + (end + rest));
    lemma_range_unclosed_form(start, end, rest);
    assert(source.drop_first() =~= inner);
    assert(source[0] == '[');
}

} // verus!
