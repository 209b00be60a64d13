//! From characters to tokens.
//!
//! [`lex`] says which tokens a text stands for, or why it stands for none.
//! [`PeekableChars::tokenize`] computes it.

use crate::error::{EvaluationError, RangePart};
use crate::number::{is_decimal, is_digit, Number, MAX_DECIMAL_LENGTH};
use crate::scanner::PeekableChars;
use crate::token::{
    EmojiToken, GLYPH_ADD, GLYPH_ASSIGN, GLYPH_DECIMAL_TOGGLE, GLYPH_DIVISION, GLYPH_ELSE,
    GLYPH_FUNCTION_CALL, GLYPH_FUNCTION_END, GLYPH_FUNCTION_START, GLYPH_IF, GLYPH_LOOP_END,
    GLYPH_LOOP_START, GLYPH_SUBTRACT, GLYPH_THEN, GLYPH_TIMES,
};
use vstd::prelude::*;

verus! {

/// A token together with the number of characters that it was read from.
pub struct Lexeme {
    pub token: EmojiToken,
    pub length: nat,
}

/// Whether `c` can stand in a numeric literal: a digit, the point or the
/// decimal toggle.
pub open spec fn in_literal(c: char) -> bool {
    is_digit(c) || c == '.' || c == GLYPH_DECIMAL_TOGGLE
}

/// The length of the longest run of literal characters that `s` starts with.
pub open spec fn literal_length(s: Seq<char>) -> nat
    decreases s.len(),
{
    if s.len() > 0 && in_literal(s[0]) {
        1 + literal_length(s.drop_first())
    } else {
        0
    }
}

/// The characters of a run without its toggles, in their order.
pub open spec fn without_toggles(run: Seq<char>) -> Seq<char>
    decreases run.len(),
{
    if run.len() == 0 {
        Seq::empty()
    } else if run.last() == GLYPH_DECIMAL_TOGGLE {
        without_toggles(run.drop_last())
    } else {
        without_toggles(run.drop_last()).push(run.last())
    }
}

/// The number of toggles in a run.
pub open spec fn toggles(run: Seq<char>) -> nat
    decreases run.len(),
{
    if run.len() == 0 {
        0
    } else if run.last() == GLYPH_DECIMAL_TOGGLE {
        toggles(run.drop_last()) + 1
    } else {
        toggles(run.drop_last())
    }
}

/// Whether the decimal flag is left on after a run: each toggle flips it.
pub open spec fn toggled(run: Seq<char>) -> bool {
    toggles(run) % 2 == 1
}

/// The text that a run of literal characters is read as: the run without its
/// toggles, behind a `0` where the decimal flag is left on.
pub open spec fn literal_text(run: Seq<char>) -> Seq<char> {
    if toggled(run) {
        seq!['0'] + without_toggles(run)
    } else {
        without_toggles(run)
    }
}

/// Whether a run of literal characters writes a numeral: without its
/// toggles, and behind the `0` that an open flag puts in front, it is a
/// decimal numeral of a length that is read.
pub open spec fn is_numeral(run: Seq<char>) -> bool {
    is_decimal(literal_text(run)) && literal_text(run).len() <= MAX_DECIMAL_LENGTH
}

/// The number that a run of literal characters stands for.
pub open spec fn literal_value(run: Seq<char>) -> Result<Number, EvaluationError> {
    match Number::read(literal_text(run)) {
        Some(n) => Ok(n),
        None => Err(EvaluationError::MalformedNumberLiteral),
    }
}

/// The range that `s` starts with, where `s` is what follows an opening
/// bracket: a number, the loop glyph, a second number and the closing
/// bracket. The length counts these and not the opening bracket.
pub open spec fn range_lexeme(s: Seq<char>) -> Result<Lexeme, EvaluationError> {
    let first = literal_length(s);
    let middle = s.skip(first as int);
    let tail = middle.skip(1);
    let second = literal_length(tail);
    let rest = tail.skip(second as int);
    if first == 0 {
        Err(EvaluationError::UnterminatedLoopRange(RangePart::Start))
    } else {
        match literal_value(s.take(first as int)) {
            Err(e) => Err(e),
            Ok(start) => if middle.len() == 0 || middle[0] != GLYPH_LOOP_START {
                Err(EvaluationError::UnterminatedLoopRange(RangePart::Separator))
            } else if second == 0 {
                Err(EvaluationError::UnterminatedLoopRange(RangePart::End))
            } else {
                match literal_value(tail.take(second as int)) {
                    Err(e) => Err(e),
                    Ok(end) => if rest.len() == 0 || rest[0] != ']' {
                        Err(EvaluationError::UnterminatedLoopRange(RangePart::Close))
                    } else {
                        Ok(
                            Lexeme {
                                token: EmojiToken::LoopRange(start, end),
                                length: first + 1 + second + 1,
                            },
                        )
                    },
                }
            },
        }
    }
}

/// The token that a glyph stands for by itself, if it is one of the ten
/// operator and keyword glyphs or the glyph that ends a function.
pub open spec fn keyword(c: char) -> Option<EmojiToken> {
    if c == GLYPH_ADD {
        Some(EmojiToken::Add)
    } else if c == GLYPH_SUBTRACT {
        Some(EmojiToken::Subtract)
    } else if c == GLYPH_TIMES {
        Some(EmojiToken::Times)
    } else if c == GLYPH_DIVISION {
        Some(EmojiToken::Division)
    } else if c == GLYPH_IF {
        Some(EmojiToken::If)
    } else if c == GLYPH_THEN {
        Some(EmojiToken::Then)
    } else if c == GLYPH_ELSE {
        Some(EmojiToken::Else)
    } else if c == GLYPH_ASSIGN {
        Some(EmojiToken::Assign)
    } else if c == GLYPH_LOOP_START {
        Some(EmojiToken::LoopStart)
    } else if c == GLYPH_LOOP_END {
        Some(EmojiToken::LoopEnd)
    } else if c == GLYPH_FUNCTION_END {
        Some(EmojiToken::FunctionEnd)
    } else {
        None
    }
}

/// The first token of a text that is not empty.
///
/// A keyword glyph is its token. A function glyph takes the next character,
/// whatever it is, as the name. An opening bracket starts a range. A literal
/// character starts a number, which runs as far as literal characters go.
/// Every other character is a variable of that name.
pub open spec fn lexeme(s: Seq<char>) -> Result<Lexeme, EvaluationError>
    recommends
        s.len() > 0,
{
    let c = s[0];
    if keyword(c) is Some {
        Ok(Lexeme { token: keyword(c)->0, length: 1 })
    } else if c == GLYPH_FUNCTION_START {
        if s.len() < 2 {
            Err(EvaluationError::MissingFunctionName)
        } else {
            Ok(Lexeme { token: EmojiToken::FunctionStart(s[1]), length: 2 })
        }
    } else if c == GLYPH_FUNCTION_CALL {
        if s.len() < 2 {
            Err(EvaluationError::MissingFunctionName)
        } else {
            Ok(Lexeme { token: EmojiToken::FunctionCall(s[1]), length: 2 })
        }
    } else if c == '[' {
        match range_lexeme(s.drop_first()) {
            Ok(range) => Ok(Lexeme { token: range.token, length: range.length + 1 }),
            Err(e) => Err(e),
        }
    } else if in_literal(c) {
        match literal_value(s.take(literal_length(s) as int)) {
            Ok(n) => Ok(Lexeme { token: EmojiToken::Number(n), length: literal_length(s) }),
            Err(e) => Err(e),
        }
    } else {
        Ok(Lexeme { token: EmojiToken::Variable(c), length: 1 })
    }
}

/// `tokens` in front of what `rest` holds, or the error that `rest` is.
pub open spec fn prefixed(
    tokens: Seq<EmojiToken>,
    rest: Result<Seq<EmojiToken>, EvaluationError>,
) -> Result<Seq<EmojiToken>, EvaluationError> {
    match rest {
        Ok(more) => Ok(tokens + more),
        Err(e) => Err(e),
    }
}

/// The tokens of a text, in order, or the first error met from the left.
pub open spec fn lex(s: Seq<char>) -> Result<Seq<EmojiToken>, EvaluationError>
    decreases s.len(),
    via lex_decreases
{
    if s.len() == 0 {
        Ok(Seq::empty())
    } else {
        match lexeme(s) {
            Err(e) => Err(e),
            Ok(first) => prefixed(seq![first.token], lex(s.skip(first.length as int))),
        }
    }
}

#[via_fn]
proof fn lex_decreases(s: Seq<char>) {
    if s.len() > 0 {
        lemma_lexeme_length(s);
    }
}

/// The number of characters of the range that `s` starts with, where `s`
/// is what follows an opening bracket, or what the range lacks, by the form
/// of the text alone: the value of no number is asked for.
pub open spec fn range_form(s: Seq<char>) -> Result<nat, EvaluationError> {
    let first = literal_length(s);
    let middle = s.skip(first as int);
    let tail = middle.skip(1);
    let second = literal_length(tail);
    let rest = tail.skip(second as int);
    if first == 0 {
        Err(EvaluationError::UnterminatedLoopRange(RangePart::Start))
    } else if !is_numeral(s.take(first as int)) {
        Err(EvaluationError::MalformedNumberLiteral)
    } else if middle.len() == 0 || middle[0] != GLYPH_LOOP_START {
        Err(EvaluationError::UnterminatedLoopRange(RangePart::Separator))
    } else if second == 0 {
        Err(EvaluationError::UnterminatedLoopRange(RangePart::End))
    } else if !is_numeral(tail.take(second as int)) {
        Err(EvaluationError::MalformedNumberLiteral)
    } else if rest.len() == 0 || rest[0] != ']' {
        Err(EvaluationError::UnterminatedLoopRange(RangePart::Close))
    } else {
        Ok(first + 1 + second + 1)
    }
}

/// The number of characters of the first token of a text that is not
/// empty, or the error of that token, by the form of the text alone.
pub open spec fn lexeme_form(s: Seq<char>) -> Result<nat, EvaluationError>
    recommends
        s.len() > 0,
{
    let c = s[0];
    if keyword(c) is Some {
        Ok(1)
    } else if c == GLYPH_FUNCTION_START || c == GLYPH_FUNCTION_CALL {
        if s.len() < 2 {
            Err(EvaluationError::MissingFunctionName)
        } else {
            Ok(2)
        }
    } else if c == '[' {
        match range_form(s.drop_first()) {
            Ok(length) => Ok(length + 1),
            Err(e) => Err(e),
        }
    } else if in_literal(c) {
        if is_numeral(s.take(literal_length(s) as int)) {
            Ok(literal_length(s))
        } else {
            Err(EvaluationError::MalformedNumberLiteral)
        }
    } else {
        Ok(1)
    }
}

/// The first error of a text from the left, if it has one, by the form of
/// the text alone. A text without one has tokens.
pub open spec fn fault(s: Seq<char>) -> Option<EvaluationError>
    decreases s.len(),
    via fault_decreases
{
    if s.len() == 0 {
        None
    } else {
        match lexeme_form(s) {
            Err(e) => Some(e),
            Ok(length) => fault(s.skip(length as int)),
        }
    }
}

#[via_fn]
proof fn fault_decreases(s: Seq<char>) {
    if s.len() > 0 {
        lemma_form_length(s);
    }
}

/// Every token is read from at least one character, and from no more than
/// the text has.
pub proof fn lemma_form_length(s: Seq<char>)
    requires
        s.len() > 0,
    ensures
        lexeme_form(s) is Ok ==> 0 < lexeme_form(s)->Ok_0 <= s.len(),
{
    let c = s[0];
    if keyword(c) is Some {
    } else if c == GLYPH_FUNCTION_START || c == GLYPH_FUNCTION_CALL {
    } else if c == '[' {
        let t = s.drop_first();
        if range_form(t) is Ok {
            let first = literal_length(t);
            let tail = t.skip(first as int).skip(1);
            lemma_literal_length_bound(t);
            lemma_literal_length_bound(tail);
        }
    } else if in_literal(c) {
        lemma_literal_length_bound(s);
    }
}

/// A run of literal characters is no longer than the text it starts.
pub proof fn lemma_literal_length_bound(s: Seq<char>)
    ensures
        literal_length(s) <= s.len(),
        forall|i: int| 0 <= i < literal_length(s) ==> in_literal(#[trigger] s[i]),
        literal_length(s) < s.len() ==> !in_literal(s[literal_length(s) as int]),
    decreases s.len(),
{
    if s.len() > 0 && in_literal(s[0]) {
        let t = s.drop_first();
        lemma_literal_length_bound(t);
        assert forall|i: int| 0 <= i < literal_length(s) implies in_literal(#[trigger] s[i]) by {
            if i > 0 {
                assert(s[i] == t[i - 1]);
            }
        }
        if literal_length(s) < s.len() {
            assert(s[literal_length(s) as int] == t[literal_length(t) as int]);
        }
    }
}

/// A run of `k` literal characters that ends the text, or that a character
/// of another kind follows, is the longest one.
pub proof fn lemma_literal_length_is(s: Seq<char>, k: nat)
    requires
        k <= s.len(),
        forall|i: int| 0 <= i < k ==> in_literal(#[trigger] s[i]),
        k < s.len() ==> !in_literal(s[k as int]),
    ensures
        literal_length(s) == k,
    decreases k,
{
    if k > 0 {
        let t = s.drop_first();
        assert forall|i: int| 0 <= i < k - 1 implies in_literal(#[trigger] t[i]) by {
            assert(t[i] == s[i + 1]);
        }
        if k - 1 < t.len() {
            assert(t[k - 1] == s[k as int]);
        }
        lemma_literal_length_is(t, (k - 1) as nat);
    }
}

/// Every token is read from at least one character, and from no more than
/// the text has.
pub proof fn lemma_lexeme_length(s: Seq<char>)
    requires
        s.len() > 0,
    ensures
        lexeme(s) is Ok ==> 0 < lexeme(s)->Ok_0.length <= s.len(),
{
    let c = s[0];
    if keyword(c) is Some {
    } else if c == GLYPH_FUNCTION_START || c == GLYPH_FUNCTION_CALL {
    } else if c == '[' {
        let t = s.drop_first();
        if range_lexeme(t) is Ok {
            let first = literal_length(t);
            let middle = t.skip(first as int);
            let tail = middle.skip(1);
            let second = literal_length(tail);
            lemma_literal_length_bound(t);
            lemma_literal_length_bound(tail);
        }
    } else if in_literal(c) {
        lemma_literal_length_bound(s);
    }
}

/// What one more character does to a run read so far.
pub proof fn lemma_run_push(run: Seq<char>, c: char)
    ensures
        without_toggles(run.push(c)) == if c != GLYPH_DECIMAL_TOGGLE {
            without_toggles(run).push(c)
        } else {
            without_toggles(run)
        },
        toggles(run.push(c)) == if c == GLYPH_DECIMAL_TOGGLE {
            toggles(run) + 1
        } else {
            toggles(run)
        },
        toggled(run.push(c)) == if c == GLYPH_DECIMAL_TOGGLE {
            !toggled(run)
        } else {
            toggled(run)
        },
{
    assert(run.push(c).drop_last() =~= run);
}

impl PeekableChars {
    /// Reads the rest of a numeric literal whose first character, `first`,
    /// was taken already, and leaves the cursor behind the literal.
    fn literal(&mut self, first: char) -> (r: Result<Number, EvaluationError>)
        requires
            in_literal(first),
        ensures
            final(self).remaining() == old(self).remaining().skip(
                literal_length(old(self).remaining()) as int,
            ),
            r == literal_value(
                seq![first] + old(self).remaining().take(
                    literal_length(old(self).remaining()) as int,
                ),
            ),
            r is Ok <==> is_numeral(
                seq![first] + old(self).remaining().take(
                    literal_length(old(self).remaining()) as int,
                ),
            ),
    {
        let ghost s = self.remaining();
        let ghost mut k: nat = 0;
        let mut number: Vec<char> = Vec::new();
        let mut is_decimal = first == GLYPH_DECIMAL_TOGGLE;
        if !is_decimal {
            number.push(first);
        }
        proof {
            lemma_run_push(Seq::empty(), first);
            assert(Seq::<char>::empty().push(first) =~= seq![first]);
            assert(s.take(0) =~= Seq::<char>::empty());
            assert(seq![first] + s.take(0) =~= seq![first]);
            assert(s.skip(0) =~= s);
        }
        loop
            invariant
                k <= s.len(),
                self.remaining() == s.skip(k as int),
                forall|i: int| 0 <= i < k ==> in_literal(#[trigger] s[i]),
                number@ == without_toggles(seq![first] + s.take(k as int)),
                is_decimal == toggled(seq![first] + s.take(k as int)),
            ensures
                k == literal_length(s),
                self.remaining() == s.skip(k as int),
                number@ == without_toggles(seq![first] + s.take(k as int)),
                is_decimal == toggled(seq![first] + s.take(k as int)),
            decreases s.len() - k,
        {
            let c = match self.peek() {
                Some(next_ch) => *next_ch,
                None => {
                    proof {
                        lemma_literal_length_is(s, k);
                    }
                    break ;
                },
            };
            assert(c == s[k as int]);
            let is_toggle = c == GLYPH_DECIMAL_TOGGLE;
            if !(('0' <= c && c <= '9') || c == '.' || is_toggle) {
                proof {
                    lemma_literal_length_is(s, k);
                }
                break ;
            }
            proof {
                lemma_run_push(seq![first] + s.take(k as int), c);
                assert((seq![first] + s.take(k as int)).push(c) =~= seq![first] + s.take(
                    k as int + 1,
                ));
                assert(s.skip(k as int).drop_first() =~= s.skip(k as int + 1));
            }
            if is_toggle {
                is_decimal = !is_decimal;
            } else {
                number.push(c);
            }
            let _ = self.next();
            proof {
                k = k + 1;
            }
        }
        if is_decimal {
            number.insert(0, '0');
            assert(number@ =~= seq!['0'] + without_toggles(seq![first] + s.take(k as int)));
        }
        match Number::parse(&number) {
            Some(n) => Ok(n),
            None => Err(EvaluationError::MalformedNumberLiteral),
        }
    }

    /// Reads a number if the cursor stands at one, and nothing otherwise.
    fn number(&mut self) -> (r: Result<Option<Number>, EvaluationError>)
        ensures
            final(self).remaining() == old(self).remaining().skip(
                literal_length(old(self).remaining()) as int,
            ),
            literal_length(old(self).remaining()) == 0 ==> r == Ok::<
                Option<Number>,
                EvaluationError,
            >(None),
            literal_length(old(self).remaining()) > 0 ==> r == match literal_value(
                old(self).remaining().take(literal_length(old(self).remaining()) as int),
            ) {
                Ok(n) => Ok(Some(n)),
                Err(e) => Err(e),
            },
            literal_length(old(self).remaining()) > 0 ==> (r is Ok <==> is_numeral(
                old(self).remaining().take(literal_length(old(self).remaining()) as int),
            )),
    {
        let ghost s = self.remaining();
        let first = match self.peek() {
            Some(ch) => *ch,
            None => {
                assert(s.skip(0) =~= s);
                return Ok(None);
            },
        };
        if !(('0' <= first && first <= '9') || first == '.' || first == GLYPH_DECIMAL_TOGGLE) {
            assert(s.skip(0) =~= s);
            return Ok(None);
        }
        let _ = self.next();
        let ghost t = s.drop_first();
        proof {
            lemma_literal_length_bound(t);
            let n = literal_length(t);
            assert(seq![first] + t.take(n as int) =~= s.take(n as int + 1));
            assert(t.skip(n as int) =~= s.skip(n as int + 1));
        }
        match self.literal(first) {
            Ok(n) => Ok(Some(n)),
            Err(e) => Err(e),
        }
    }

    /// Reads a numeric literal if the cursor stands at one: a run of digits,
    /// points and decimal toggles, as long as it goes. Where the next
    /// character starts no literal, nothing is taken and there is no token.
    /// A run that writes a numeral is always read; every other run is a
    /// malformed literal.
    pub fn parse_number(&mut self) -> (r: Result<Option<EmojiToken>, EvaluationError>)
        ensures
            final(self).remaining() == old(self).remaining().skip(
                literal_length(old(self).remaining()) as int,
            ),
            literal_length(old(self).remaining()) == 0 ==> r == Ok::<
                Option<EmojiToken>,
                EvaluationError,
            >(None),
            literal_length(old(self).remaining()) > 0 ==> r == match literal_value(
                old(self).remaining().take(literal_length(old(self).remaining()) as int),
            ) {
                Ok(n) => Ok(Some(EmojiToken::Number(n))),
                Err(e) => Err(e),
            },
            literal_length(old(self).remaining()) > 0 ==> (r is Ok <==> is_numeral(
                old(self).remaining().take(literal_length(old(self).remaining()) as int),
            )),
    {
        match self.number() {
            Ok(Some(n)) => Ok(Some(EmojiToken::Number(n))),
            Ok(None) => Ok(None),
            Err(e) => Err(e),
        }
    }

    /// Reads what follows an opening bracket: a number, the loop glyph, a
    /// second number and the closing bracket.
    fn range(&mut self) -> (r: Result<EmojiToken, EvaluationError>)
        ensures
            match range_lexeme(old(self).remaining()) {
                Ok(found) => r == Ok::<EmojiToken, EvaluationError>(found.token)
                    && final(self).remaining() == old(self).remaining().skip(found.length as int),
                Err(e) => r == Err::<EmojiToken, EvaluationError>(e),
            },
            match range_form(old(self).remaining()) {
                Ok(length) => r is Ok && final(self).remaining() == old(self).remaining().skip(
                    length as int,
                ),
                Err(e) => r == Err::<EmojiToken, EvaluationError>(e),
            },
    {
        let ghost s = self.remaining();
        let ghost first = literal_length(s);
        let ghost middle = s.skip(first as int);
        let ghost tail = middle.skip(1);
        let ghost second = literal_length(tail);
        let ghost rest = tail.skip(second as int);
        proof {
            lemma_literal_length_bound(s);
            lemma_literal_length_bound(tail);
        }
        let start = match self.number() {
            Err(e) => {
                return Err(e);
            },
            Ok(None) => {
                return Err(EvaluationError::UnterminatedLoopRange(RangePart::Start));
            },
            Ok(Some(n)) => n,
        };
        match self.next() {
            Some(c) => {
                if c != GLYPH_LOOP_START {
                    return Err(EvaluationError::UnterminatedLoopRange(RangePart::Separator));
                }
            },
            None => {
                return Err(EvaluationError::UnterminatedLoopRange(RangePart::Separator));
            },
        }
        assert(self.remaining() =~= tail);
        let end = match self.number() {
            Err(e) => {
                return Err(e);
            },
            Ok(None) => {
                return Err(EvaluationError::UnterminatedLoopRange(RangePart::End));
            },
            Ok(Some(n)) => n,
        };
        match self.next() {
            Some(c) => {
                if c != ']' {
                    return Err(EvaluationError::UnterminatedLoopRange(RangePart::Close));
                }
            },
            None => {
                return Err(EvaluationError::UnterminatedLoopRange(RangePart::Close));
            },
        }
        assert(self.remaining() =~= s.skip((first + 1 + second + 1) as int));
        Ok(EmojiToken::LoopRange(start, end))
    }

    /// Reads one token whose first character, `ch`, was taken already.
    fn token(&mut self, ch: char) -> (r: Result<EmojiToken, EvaluationError>)
        ensures
            match lexeme(seq![ch] + old(self).remaining()) {
                Ok(found) => r == Ok::<EmojiToken, EvaluationError>(found.token)
                    && 0 < found.length <= old(self).remaining().len() + 1
                    && final(self).remaining() == old(self).remaining().skip(
                    found.length - 1,
                ),
                Err(e) => r == Err::<EmojiToken, EvaluationError>(e),
            },
            match lexeme_form(seq![ch] + old(self).remaining()) {
                Ok(length) => r is Ok && 0 < length <= old(self).remaining().len() + 1
                    && final(self).remaining() == old(self).remaining().skip(length - 1),
                Err(e) => r == Err::<EmojiToken, EvaluationError>(e),
            },
    {
        let ghost s = self.remaining();
        let ghost whole = seq![ch] + s;
        proof {
            lemma_lexeme_length(whole);
            lemma_form_length(whole);
            assert(whole.drop_first() =~= s);
            assert(s.skip(0) =~= s);
        }
        if ch == GLYPH_ADD {
            Ok(EmojiToken::Add)
        } else if ch == GLYPH_SUBTRACT {
            Ok(EmojiToken::Subtract)
        } else if ch == GLYPH_TIMES {
            Ok(EmojiToken::Times)
        } else if ch == GLYPH_DIVISION {
            Ok(EmojiToken::Division)
        } else if ch == GLYPH_IF {
            Ok(EmojiToken::If)
        } else if ch == GLYPH_THEN {
            Ok(EmojiToken::Then)
        } else if ch == GLYPH_ELSE {
            Ok(EmojiToken::Else)
        } else if ch == GLYPH_ASSIGN {
            Ok(EmojiToken::Assign)
        } else if ch == GLYPH_LOOP_START {
            Ok(EmojiToken::LoopStart)
        } else if ch == GLYPH_LOOP_END {
            Ok(EmojiToken::LoopEnd)
        } else if ch == GLYPH_FUNCTION_END {
            Ok(EmojiToken::FunctionEnd)
        } else if ch == GLYPH_FUNCTION_START {
            match self.next() {
                Some(name) => {
                    assert(s.drop_first() =~= s.skip(1));
                    Ok(EmojiToken::FunctionStart(name))
                },
                None => Err(EvaluationError::MissingFunctionName),
            }
        } else if ch == GLYPH_FUNCTION_CALL {
            match self.next() {
                Some(name) => {
                    assert(s.drop_first() =~= s.skip(1));
                    Ok(EmojiToken::FunctionCall(name))
                },
                None => Err(EvaluationError::MissingFunctionName),
            }
        } else if ch == '[' {
            self.range()
        } else if ('0' <= ch && ch <= '9') || ch == '.' || ch == GLYPH_DECIMAL_TOGGLE {
            proof {
                lemma_literal_length_bound(s);
                let n = literal_length(s);
                assert(seq![ch] + s.take(n as int) =~= whole.take(n as int + 1));
            }
            match self.literal(ch) {
                Ok(n) => Ok(EmojiToken::Number(n)),
                Err(e) => Err(e),
            }
        } else {
            Ok(EmojiToken::Variable(ch))
        }
    }

    /// Reads the text to its end and gives its tokens in order, or the first
    /// error met from the left. Whether there are tokens, and which error
    /// there is if not, goes by the form of the text alone.
    pub fn tokenize(&mut self) -> (r: Result<Vec<EmojiToken>, EvaluationError>)
        ensures
            match r {
                Ok(tokens) => lex(old(self).remaining()) == Ok::<
                    Seq<EmojiToken>,
                    EvaluationError,
                >(tokens@) && final(self).remaining().len() == 0,
                Err(e) => lex(old(self).remaining()) == Err::<Seq<EmojiToken>, EvaluationError>(e),
            },
            match r {
                Ok(_) => fault(old(self).remaining()) is None,
                Err(e) => fault(old(self).remaining()) == Some(e),
            },
    {
        let ghost source = self.remaining();
        let mut tokens: Vec<EmojiToken> = Vec::new();
        assert(Seq::<EmojiToken>::empty() + lex(source)->Ok_0 =~= lex(source)->Ok_0);
        loop
            invariant
                source == old(self).remaining(),
                lex(source) == prefixed(tokens@, lex(self.remaining())),
                fault(source) == fault(self.remaining()),
            decreases self.remaining().len(),
        {
            let ghost s = self.remaining();
            let ch = match self.next() {
                Some(ch) => ch,
                None => {
                    assert(tokens@ + Seq::<EmojiToken>::empty() =~= tokens@);
                    return Ok(tokens);
                },
            };
            assert(seq![ch] + self.remaining() =~= s);
            let token = match self.token(ch) {
                Ok(token) => token,
                Err(e) => {
                    return Err(e);
                },
            };
            proof {
                let found = lexeme(s)->Ok_0;
                let rest = lex(s.skip(found.length as int));
                assert(self.remaining() =~= s.skip(found.length as int));
                if rest is Ok {
                    assert(tokens@ + (seq![token] + rest->Ok_0) =~= tokens@.push(token)
                        + rest->Ok_0);
                }
            }
            tokens.push(token);
        }
    }
}

} // verus!
