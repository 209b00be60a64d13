//! A cursor over the characters of a program, with one character of lookahead.

use vstd::prelude::*;
use vstd::std_specs::iter::IteratorSpec;

verus! {

/// A cursor over the characters of a source text.
///
/// `peek` looks at the next character and `next` takes it. At most one
/// character is held back between the two.
pub struct PeekableChars {
    chars: Vec<char>,
    cursor: usize,
    peeked: Option<char>,
}

impl PeekableChars {
    /// The cursor never leaves the text.
    #[verifier::type_invariant]
    pub closed spec fn well_formed(&self) -> bool {
        self.cursor <= self.chars.len()
    }

    /// The characters that are still to come, the next one first.
    pub closed spec fn remaining(&self) -> Seq<char> {
        match self.peeked {
            Some(c) => seq![c] + self.chars@.skip(self.cursor as int),
            None => self.chars@.skip(self.cursor as int),
        }
    }

    /// A cursor at the start of `s`.
    pub fn new(s: &str) -> (r: Self)
        ensures
            r.remaining() == s@,
    {
        broadcast use vstd::string::axiom_spec_iter;
        broadcast use vstd::string::next_postcondition;

        let mut chars: Vec<char> = Vec::new();
        let mut source = s.chars();
        loop
            invariant
                source.obeys_prophetic_iter_laws(),
                chars@ + source.remaining() == s@,
                source.decrease() is Some,
            ensures
                chars@ == s@,
            decreases source.decrease()->0,
        {
            let ghost before = source.remaining();
            match source.next() {
                Some(c) => {
                    chars.push(c);
                    assert(chars@ + source.remaining() == s@) by {
                        assert(before == seq![c] + source.remaining());
                        assert(chars@ + source.remaining() =~= chars@.drop_last() + before);
                    }
                },
                None => {
                    assert(chars@ =~= s@);
                    break;
                },
            }
        }
        assert(chars@.skip(0) =~= chars@);
        PeekableChars { chars, cursor: 0, peeked: None }
    }

    /// Takes the next character, if there is one.
    pub fn next(&mut self) -> (r: Option<char>)
        ensures
            old(self).remaining().len() == 0 ==> r is None && final(self).remaining()
                == old(self).remaining(),
            old(self).remaining().len() > 0 ==> r == Some(old(self).remaining()[0])
                && final(self).remaining() == old(self).remaining().drop_first(),
    {
        proof {
            use_type_invariant(&*self);
        }
        if let Some(ch) = self.peeked {
            self.peeked = None;
            assert(final(self).remaining() =~= old(self).remaining().drop_first());
            Some(ch)
        } else if self.cursor < self.chars.len() {
            let ch = self.chars[self.cursor];
            self.cursor = self.cursor + 1;
            assert(final(self).remaining() =~= old(self).remaining().drop_first());
            Some(ch)
        } else {
            None
        }
    }

    /// Looks at the next character without taking it.
    pub fn peek(&mut self) -> (r: Option<&char>)
        ensures
            final(self).remaining() == old(self).remaining(),
            old(self).remaining().len() == 0 ==> r is None,
            old(self).remaining().len() > 0 ==> r == Some(&old(self).remaining()[0]),
    {
        proof {
            use_type_invariant(&*self);
        }
        if self.peeked.is_none() && self.cursor < self.chars.len() {
            self.peeked = Some(self.chars[self.cursor]);
            self.cursor = self.cursor + 1;
            assert(self.remaining() =~= old(self).remaining());
        }
        self.peeked.as_ref()
    }
}

} // verus!
