//! The variables and the functions of a program, by their one-character names.
//!
//! Both are hash tables that are keyed by the code point of the name.

use crate::number::Number;
use crate::token::EmojiToken;
use std::collections::HashMap;
use vstd::prelude::*;

verus! {

/// Two characters with the same code point are the same character.
proof fn lemma_code_point(a: char, b: char)
    ensures
        a as u32 == b as u32 <==> a == b,
{
}

/// A copy of `tokens`.
pub fn duplicate(tokens: &Vec<EmojiToken>) -> (r: Vec<EmojiToken>)
    ensures
        r@ == tokens@,
{
    let mut copy: Vec<EmojiToken> = Vec::new();
    let mut i: usize = 0;
    while i < tokens.len()
        invariant
            i <= tokens.len(),
            copy@ == tokens@.take(i as int),
        decreases tokens.len() - i,
    {
        copy.push(tokens[i]);
        assert(copy@ =~= tokens@.take(i as int + 1));
        i = i + 1;
    }
    assert(tokens@.take(tokens.len() as int) =~= tokens@);
    copy
}

/// The values of the variables. A variable has the value that was set last.
pub struct Variables {
    table: HashMap<u32, Number>,
}

impl View for Variables {
    type V = Map<char, Number>;

    closed spec fn view(&self) -> Map<char, Number> {
        Map::new(
            |name: char| self.table@.contains_key(name as u32),
            |name: char| self.table@[name as u32],
        )
    }
}

impl Variables {
    /// No variables.
    pub fn new() -> (r: Self)
        ensures
            r@ == Map::<char, Number>::empty(),
    {
        let r = Variables { table: HashMap::new() };
        assert(r@ =~= Map::<char, Number>::empty());
        r
    }

    /// The value of the variable `name`, if it has one.
    pub fn get(&self, name: char) -> (r: Option<Number>)
        ensures
            r == if self@.contains_key(name) {
                Some(self@[name])
            } else {
                None
            },
    {
        broadcast use vstd::std_specs::hash::group_hash_axioms;

        match self.table.get(&(name as u32)) {
            Some(value) => Some(*value),
            None => None,
        }
    }

    /// Gives the variable `name` the value `value`.
    pub fn set(&mut self, name: char, value: Number)
        ensures
            final(self)@ == old(self)@.insert(name, value),
    {
        broadcast use vstd::std_specs::hash::group_hash_axioms;

        let _ = self.table.insert(name as u32, value);
        proof {
            let stored = final(self)@;
            let bound = old(self)@.insert(name, value);
            assert forall|c: char| stored.contains_key(c) == bound.contains_key(c) by {
                lemma_code_point(c, name);
            }
            assert forall|c: char| stored.contains_key(c) implies stored[c] == bound[c] by {
                lemma_code_point(c, name);
            }
            assert(stored =~= bound);
        }
    }

    /// A copy of the variables, which shares nothing with them.
    pub fn copy(&self) -> (r: Self)
        ensures
            r@ == self@,
    {
        Variables { table: self.table.clone() }
    }
}

/// The bodies of the functions. A function has the body that was defined
/// last.
pub struct Functions {
    table: HashMap<u32, Vec<EmojiToken>>,
}

impl View for Functions {
    type V = Map<char, Seq<EmojiToken>>;

    closed spec fn view(&self) -> Map<char, Seq<EmojiToken>> {
        Map::new(
            |name: char| self.table@.contains_key(name as u32),
            |name: char| self.table@[name as u32]@,
        )
    }
}

impl Functions {
    /// No functions.
    pub fn new() -> (r: Self)
        ensures
            r@ == Map::<char, Seq<EmojiToken>>::empty(),
    {
        let r = Functions { table: HashMap::new() };
        assert(r@ =~= Map::<char, Seq<EmojiToken>>::empty());
        r
    }

    /// A copy of the body of the function `name`, if it is defined.
    pub fn get(&self, name: char) -> (r: Option<Vec<EmojiToken>>)
        ensures
            self@.contains_key(name) ==> r is Some && r->0@ == self@[name],
            !self@.contains_key(name) ==> r is None,
    {
        broadcast use vstd::std_specs::hash::group_hash_axioms;

        match self.table.get(&(name as u32)) {
            Some(body) => Some(duplicate(body)),
            None => None,
        }
    }

    /// Defines the function `name` with the body `body`.
    pub fn define(&mut self, name: char, body: Vec<EmojiToken>)
        ensures
            final(self)@ == old(self)@.insert(name, body@),
    {
        broadcast use vstd::std_specs::hash::group_hash_axioms;

        let ghost tokens = body@;
        let _ = self.table.insert(name as u32, body);
        proof {
            let stored = final(self)@;
            let defined = old(self)@.insert(name, tokens);
            assert forall|c: char| stored.contains_key(c) == defined.contains_key(c) by {
                lemma_code_point(c, name);
            }
            assert forall|c: char| stored.contains_key(c) implies stored[c] == defined[c] by {
                lemma_code_point(c, name);
            }
            assert(stored =~= defined);
        }
    }

    /// A copy of the functions, which shares nothing with them.
    pub fn copy(&self) -> (r: Self)
        ensures
            r@ == self@,
    {
        Functions { table: self.table.clone() }
    }
}

} // verus!
