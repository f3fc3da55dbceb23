//! The cursor: a text together with a read position, counted in characters.

use vstd::prelude::*;
use vstd::string::*;

verus! {

/// A position in a text. The value is never changed in place: reading on
/// gives a new cursor over the same text.
#[derive(Debug)]
pub struct State {
    s: String,
    offset: usize,
}

/// The piece of `text` that `n` characters from `offset` on make up, or the
/// empty sequence where fewer than `n` remain.
pub open spec fn peeked(text: Seq<char>, offset: nat, n: nat) -> Seq<char> {
    if offset + n <= text.len() {
        text.subrange(offset as int, (offset + n) as int)
    } else {
        Seq::empty()
    }
}

impl State {
    /// The whole text that the cursor reads.
    pub closed spec fn text(&self) -> Seq<char> {
        self.s@
    }

    /// The number of characters before the read position.
    pub closed spec fn pos(&self) -> usize {
        self.offset
    }

    /// A cursor over `s` at `offset`. The offset may lie past the end of the
    /// text: nothing is left to read there.
    pub fn new(s: String, offset: usize) -> (state: Self)
        ensures
            state.text() == s@,
            state.pos() == offset,
    {
        Self { s, offset }
    }

    /// The next `n` characters, or the empty string where fewer than `n` are
    /// left, however large the offset and `n` are. The call also tells that
    /// the characters of the text can be counted in a `usize`.
    pub fn peek(&self, n: usize) -> (out: String)
        ensures
            out@ == peeked(self.text(), self.pos() as nat, n as nat),
            self.pos() + n > self.text().len() ==> out@.len() == 0,
            self.text().len() <= usize::MAX,
    {
        let len: usize = self.s.as_str().unicode_len();
        if n > len || self.offset > len - n {
            String::new()
        } else {
            let piece = self.s.as_str().substring_char(self.offset, self.offset + n);
            String::from_str(piece)
        }
    }

    /// What `peek` returns is decided by the cursor and the count alone:
    /// two calls on one cursor return the same string.
    pub proof fn lemma_peek_repeats(&self, n: usize, first: String, second: String)
        requires
            first@ == peeked(self.text(), self.pos() as nat, n as nat),
            second@ == peeked(self.text(), self.pos() as nat, n as nat),
        ensures
            first@ == second@,
    {
    }

    /// The cursor `n` characters further on, over the same text. Whether that
    /// many characters are left is not looked at; the new offset must fit
    /// the machine's integers.
    pub fn read(&self, n: usize) -> (next: Self)
        requires
            self.pos() + n <= usize::MAX,
        ensures
            next.text() == self.text(),
            next.pos() == self.pos() + n,
    {
        Self { s: self.s.clone(), offset: self.offset + n }
    }
}

impl PartialEq for State {
    /// Two cursors are equal when they read the same text at the same place.
    fn eq(&self, other: &Self) -> (same: bool) {
        self.offset == other.offset && self.s == other.s
    }
}

impl vstd::std_specs::cmp::PartialEqSpecImpl for State {
    open spec fn obeys_eq_spec() -> bool {
        true
    }

    open spec fn eq_spec(&self, other: &Self) -> bool {
        self.text() == other.text() && self.pos() == other.pos()
    }
}

impl Clone for State {
    /// A second cursor over the same text at the same place.
    fn clone(&self) -> (copy: Self)
        ensures
            copy == *self,
    {
        Self { s: self.s.clone(), offset: self.offset }
    }
}

} // verus!
