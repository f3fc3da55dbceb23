//! Matching a fixed string.

use crate::parse::{consuming, fragments, steady, Outcome, Parse};
use crate::state::{peeked, State};
use vstd::prelude::*;
use vstd::string::*;

verus! {

/// A matcher for one fixed string, character for character.
pub struct Lit {
    lit: String,
}

impl Lit {
    /// The string that is matched.
    pub closed spec fn literal(&self) -> Seq<char> {
        self.lit@
    }

    /// The matcher for exactly `lit`.
    pub fn new(lit: String) -> (matcher: Self)
        ensures
            matcher.literal() == lit@,
    {
        Self { lit }
    }

    /// A literal matches every text that begins with it, from the start:
    /// the one fragment is the literal, and the match ends after as many
    /// characters as the literal has.
    pub proof fn lemma_matches_at_start(&self, text: Seq<char>)
        requires
            self.literal().is_prefix_of(text),
        ensures
            self.matched(text, 0) == Some((seq![self.literal()], self.literal().len())),
    {
    }

    /// Where fewer characters are left than the literal has, a literal of
    /// at least one character does not match.
    pub proof fn lemma_fails_past_end(&self, text: Seq<char>, offset: nat)
        requires
            self.literal().len() > 0,
            offset + self.literal().len() > text.len(),
        ensures
            self.matched(text, offset) is None,
    {
    }

    /// A literal never ends before where it began, nor past the end of the
    /// text.
    pub proof fn lemma_steady(&self)
        ensures
            steady(self),
    {
    }

    /// A literal of at least one character reads at least one character
    /// wherever it matches.
    pub proof fn lemma_consuming(&self)
        requires
            self.literal().len() > 0,
        ensures
            consuming(self),
    {
    }
}

impl Parse for Lit {
    open spec fn wf(&self) -> bool {
        true
    }

    /// The next characters are those of the literal: they are the one
    /// fragment, and the match ends after them. The empty literal matches
    /// everywhere and reads nothing.
    open spec fn matched(&self, text: Seq<char>, offset: nat) -> Outcome {
        if peeked(text, offset, self.literal().len()) == self.literal() {
            Some((seq![self.literal()], offset + self.literal().len()))
        } else {
            None
        }
    }

    fn parse(&self, state: &State) -> (r: Option<(Vec<String>, State)>) {
        let n: usize = self.lit.as_str().unicode_len();
        let peeked = state.peek(n);
        if peeked == self.lit {
            let ghost frag = peeked@;
            let mut out: Vec<String> = Vec::new();
            out.push(peeked);
            proof {
                assert(fragments(out@) =~= seq![frag]);
            }
            Some((out, state.read(n)))
        } else {
            None
        }
    }
}

} // verus!
