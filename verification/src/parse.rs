//! The contract that every matcher honours.

use crate::state::State;
use vstd::prelude::*;

verus! {

/// What a match gives in the model: the fragments in input order and the
/// offset just after the match, or `None` where there is no match.
pub type Outcome = Option<(Seq<Seq<char>>, nat)>;

/// The fragments as sequences of characters.
pub open spec fn fragments(out: Seq<String>) -> Seq<Seq<char>> {
    out.map_values(|s: String| s@)
}

/// An executable result says what the model says: the same fragments and a
/// cursor over the same text at the model's offset, or no match in both.
pub open spec fn reports(r: Option<(Vec<String>, State)>, from: &State, model: Outcome) -> bool {
    match model {
        Some((frags, next)) => {
            &&& r matches Some((out, after))
            &&& fragments(out@) == frags
            &&& after.text() == from.text()
            &&& after.pos() == next
        },
        None => r is None,
    }
}

/// A matcher: it reads a cursor and either matches there or does not.
/// A failure is an ordinary result, not an error: the caller still holds the
/// cursor and may try something else.
pub trait Parse {
    /// Whether the matcher may be run. A repetition asks that what it repeats
    /// reads at least one character each time; the others ask only that
    /// their parts may be run.
    spec fn wf(&self) -> bool;

    /// The result of matching `text` from `offset` on.
    spec fn matched(&self, text: Seq<char>, offset: nat) -> Outcome;

    /// Matches at the cursor. Neither the matcher nor the cursor is changed.
    fn parse(&self, state: &State) -> (r: Option<(Vec<String>, State)>)
        requires
            self.wf(),
        ensures
            reports(r, state, self.matched(state.text(), state.pos() as nat)),
    ;
}

/// A match, if it is one, ends after `offset` and not past the end of the
/// text.
pub open spec fn moves_on(r: Outcome, text: Seq<char>, offset: nat) -> bool {
    r matches Some((_, next)) ==> offset < next <= text.len()
}

/// A match, if it is one, ends at `offset` or after it, and not past the end
/// of the text unless it read nothing.
pub open spec fn stays_in(r: Outcome, text: Seq<char>, offset: nat) -> bool {
    r matches Some((_, next)) ==> offset <= next && (next == offset || next <= text.len())
}

/// Wherever the matcher matches, it reads at least one character of the
/// text. Repeating such a matcher comes to an end.
pub open spec fn consuming<P: Parse + ?Sized>(p: &P) -> bool {
    forall|text: Seq<char>, offset: nat|
        moves_on(#[trigger] p.matched(text, offset), text, offset)
}

/// Wherever the matcher matches, it does not go back, and it does not go
/// past the end of the text.
pub open spec fn steady<P: Parse + ?Sized>(p: &P) -> bool {
    forall|text: Seq<char>, offset: nat|
        stays_in(#[trigger] p.matched(text, offset), text, offset)
}

/// Every matcher of the list may be run.
pub open spec fn all_wf(parts: Seq<Box<dyn Parse>>) -> bool {
    forall|i: int| 0 <= i < parts.len() ==> (#[trigger] parts[i]).wf()
}

/// Every matcher of the list is steady.
pub open spec fn all_steady(parts: Seq<Box<dyn Parse>>) -> bool {
    forall|i: int| 0 <= i < parts.len() ==> steady(&*#[trigger] parts[i])
}

/// Every matcher of the list is consuming.
pub open spec fn all_consuming(parts: Seq<Box<dyn Parse>>) -> bool {
    forall|i: int| 0 <= i < parts.len() ==> consuming(&*#[trigger] parts[i])
}

} // verus!
