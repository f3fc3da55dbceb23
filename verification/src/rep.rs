//! Greedy repetition of one matcher.

use crate::parse::{consuming, fragments, moves_on, stays_in, steady, Outcome, Parse};
use crate::state::State;
use vstd::prelude::*;

verus! {

/// A matcher applied as often as it matches, at least `min` times. There is
/// no upper limit, and no going back to fewer rounds.
///
/// What is repeated must read at least one character whenever it matches:
/// a matcher that can match without reading would be repeated without end.
pub struct Rep {
    // The repeated matcher and the least number of rounds. They are kept as
    // one pair, which is moved in whole: a boxed matcher moved into a field
    // of its own would be converted on the way, and the contracts could no
    // longer tell that it is the matcher that was given.
    parts: (Box<dyn Parse>, usize),
}

impl Rep {
    /// The matcher that is repeated.
    pub closed spec fn inner(&self) -> &Box<dyn Parse> {
        &self.parts.0
    }

    /// The least number of rounds that make a match.
    pub closed spec fn least(&self) -> nat {
        self.parts.1 as nat
    }

    /// Matching over and over from `offset` on until the repeated matcher
    /// fails: the fragments of all rounds in order, the offset after the
    /// last round, and the number of rounds. A round that does not move
    /// forward inside the text ends the run.
    pub open spec fn rounds(&self, text: Seq<char>, offset: nat) -> (Seq<Seq<char>>, nat, nat)
        decreases text.len() - offset,
    {
        match self.inner().matched(text, offset) {
            Some((frags, next)) => if offset < next <= text.len() {
                let (more, end, count) = self.rounds(text, next);
                (frags + more, end, (count + 1) as nat)
            } else {
                (Seq::empty(), offset, 0)
            },
            None => (Seq::empty(), offset, 0),
        }
    }

    /// The rounds end where they began if there was none, and else after it
    /// and inside the text.
    pub proof fn lemma_rounds_end(&self, text: Seq<char>, offset: nat)
        ensures
            ({
                let (_, end, count) = self.rounds(text, offset);
                if count == 0 {
                    end == offset
                } else {
                    offset < end <= text.len()
                }
            }),
        decreases text.len() - offset,
    {
        if let Some((_, next)) = self.inner().matched(text, offset) {
            if offset < next <= text.len() {
                self.lemma_rounds_end(text, next);
            }
        }
    }

    /// Repeats `parse`, and matches where it matched `min` times or more.
    pub fn new(parse: Box<dyn Parse>, min: usize) -> (rep: Self)
        ensures
            *rep.inner() == parse,
            rep.least() == min,
    {
        let parts = (parse, min);
        Self { parts }
    }

    /// A repetition is steady, whatever it repeats.
    pub proof fn lemma_steady(&self)
        ensures
            steady(self),
    {
        assert forall|text: Seq<char>, offset: nat|
            stays_in(#[trigger] self.matched(text, offset), text, offset) by {
            self.lemma_rounds_end(text, offset);
        }
    }

    /// A repetition that asks for at least one round is consuming.
    pub proof fn lemma_consuming(&self)
        requires
            self.least() >= 1,
        ensures
            consuming(self),
    {
        assert forall|text: Seq<char>, offset: nat|
            moves_on(#[trigger] self.matched(text, offset), text, offset) by {
            self.lemma_rounds_end(text, offset);
        }
    }
}

impl Parse for Rep {
    /// The repeated matcher may be run, and reads at least one character
    /// wherever it matches.
    open spec fn wf(&self) -> bool {
        self.inner().wf() && consuming(&**self.inner())
    }

    /// All the rounds that can be had, if they are at least as many as asked
    /// for: their fragments in one flat list, and the match ends after the
    /// last round. With fewer rounds there is no match, and nothing is kept.
    open spec fn matched(&self, text: Seq<char>, offset: nat) -> Outcome {
        let (frags, end, count) = self.rounds(text, offset);
        if count >= self.least() {
            Some((frags, end))
        } else {
            None
        }
    }

    fn parse(&self, state: &State) -> (r: Option<(Vec<String>, State)>) {
        let mut current = state.clone();
        let mut results: Vec<String> = Vec::new();
        let mut count: usize = 0;
        let ghost text = state.text();
        let ghost whole = self.rounds(text, state.pos() as nat);
        loop
            invariant
                self.wf(),
                text == state.text(),
                current.text() == text,
                whole == self.rounds(text, state.pos() as nat),
                count <= current.pos(),
                ({
                    let (more, end, n) = self.rounds(text, current.pos() as nat);
                    whole == (fragments(results@) + more, end, (count + n) as nat)
                }),
            decreases text.len() - current.pos(),
        {
            match self.parts.0.parse(&current) {
                Some((mut res, state_next)) => {
                    proof {
                        let (more, _, _) = self.rounds(text, state_next.pos() as nat);
                        assert(fragments(results@ + res@) =~= fragments(results@) + fragments(
                            res@,
                        ));
                        assert((fragments(results@) + fragments(res@)) + more =~= fragments(
                            results@,
                        ) + (fragments(res@) + more));
                    }
                    results.append(&mut res);
                    current = state_next;
                    count = count + 1;
                },
                None => {
                    proof {
                        assert(fragments(results@) + Seq::<Seq<char>>::empty() =~= fragments(
                            results@,
                        ));
                    }
                    if count >= self.parts.1 {
                        return Some((results, current));
                    } else {
                        return None;
                    }
                },
            }
        }
    }
}

} // verus!
