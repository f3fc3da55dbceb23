//! Matchers applied one after another.

use crate::parse::{
    all_steady, all_wf, consuming, fragments, moves_on, stays_in, steady, Outcome, Parse,
};
use crate::state::State;
use vstd::prelude::*;

verus! {

/// A fixed list of matchers that must all match, each where the one before
/// it ended.
pub struct Sequence {
    seq: Vec<Box<dyn Parse>>,
}

/// Running the first `k` matchers of `parts` from `offset` on, each from
/// where the one before it ended: all their fragments in order and the
/// offset after the last, or `None` as soon as one of them fails.
pub open spec fn run(parts: Seq<Box<dyn Parse>>, text: Seq<char>, offset: nat, k: nat) -> Outcome
    decreases k,
{
    if k == 0 {
        Some((Seq::empty(), offset))
    } else {
        match run(parts, text, offset, (k - 1) as nat) {
            Some((frags, at)) => match parts[k - 1].matched(text, at) {
                Some((more, next)) => Some((frags + more, next)),
                None => None,
            },
            None => None,
        }
    }
}

/// Once a matcher of the list has failed, the rest is not tried: the run
/// stays failed however many more matchers are asked for.
pub proof fn lemma_run_stays_failed(
    parts: Seq<Box<dyn Parse>>,
    text: Seq<char>,
    offset: nat,
    k: nat,
    more: nat,
)
    requires
        run(parts, text, offset, k) is None,
        k <= more,
    ensures
        run(parts, text, offset, more) is None,
    decreases more,
{
    if k < more {
        lemma_run_stays_failed(parts, text, offset, k, (more - 1) as nat);
    }
}

/// A run of steady matchers is steady.
pub proof fn lemma_run_steady(parts: Seq<Box<dyn Parse>>, text: Seq<char>, offset: nat, k: nat)
    requires
        k <= parts.len(),
        all_steady(parts),
    ensures
        stays_in(run(parts, text, offset, k), text, offset),
    decreases k,
{
    if k > 0 {
        lemma_run_steady(parts, text, offset, (k - 1) as nat);
        if let Some((_, at)) = run(parts, text, offset, (k - 1) as nat) {
            assert(steady(&*parts[k - 1]));
            let _ = parts[k - 1].matched(text, at);
        }
    }
}

/// A run of steady matchers of which the one at `i` is consuming is
/// consuming.
pub proof fn lemma_run_consuming(
    parts: Seq<Box<dyn Parse>>,
    text: Seq<char>,
    offset: nat,
    k: nat,
    i: int,
)
    requires
        k <= parts.len(),
        all_steady(parts),
        0 <= i < k,
        consuming(&*parts[i]),
    ensures
        moves_on(run(parts, text, offset, k), text, offset),
    decreases k,
{
    if let Some((_, at)) = run(parts, text, offset, (k - 1) as nat) {
        assert(steady(&*parts[k - 1]));
        let _ = parts[k - 1].matched(text, at);
        if i == k - 1 {
            lemma_run_steady(parts, text, offset, (k - 1) as nat);
        } else {
            lemma_run_consuming(parts, text, offset, (k - 1) as nat, i);
        }
    }
}

impl Sequence {
    /// The matchers of the sequence, in the order in which they are applied.
    pub closed spec fn parts(&self) -> Seq<Box<dyn Parse>> {
        self.seq@
    }

    /// The sequence of the matchers of `seq`, in that order.
    pub fn new(seq: Vec<Box<dyn Parse>>) -> (sequence: Self)
        ensures
            sequence.parts() == seq@,
    {
        Self { seq }
    }

    /// All or nothing: where the first `k` matchers match one after another
    /// and the next one fails where they ended, the sequence fails, whatever
    /// was matched before.
    pub proof fn lemma_all_or_nothing(&self, text: Seq<char>, offset: nat, k: nat)
        requires
            k < self.parts().len(),
            run(self.parts(), text, offset, k) matches Some((_, at))
                && self.parts()[k as int].matched(text, at) is None,
        ensures
            self.matched(text, offset) is None,
    {
        lemma_run_stays_failed(self.parts(), text, offset, k + 1, self.parts().len());
    }

    /// A sequence of steady matchers is steady.
    pub proof fn lemma_steady(&self)
        requires
            all_steady(self.parts()),
        ensures
            steady(self),
    {
        assert forall|text: Seq<char>, offset: nat|
            stays_in(#[trigger] self.matched(text, offset), text, offset) by {
            lemma_run_steady(self.parts(), text, offset, self.parts().len());
        }
    }

    /// A sequence of steady matchers of which the one at `i` is consuming
    /// is consuming.
    pub proof fn lemma_consuming(&self, i: int)
        requires
            all_steady(self.parts()),
            0 <= i < self.parts().len(),
            consuming(&*self.parts()[i]),
        ensures
            consuming(self),
    {
        assert forall|text: Seq<char>, offset: nat|
            moves_on(#[trigger] self.matched(text, offset), text, offset) by {
            lemma_run_consuming(self.parts(), text, offset, self.parts().len(), i);
        }
    }
}

impl Parse for Sequence {
    open spec fn wf(&self) -> bool {
        all_wf(self.parts())
    }

    /// All the matchers match one after another: their fragments in one
    /// flat list, and the match ends where the last one ended. The empty
    /// sequence matches everywhere and reads nothing.
    open spec fn matched(&self, text: Seq<char>, offset: nat) -> Outcome {
        run(self.parts(), text, offset, self.parts().len())
    }

    fn parse(&self, state: &State) -> (r: Option<(Vec<String>, State)>) {
        let mut current = state.clone();
        let mut results: Vec<String> = Vec::new();
        let ghost text = state.text();
        let ghost parts = self.parts();
        let mut i: usize = 0;
        while i < self.seq.len()
            invariant
                i <= self.seq@.len(),
                parts == self.parts(),
                parts.len() == self.seq@.len(),
                all_wf(parts),
                text == state.text(),
                current.text() == text,
                run(parts, text, state.pos() as nat, i as nat) == Some(
                    (fragments(results@), current.pos() as nat),
                ),
            decreases self.seq@.len() - i,
        {
            assert(parts[i as int].wf());
            match self.seq[i].parse(&current) {
                Some((mut res, state_next)) => {
                    proof {
                        assert(fragments(results@ + res@) =~= fragments(results@) + fragments(
                            res@,
                        ));
                    }
                    results.append(&mut res);
                    current = state_next;
                },
                None => {
                    proof {
                        lemma_run_stays_failed(
                            parts,
                            text,
                            state.pos() as nat,
                            (i + 1) as nat,
                            parts.len(),
                        );
                    }
                    return None;
                },
            }
            i = i + 1;
        }
        Some((results, current))
    }
}

} // verus!
