//! Ordered choice between matchers.

use crate::parse::{
    all_consuming, all_steady, all_wf, consuming, moves_on, stays_in, steady, Outcome, Parse,
};
use crate::state::State;
use vstd::prelude::*;

verus! {

/// A list of matchers tried in order at the same place: the first that
/// matches gives the result.
pub struct Alt {
    choices: Vec<Box<dyn Parse>>,
}

/// The result of the first of the first `k` matchers of `choices` that
/// matches `text` at `offset`, or `None` where none of them does.
pub open spec fn first_among(
    choices: Seq<Box<dyn Parse>>,
    text: Seq<char>,
    offset: nat,
    k: nat,
) -> Outcome
    decreases k,
{
    if k == 0 {
        None
    } else {
        match first_among(choices, text, offset, (k - 1) as nat) {
            Some(found) => Some(found),
            None => choices[k - 1].matched(text, offset),
        }
    }
}

/// A match that was found is kept: matchers further down the list do not
/// change it.
pub proof fn lemma_first_is_kept(
    choices: Seq<Box<dyn Parse>>,
    text: Seq<char>,
    offset: nat,
    k: nat,
    more: nat,
)
    requires
        first_among(choices, text, offset, k) is Some,
        k <= more,
    ensures
        first_among(choices, text, offset, more) == first_among(choices, text, offset, k),
    decreases more,
{
    if k < more {
        lemma_first_is_kept(choices, text, offset, k, (more - 1) as nat);
    }
}

/// Where none of the first `k` matchers matches, there is no first match
/// among them.
pub proof fn lemma_first_of_none(
    choices: Seq<Box<dyn Parse>>,
    text: Seq<char>,
    offset: nat,
    k: nat,
)
    requires
        k <= choices.len(),
        forall|j: int| 0 <= j < k ==> (#[trigger] choices[j]).matched(text, offset) is None,
    ensures
        first_among(choices, text, offset, k) is None,
    decreases k,
{
    if k > 0 {
        lemma_first_of_none(choices, text, offset, (k - 1) as nat);
    }
}

/// A choice between steady matchers is steady.
pub proof fn lemma_first_steady(
    choices: Seq<Box<dyn Parse>>,
    text: Seq<char>,
    offset: nat,
    k: nat,
)
    requires
        k <= choices.len(),
        all_steady(choices),
    ensures
        stays_in(first_among(choices, text, offset, k), text, offset),
    decreases k,
{
    if k > 0 {
        lemma_first_steady(choices, text, offset, (k - 1) as nat);
        assert(steady(&*choices[k - 1]));
        let _ = choices[k - 1].matched(text, offset);
    }
}

/// A choice between consuming matchers is consuming.
pub proof fn lemma_first_consuming(
    choices: Seq<Box<dyn Parse>>,
    text: Seq<char>,
    offset: nat,
    k: nat,
)
    requires
        k <= choices.len(),
        all_consuming(choices),
    ensures
        moves_on(first_among(choices, text, offset, k), text, offset),
    decreases k,
{
    if k > 0 {
        lemma_first_consuming(choices, text, offset, (k - 1) as nat);
        assert(consuming(&*choices[k - 1]));
        let _ = choices[k - 1].matched(text, offset);
    }
}

impl Alt {
    /// The matchers of the choice, in the order in which they are tried.
    pub closed spec fn choices(&self) -> Seq<Box<dyn Parse>> {
        self.choices@
    }

    /// The choice between the matchers of `choices`, tried in that order.
    pub fn new(choices: Vec<Box<dyn Parse>>) -> (alt: Self)
        ensures
            alt.choices() == choices@,
    {
        Self { choices }
    }

    /// The order of the list decides: where the matcher at `i` matches and
    /// none before it does, the choice gives what that matcher gives,
    /// whatever the matchers after it would give.
    pub proof fn lemma_earliest_wins(&self, text: Seq<char>, offset: nat, i: int)
        requires
            0 <= i < self.choices().len(),
            self.choices()[i].matched(text, offset) is Some,
            forall|j: int|
                0 <= j < i ==> (#[trigger] self.choices()[j]).matched(text, offset) is None,
        ensures
            self.matched(text, offset) == self.choices()[i].matched(text, offset),
    {
        lemma_first_of_none(self.choices(), text, offset, i as nat);
        lemma_first_is_kept(self.choices(), text, offset, (i + 1) as nat, self.choices().len());
    }

    /// Where no matcher of the list matches, the choice does not match.
    pub proof fn lemma_none_matches(&self, text: Seq<char>, offset: nat)
        requires
            forall|j: int|
                0 <= j < self.choices().len() ==> (#[trigger] self.choices()[j]).matched(
                    text,
                    offset,
                ) is None,
        ensures
            self.matched(text, offset) is None,
    {
        lemma_first_of_none(self.choices(), text, offset, self.choices().len());
    }

    /// A choice between steady matchers is steady.
    pub proof fn lemma_steady(&self)
        requires
            all_steady(self.choices()),
        ensures
            steady(self),
    {
        assert forall|text: Seq<char>, offset: nat|
            stays_in(#[trigger] self.matched(text, offset), text, offset) by {
            lemma_first_steady(self.choices(), text, offset, self.choices().len());
        }
    }

    /// A choice between consuming matchers is consuming.
    pub proof fn lemma_consuming(&self)
        requires
            all_consuming(self.choices()),
        ensures
            consuming(self),
    {
        assert forall|text: Seq<char>, offset: nat|
            moves_on(#[trigger] self.matched(text, offset), text, offset) by {
            lemma_first_consuming(self.choices(), text, offset, self.choices().len());
        }
    }
}

impl Parse for Alt {
    open spec fn wf(&self) -> bool {
        all_wf(self.choices())
    }

    /// What the first matcher of the list that matches at `offset` gives,
    /// be it the longest match or not. The empty choice never matches.
    open spec fn matched(&self, text: Seq<char>, offset: nat) -> Outcome {
        first_among(self.choices(), text, offset, self.choices().len())
    }

    fn parse(&self, state: &State) -> (r: Option<(Vec<String>, State)>) {
        let ghost choices = self.choices();
        let mut i: usize = 0;
        while i < self.choices.len()
            invariant
                i <= self.choices@.len(),
                choices == self.choices(),
                choices.len() == self.choices@.len(),
                all_wf(choices),
                first_among(choices, state.text(), state.pos() as nat, i as nat) is None,
            decreases self.choices@.len() - i,
        {
            assert(choices[i as int].wf());
            let parsed = self.choices[i].parse(state);
            if parsed.is_some() {
                proof {
                    lemma_first_is_kept(
                        choices,
                        state.text(),
                        state.pos() as nat,
                        (i + 1) as nat,
                        choices.len(),
                    );
                }
                return parsed;
            }
            i = i + 1;
        }
        None
    }
}

} // verus!
