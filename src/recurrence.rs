use vstd::prelude::*;
use vstd::arithmetic::div_mod::{lemma_fundamental_div_mod, lemma_fundamental_div_mod_converse};

use crate::ppm::Rgb;

verus! {

/// A return to the start is counted only after this step: before it the
/// bobs have hardly moved.
pub const MIN_RETURN_STEP: u32 = 5;

/// The colour of recurrence time `i`: red `8i`, green `9i` and blue
/// `255 - 4i`, each taken modulo 256.
pub open spec fn palette(i: nat) -> Rgb {
    (((8 * i) % 256) as u8, ((9 * i) % 256) as u8, ((255 - 4 * i) % 256) as u8)
}

/// The colour of a pixel whose pendulum never came back.
pub open spec fn sentinel() -> Rgb {
    (0u8, 0u8, 0u8)
}

/// The first step after `MIN_RETURN_STEP` at which both bobs were back
/// near their starting positions, given whether they were at each step.
pub open spec fn first_return(obs: Seq<bool>) -> Option<nat>
    decreases obs.len(),
{
    if obs.len() == 0 {
        None
    } else {
        match first_return(obs.drop_last()) {
            Some(i) => Some(i),
            None => if obs.last() && obs.len() - 1 > MIN_RETURN_STEP {
                Some((obs.len() - 1) as nat)
            } else {
                None
            },
        }
    }
}

/// The colour that a search with observations `obs` settles on.
pub open spec fn search_color(obs: Seq<bool>) -> Rgb {
    match first_return(obs) {
        Some(i) => palette(i),
        None => sentinel(),
    }
}

/// The colour of recurrence time `i`.
pub fn recurrence_color(i: u32) -> (r: Rgb)
    ensures
        r == palette(i as nat),
{
    let n: u64 = i as u64;
    let red: u8 = ((n * 8) % 256) as u8;
    let green: u8 = ((n * 9) % 256) as u8;
    let low: u64 = (n * 4) % 256;
    let blue: u8 = (255 - low) as u8;
    proof {
        let k = 4 * (i as int);
        lemma_fundamental_div_mod(k, 256);
        lemma_fundamental_div_mod_converse(255 - k, 256, -(k / 256), 255 - k % 256);
    }
    (red, green, blue)
}

/// The search for the recurrence time of one pendulum, fed one observation
/// per integration step: whether both bobs are back near their starting
/// positions. It stops at the first return after `MIN_RETURN_STEP`, or once
/// `budget` steps have been observed.
pub struct RecurrenceSearch {
    budget: u32,
    step: u32,
    found: Option<u32>,
    history: Ghost<Seq<bool>>,
}

impl RecurrenceSearch {
    /// The most steps that will be observed.
    pub closed spec fn budget(&self) -> nat {
        self.budget as nat
    }

    /// What was observed so far, one entry per step.
    pub closed spec fn observations(&self) -> Seq<bool> {
        self.history@
    }

    /// The record agrees with the counters, and never outgrows the budget.
    pub closed spec fn wf(&self) -> bool {
        &&& self.history@.len() == self.step
        &&& self.step <= self.budget
        &&& match self.found {
            Some(i) => first_return(self.history@) == Some(i as nat),
            None => first_return(self.history@) is None,
        }
    }

    /// No more observations are taken.
    pub open spec fn done(&self) -> bool {
        first_return(self.observations()) is Some || self.observations().len() == self.budget()
    }

    /// A search that has observed nothing yet.
    pub fn new(budget: u32) -> (r: Self)
        ensures
            r.wf(),
            r.budget() == budget,
            r.observations() == Seq::<bool>::empty(),
    {
        RecurrenceSearch { budget, step: 0, found: None, history: Ghost(Seq::empty()) }
    }

    /// Whether the search has ended.
    pub fn is_done(&self) -> (r: bool)
        requires
            self.wf(),
        ensures
            r == self.done(),
    {
        self.found.is_some() || self.step == self.budget
    }

    /// Records the observation of the next step. The record grows by one
    /// and never past the budget, so a search ends after at most `budget`
    /// observations.
    pub fn observe(&mut self, within: bool)
        requires
            old(self).wf(),
            !old(self).done(),
        ensures
            final(self).wf(),
            final(self).budget() == old(self).budget(),
            final(self).observations() == old(self).observations().push(within),
            final(self).observations().len() <= final(self).budget(),
    {
        let ghost h = self.history@;
        assert(h.push(within).drop_last() =~= h);
        if within && self.step > MIN_RETURN_STEP {
            self.found = Some(self.step);
        }
        self.history = Ghost(self.history@.push(within));
        self.step = self.step + 1;
    }

    /// The colour of the pixel: the palette colour of the recurrence time,
    /// or black when none was seen.
    pub fn color(&self) -> (r: Rgb)
        requires
            self.wf(),
        ensures
            r == search_color(self.observations()),
    {
        match self.found {
            Some(i) => recurrence_color(i),
            None => (0u8, 0u8, 0u8),
        }
    }
}

/// A search never holds more observations than its budget, and one that
/// has used its whole budget takes no more: driving a search until it is
/// done takes at most `budget` steps.
pub proof fn lemma_search_is_bounded(s: RecurrenceSearch)
    requires
        s.wf(),
    ensures
        s.observations().len() <= s.budget(),
        s.observations().len() == s.budget() ==> s.done(),
{
}

/// `i` is the least step after `MIN_RETURN_STEP` at which the bobs were
/// back near their starting positions.
pub open spec fn is_least_return(obs: Seq<bool>, i: nat) -> bool {
    &&& MIN_RETURN_STEP < i < obs.len()
    &&& obs[i as int]
    &&& forall|j: int| MIN_RETURN_STEP < j < i ==> !obs[j]
}

/// At no step after `MIN_RETURN_STEP` were the bobs back near their
/// starting positions.
pub open spec fn never_returned(obs: Seq<bool>) -> bool {
    forall|j: int| MIN_RETURN_STEP < j < obs.len() ==> !obs[j]
}

/// The recurrence time is the least step after `MIN_RETURN_STEP` at which
/// the bobs were back near their starting positions; there is none exactly
/// when no such step was observed.
pub proof fn lemma_first_return_is_least(obs: Seq<bool>)
    ensures
        match first_return(obs) {
            Some(i) => is_least_return(obs, i),
            None => never_returned(obs),
        },
    decreases obs.len(),
{
    if obs.len() > 0 {
        let prefix = obs.drop_last();
        lemma_first_return_is_least(prefix);
        assert forall|j: int| 0 <= j < prefix.len() implies prefix[j] == obs[j] by {}
        match first_return(prefix) {
            Some(i) => {
                assert(is_least_return(obs, i));
            },
            None => {
                if obs.last() && obs.len() - 1 > MIN_RETURN_STEP {
                    assert(is_least_return(obs, (obs.len() - 1) as nat));
                } else {
                    assert(never_returned(obs));
                }
            },
        }
    }
}

} // verus!
