//! The decisions of one ternary search run: when to stop and which third to
//! drop. The caller holds the numeric bracket, evaluates the objective, and
//! reports each outcome here.
use vstd::prelude::*;
use crate::bracket::{Narrow, ScaledBracket, after, lemma_width_after, narrow_for};
use vstd::arithmetic::power::pow;

verus! {

/// What a search run has done so far.
pub struct SearchView {
    pub iterations: int,
    pub max_iterations: int,
    /// The step taken at each iteration, in order.
    pub steps: Seq<Narrow>,
}

impl SearchView {
    /// One step per iteration, and never more iterations than the cap allows.
    pub open spec fn wf(self) -> bool {
        &&& self.iterations == self.steps.len()
        &&& self.iterations == 0 || self.iterations <= self.max_iterations
    }

    /// Whether the loop runs another iteration, given whether the bracket is
    /// still wider than the tolerance.
    pub open spec fn continues(self, wider_than_eps: bool) -> bool {
        wider_than_eps && self.iterations < self.max_iterations
    }
}

/// The state of one search run.
pub struct Search {
    iterations: i32,
    max_iterations: i32,
    steps: Ghost<Seq<Narrow>>,
}

impl View for Search {
    type V = SearchView;

    closed spec fn view(&self) -> SearchView {
        SearchView {
            iterations: self.iterations as int,
            max_iterations: self.max_iterations as int,
            steps: self.steps@,
        }
    }
}

/// The step for a comparison outcome: `ml_is_lower` is whether `f(ml) < f(mr)`
/// holds strictly.
pub fn choose_narrowing(ml_is_lower: bool) -> (r: Narrow)
    ensures
        r == narrow_for(ml_is_lower),
{
    if ml_is_lower {
        Narrow::DropRight
    } else {
        Narrow::DropLeft
    }
}

impl Search {
    /// A run that has made no iteration yet and may make at most
    /// `max_iterations` (none if it is not positive).
    pub fn new(max_iterations: i32) -> (s: Search)
        ensures
            s@.wf(),
            s@.iterations == 0,
            s@.max_iterations == max_iterations,
            s@.steps == Seq::<Narrow>::empty(),
    {
        Search { iterations: 0, max_iterations, steps: Ghost(Seq::empty()) }
    }

    /// The number of iterations made so far.
    pub fn iterations(&self) -> (r: i32)
        ensures
            r == self@.iterations,
    {
        self.iterations
    }

    /// The cap on iterations this run was made with.
    pub fn max_iterations(&self) -> (r: i32)
        ensures
            r == self@.max_iterations,
    {
        self.max_iterations
    }

    /// Whether to run another iteration: the bracket is still wider than the
    /// tolerance and the cap is not reached.
    pub fn should_continue(&self, wider_than_eps: bool) -> (r: bool)
        ensures
            r == self@.continues(wider_than_eps),
    {
        wider_than_eps && self.iterations < self.max_iterations
    }

    /// Records one iteration whose comparison came out as `ml_is_lower`, and
    /// returns the third to drop.
    pub fn advance(&mut self, ml_is_lower: bool) -> (r: Narrow)
        requires
            old(self)@.wf(),
            old(self)@.iterations < old(self)@.max_iterations,
        ensures
            r == narrow_for(ml_is_lower),
            final(self)@.wf(),
            final(self)@.iterations == old(self)@.iterations + 1,
            final(self)@.max_iterations == old(self)@.max_iterations,
            final(self)@.steps == old(self)@.steps.push(r),
    {
        let r = choose_narrowing(ml_is_lower);
        self.iterations = self.iterations + 1;
        self.steps = Ghost(self.steps@.push(r));
        r
    }
}

/// A run never makes more iterations than its cap, and none at all when the
/// cap is not positive: it then stops at once, whatever the width, and its
/// bracket is still the starting one.
pub proof fn lemma_iteration_cap(s: SearchView, left: int, right: int, wider_than_eps: bool)
    requires
        s.wf(),
    ensures
        0 <= s.iterations,
        s.max_iterations > 0 ==> s.iterations <= s.max_iterations,
        s.max_iterations <= 0 ==> s.iterations == 0,
        s.max_iterations <= 0 ==> !s.continues(wider_than_eps),
        s.max_iterations <= 0 ==> after(left, right, s.steps) == ScaledBracket::start(left, right),
{
}

/// After a run of `k` iterations from `[left, right]` the bracket is `k`
/// scales finer and its width is `2^k` times the starting width: as a length,
/// the starting width times `(2/3)^k`, whatever the comparisons gave.
pub proof fn lemma_run_width(s: SearchView, left: int, right: int)
    requires
        s.wf(),
    ensures
        after(left, right, s.steps).scale == s.iterations,
        after(left, right, s.steps).width() == pow(2, s.iterations as nat) * (right - left),
{
    lemma_width_after(left, right, s.steps);
}

} // verus!
