//! An exact model of the bracket that ternary search narrows.
//!
//! After `k` steps every end point of the bracket is an integer multiple of
//! `3^-k` times the unit of the starting bracket. A `ScaledBracket` stores the
//! two end points as those integer multiples, so that splitting into thirds
//! needs no division and no rounding.
use vstd::prelude::*;
use vstd::arithmetic::power::pow;

verus! {

/// Which third of the bracket one step drops.
#[derive(Clone, Copy, Debug, PartialEq, Eq, Structural)]
pub enum Narrow {
    /// The value at the left split point was lower: keep `[left, mr]`.
    DropRight,
    /// The value at the left split point was not lower: keep `[ml, right]`.
    DropLeft,
}

/// The step taken for a comparison outcome: a strict `f(ml) < f(mr)` keeps
/// the left part, anything else (ties included) keeps the right part.
pub open spec fn narrow_for(ml_is_lower: bool) -> Narrow {
    if ml_is_lower {
        Narrow::DropRight
    } else {
        Narrow::DropLeft
    }
}

/// The bracket `[left / 3^scale, right / 3^scale]`.
pub struct ScaledBracket {
    pub left: int,
    pub right: int,
    pub scale: nat,
}

impl ScaledBracket {
    /// The starting bracket `[left, right]`, in whole units.
    pub open spec fn start(left: int, right: int) -> ScaledBracket {
        ScaledBracket { left, right, scale: 0 }
    }

    /// The width of the bracket, in units of `3^-scale`.
    pub open spec fn width(self) -> int {
        self.right - self.left
    }

    /// The left split point `(2 left + right) / 3`, in units of `3^-(scale + 1)`.
    pub open spec fn left_third(self) -> int {
        2 * self.left + self.right
    }

    /// The right split point `(left + 2 right) / 3`, in units of `3^-(scale + 1)`.
    pub open spec fn right_third(self) -> int {
        self.left + 2 * self.right
    }

    /// The bracket after one step, one scale finer.
    pub open spec fn narrow(self, n: Narrow) -> ScaledBracket {
        match n {
            Narrow::DropRight => ScaledBracket {
                left: 3 * self.left,
                right: self.right_third(),
                scale: self.scale + 1,
            },
            Narrow::DropLeft => ScaledBracket {
                left: self.left_third(),
                right: 3 * self.right,
                scale: self.scale + 1,
            },
        }
    }
}

/// The bracket reached from `[left, right]` by the steps `steps`, in order.
pub open spec fn after(left: int, right: int, steps: Seq<Narrow>) -> ScaledBracket
    decreases steps.len(),
{
    if steps.len() == 0 {
        ScaledBracket::start(left, right)
    } else {
        after(left, right, steps.drop_last()).narrow(steps.last())
    }
}

/// After `k` steps the bracket is `k` scales finer and its width is the
/// starting width times `2^k`; as a length that is the starting width times
/// `(2/3)^k`, whichever thirds were dropped.
pub proof fn lemma_width_after(left: int, right: int, steps: Seq<Narrow>)
    ensures
        after(left, right, steps).scale == steps.len(),
        after(left, right, steps).width() == pow(2, steps.len()) * (right - left),
    decreases steps.len(),
{
    reveal(pow);
    if steps.len() > 0 {
        let k = (steps.len() - 1) as nat;
        lemma_width_after(left, right, steps.drop_last());
        let b = after(left, right, steps.drop_last());
        assert(after(left, right, steps).width() == 2 * b.width());
        let p = pow(2, k);
        assert(pow(2, steps.len()) == 2 * p);
        assert(2 * (p * (right - left)) == (2 * p) * (right - left)) by (nonlinear_arith);
    }
}

/// One step never widens the bracket and keeps it inside the one before:
/// both ends move inward (measured one scale finer) and the width, as a
/// length, does not grow.
pub proof fn lemma_narrow_nested(b: ScaledBracket, n: Narrow)
    requires
        b.left <= b.right,
    ensures
        b.narrow(n).scale == b.scale + 1,
        3 * b.left <= b.narrow(n).left,
        b.narrow(n).left <= b.narrow(n).right,
        b.narrow(n).right <= 3 * b.right,
        b.narrow(n).width() <= 3 * b.width(),
{
}

/// Along a whole run from a bracket with `left <= right`, each iteration's
/// bracket lies inside the previous one and is no wider.
pub proof fn lemma_width_non_increasing(left: int, right: int, steps: Seq<Narrow>)
    requires
        left <= right,
        steps.len() > 0,
    ensures
        3 * after(left, right, steps.drop_last()).left <= after(left, right, steps).left,
        after(left, right, steps).left <= after(left, right, steps).right,
        after(left, right, steps).right <= 3 * after(left, right, steps.drop_last()).right,
        after(left, right, steps).width() <= 3 * after(left, right, steps.drop_last()).width(),
{
    lemma_width_after(left, right, steps.drop_last());
    reveal(pow);
    vstd::arithmetic::power::lemma_pow_positive(2, (steps.len() - 1) as nat);
    let p = pow(2, (steps.len() - 1) as nat);
    assert(p * (right - left) >= 0) by (nonlinear_arith)
        requires
            p > 0,
            right - left >= 0,
    ;
    lemma_narrow_nested(after(left, right, steps.drop_last()), steps.last());
}

/// `k` steps that all came from ties (`f(ml) < f(mr)` false each time).
pub open spec fn tie_steps(k: nat) -> Seq<Narrow> {
    Seq::new(k, |i: int| narrow_for(false))
}

/// When every comparison ties, the right end never moves and the left end
/// moves right at every iteration.
pub proof fn lemma_ties_shrink_from_left(left: int, right: int, k: nat)
    requires
        left < right,
    ensures
        after(left, right, tie_steps(k)).right == right * pow(3, k),
        k > 0 ==> after(left, right, tie_steps(k)).left > 3 * after(
            left,
            right,
            tie_steps((k - 1) as nat),
        ).left,
    decreases k,
{
    reveal(pow);
    if k > 0 {
        let j = (k - 1) as nat;
        assert(tie_steps(k).drop_last() =~= tie_steps(j));
        lemma_ties_shrink_from_left(left, right, j);
        lemma_width_non_increasing(left, right, tie_steps(k));
        lemma_width_after(left, right, tie_steps(j));
        vstd::arithmetic::power::lemma_pow_positive(2, j);
        let b = after(left, right, tie_steps(j));
        assert(b.width() > 0) by (nonlinear_arith)
            requires
                b.width() == pow(2, j) * (right - left),
                pow(2, j) > 0,
                right - left > 0,
        ;
        assert(right * pow(3, k) == 3 * (right * pow(3, j))) by (nonlinear_arith)
            requires
                pow(3, k) == 3 * pow(3, j),
        ;
    }
}

/// `f` falls strictly up to `m` and rises strictly from `m` on.
pub open spec fn unimodal_at(f: spec_fn(int) -> int, m: int) -> bool {
    forall|x: int, y: int|
        #![trigger f(x), f(y)]
        (x < y <= m ==> f(x) > f(y)) && (m <= x < y ==> f(x) < f(y))
}

/// Dropping the third that the comparison rules out keeps the minimizer: for
/// `f` unimodal with its minimum at `m` (positions one scale finer than `b`,
/// where the split points are whole numbers), if `m` lies in `b` it lies in
/// the narrowed bracket too.
pub proof fn lemma_narrow_keeps_minimizer(b: ScaledBracket, f: spec_fn(int) -> int, m: int)
    requires
        b.left <= b.right,
        unimodal_at(f, m),
        3 * b.left <= m <= 3 * b.right,
    ensures
        ({
            let n = b.narrow(narrow_for(f(b.left_third()) < f(b.right_third())));
            n.left <= m <= n.right
        }),
{
    let ml = b.left_third();
    let mr = b.right_third();
    if f(ml) < f(mr) {
        if m > mr {
            assert(f(ml) > f(mr));
        }
    } else {
        if m < ml {
            assert(f(ml) < f(mr));
        }
    }
}

} // verus!
