//! A seeded xorshift generator with a uniform and a boundary-biased draw.
use vstd::prelude::*;

verus! {

/// The xorshift state transition.
pub open spec fn xorshift(s: u64) -> u64 {
    let a = s ^ (s << 13u64);
    let b = a ^ (a >> 17u64);
    b ^ (b << 43u64)
}

/// The value a uniform draw in `[min, max]` yields from the state `s`.
pub open spec fn pick(s: u64, min: u64, max: u64) -> u64 {
    if min == max {
        min
    } else if min == 0 && max == u64::MAX {
        s
    } else {
        (min + s % ((max - min + 1) as u64)) as u64
    }
}

/// The state after a uniform draw in `[min, max]` from the state `s`.
pub open spec fn after_pick(s: u64, min: u64, max: u64) -> u64 {
    if min == max {
        s
    } else {
        xorshift(s)
    }
}

/// The value and the state that a boundary-biased draw in `[min, max]` yields:
/// half of the time a uniform draw, else a uniform draw below a uniform draw.
pub open spec fn pick_exp(s: u64, min: u64, max: u64) -> (u64, u64) {
    let coin = pick(s, 0, 1);
    let s1 = after_pick(s, 0, 1);
    if coin == 0 {
        (pick(s1, min, max), after_pick(s1, min, max))
    } else {
        let x = pick(s1, min, max);
        let s2 = after_pick(s1, min, max);
        (pick(s2, min, x), after_pick(s2, min, x))
    }
}

/// A uniform draw lies in its interval.
pub proof fn lemma_pick_bounds(s: u64, min: u64, max: u64)
    requires
        min <= max,
    ensures
        min <= pick(s, min, max) <= max,
{
    if min != max && !(min == 0 && max == u64::MAX) {
        let k = (max - min + 1) as u64;
        assert(s % k < k) by (nonlinear_arith)
            requires
                k > 0,
        ;
    }
}

/// A boundary-biased draw lies in its interval.
pub proof fn lemma_pick_exp_bounds(s: u64, min: u64, max: u64)
    requires
        min <= max,
    ensures
        min <= pick_exp(s, min, max).0 <= max,
{
    let s1 = after_pick(s, 0, 1);
    lemma_pick_bounds(s1, min, max);
    let x = pick(s1, min, max);
    lemma_pick_bounds(after_pick(s1, min, max), min, x);
}

/// A seeded pseudo-random generator.
pub struct Rng {
    pub seed: u64,
    /// When set, the boundary-biased draw is uniform.
    pub exp_disabled: bool,
}

impl Rng {
    /// Returns the current state and advances it.
    pub fn next(&mut self) -> (r: u64)
        ensures
            r == old(self).seed,
            final(self).seed == xorshift(old(self).seed),
            final(self).exp_disabled == old(self).exp_disabled,
    {
        let val = self.seed;
        self.seed = self.seed ^ (self.seed << 13u64);
        self.seed = self.seed ^ (self.seed >> 17u64);
        self.seed = self.seed ^ (self.seed << 43u64);
        val
    }

    /// A uniform draw in the closed interval `[min, max]`.
    pub fn rand(&mut self, min: u64, max: u64) -> (r: u64)
        requires
            min <= max,
        ensures
            r == pick(old(self).seed, min, max),
            min <= r <= max,
            final(self).seed == after_pick(old(self).seed, min, max),
            final(self).exp_disabled == old(self).exp_disabled,
    {
        proof {
            lemma_pick_bounds(self.seed, min, max);
        }
        if min == max {
            return min;
        }
        if min == 0 && max == u64::MAX {
            return self.next();
        }
        let s = self.next();
        min + s % (max - min + 1)
    }

    /// A draw in `[min, max]` biased toward `min`, uniform when `exp_disabled` is set.
    pub fn rand_exp(&mut self, min: u64, max: u64) -> (r: u64)
        requires
            min <= max,
        ensures
            min <= r <= max,
            old(self).exp_disabled ==> r == pick(old(self).seed, min, max)
                && final(self).seed == after_pick(old(self).seed, min, max),
            !old(self).exp_disabled ==> (r, final(self).seed) == pick_exp(
                old(self).seed,
                min,
                max,
            ),
            final(self).exp_disabled == old(self).exp_disabled,
    {
        if self.exp_disabled {
            return self.rand(min, max);
        }
        if self.rand(0, 1) == 0 {
            self.rand(min, max)
        } else {
            let x = self.rand(min, max);
            self.rand(min, x)
        }
    }
}

} // verus!
