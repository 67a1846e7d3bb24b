use vstd::prelude::*;

verus! {

/// One xorshift round over 64 bits.
pub open spec fn spec_next_seed(s: u64) -> u64 {
    let a = s ^ (s << 13);
    let b = a ^ (a >> 17);
    b ^ (b << 43)
}

/// The draw produced from a freshly advanced seed, mapped into
/// `min ..= max`.
pub open spec fn spec_draw(seed: u64, min: u64, max: u64) -> int {
    min + (spec_next_seed(seed) as int) % (max - min + 1)
}

/// Deterministic, per-worker pseudo-random number source: an xorshift
/// generator whose whole behaviour is a function of the seed it was given.
/// Every worker derives its own seed from the configured base seed.
pub struct Rng {
    pub seed: u64,
    pub exp_disabled: bool,
}

/// The seed of the worker at `index`: the base seed advanced by the worker
/// index, wrapping at the integer boundary.
pub fn derive_seed(base: u64, index: u64) -> (r: u64)
    ensures
        r == (base + index) % (u64::MAX + 1),
{
    base.wrapping_add(index)
}

impl Rng {
    /// A generator at the given seed.
    pub fn new(seed: u64) -> (r: Rng)
        ensures
            r.seed == seed,
            !r.exp_disabled,
    {
        Rng { seed, exp_disabled: false }
    }

    /// Draws an integer in `min ..= max`, advancing the seed by one
    /// xorshift round. The draw is a function of the seed alone.
    pub fn rand(&mut self, min: u64, max: u64) -> (r: u64)
        requires
            min <= max,
            max - min < u64::MAX,
        ensures
            final(self).seed == spec_next_seed(old(self).seed),
            final(self).exp_disabled == old(self).exp_disabled,
            r == spec_draw(old(self).seed, min, max),
            min <= r <= max,
    {
        let a = self.seed ^ (self.seed << 13u64);
        let b = a ^ (a >> 17u64);
        self.seed = b ^ (b << 43u64);
        let range = (max - min) + 1;
        min + self.seed % range
    }

    /// Draws an index below `n`, advancing the seed by one xorshift round.
    pub fn rand_index(&mut self, n: usize) -> (r: usize)
        requires
            n > 0,
        ensures
            final(self).seed == spec_next_seed(old(self).seed),
            final(self).exp_disabled == old(self).exp_disabled,
            r == spec_draw(old(self).seed, 0, (n - 1) as u64),
            r < n,
    {
        let v = self.rand(0, (n - 1) as u64);
        proof {
            assert(v < n);
        }
        v as usize
    }
}


} // verus!
