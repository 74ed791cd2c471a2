//! The injected source of randomness.
//!
//! The simulation never reaches for hidden process state: every update takes
//! a `RandomSource` by reference, so a deterministic source reproduces a run
//! exactly. `Lcg` is such a source, a plain linear congruential generator;
//! a host may implement the trait with any other generator.

use vstd::prelude::*;

verus! {

/// A supplier of uniformly distributed raw 32-bit draws. No behaviour is
/// promised of the values: the simulation is verified for every sequence of
/// draws.
pub trait RandomSource {
    /// The next raw draw.
    fn next_u32(&mut self) -> u32;
}

/// A linear congruential generator with the 64-bit constants of Knuth's
/// MMIX, handing out the upper bits of each step.
#[derive(Clone, Copy, PartialEq, Eq, Structural, Debug)]
pub struct Lcg {
    pub state: u64,
}

impl Lcg {
    /// A generator starting from `seed`.
    pub fn new(seed: u64) -> (r: Lcg)
        ensures
            r.state == seed,
    {
        Lcg { state: seed }
    }
}

impl RandomSource for Lcg {
    fn next_u32(&mut self) -> u32 {
        self.state = self.state.wrapping_mul(6364136223846793005).wrapping_add(1442695040888963407);
        (self.state >> 33) as u32
    }
}

/// A draw mapped uniformly-by-remainder onto the closed range `[lo, hi]`.
pub fn gen_range<R: RandomSource>(rng: &mut R, lo: i64, hi: i64) -> (r: i64)
    requires
        lo <= hi,
    ensures
        lo <= r <= hi,
{
    let a = rng.next_u32();
    let b = rng.next_u32();
    let x: u64 = ((a as u64) << 32) | (b as u64);
    let span: u128 = ((hi as i128) - (lo as i128) + 1) as u128;
    let off: u128 = (x as u128) % span;
    proof {
        assert(off < span) by (nonlinear_arith)
            requires
                off == (x as u128) as int % (span as int),
                span > 0,
        ;
    }
    ((lo as i128) + (off as i128)) as i64
}

} // verus!
