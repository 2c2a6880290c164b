//! The pseudorandom source that every random choice of the library is drawn
//! from. It is seeded explicitly, so that a run can be repeated.

use vstd::prelude::*;
use crate::colors::Lab;
use crate::fixed::{sat32, saturate, UNIT};

verus! {

/// What `fastrand::Rng::u64` gives for the range from zero (inclusive) to
/// `bound` (exclusive) on a generator that holds the seed `state`.
pub uninterp spec fn drawn_number(state: u64, bound: u64) -> u64;

/// What `fastrand::Rng::get_seed` gives on a generator that held the seed
/// `state` and has made one draw below `bound`: the seed that the next draw
/// starts from.
pub uninterp spec fn seed_after(state: u64, bound: u64) -> u64;

/// The number drawn below `bound` from the seed `state`, and the seed after
/// the draw.
pub open spec fn generated(state: u64, bound: u64) -> (u64, u64) {
    (drawn_number(state, bound), seed_after(state, bound))
}

/// Makes a `fastrand::Rng` with the seed `state` (`Rng::with_seed`), draws
/// one `u64` below `bound` from it (`Rng::u64`), and hands back the number
/// and the seed that the generator is left with (`Rng::get_seed`). The
/// generator is a function of its seed alone, so the two are named; the
/// number is below `bound`, as the range asks. `Rng::u64` panics on an empty
/// range, which `bound > 0` leaves out.
#[verifier::external_body]
fn generate(state: u64, bound: u64) -> (r: (u64, u64))
    requires
        bound > 0,
    ensures
        r.0 == drawn_number(state, bound),
        r.1 == seed_after(state, bound),
        r.0 < bound,
{
    let mut generator = fastrand::Rng::with_seed(state);
    let value = generator.u64(0..bound);
    (value, generator.get_seed())
}

/// A pseudorandom source: the seed that the next draw starts from.
#[derive(Debug, Clone, Copy, PartialEq, Eq)]
pub struct RandomSource {
    state: u64,
}

impl View for RandomSource {
    type V = u64;

    closed spec fn view(&self) -> u64 {
        self.state
    }
}

/// A fraction drawn evenly from zero (inclusive) to one (exclusive), and the
/// seed after the draw.
pub open spec fn drawn_unit(state: u64) -> (int, u64) {
    let (value, next) = generated(state, UNIT as u64);
    (value as int, next)
}

/// A fraction drawn evenly from minus one (inclusive) to one (exclusive),
/// and the seed after the draw.
pub open spec fn drawn_spread(state: u64) -> (int, u64) {
    let (value, next) = generated(state, (2 * UNIT) as u64);
    (value - UNIT, next)
}

/// The colour that three draws stand for: the first, from zero to a
/// hundred, is the lightness; the others, from zero to 256, are the chroma
/// axes lifted by 128.
pub open spec fn color_of(l: u64, a: u64, b: u64) -> Lab {
    Lab {
        l: sat32(l as int) as i32,
        a: sat32(a - 128 * UNIT) as i32,
        b: sat32(b - 128 * UNIT) as i32,
    }
}

/// A colour drawn at random: the lightness from 0 to 100, each chroma axis
/// from -128 to 128, and the seed after the three draws.
pub open spec fn drawn_color(state: u64) -> (Lab, u64) {
    let (l, after_l) = generated(state, (100 * UNIT) as u64);
    let (a, after_a) = generated(after_l, (256 * UNIT) as u64);
    let (b, after_b) = generated(after_a, (256 * UNIT) as u64);
    (color_of(l, a, b), after_b)
}

impl RandomSource {
    /// The source that starts from `seed`.
    pub fn with_seed(seed: u64) -> (r: Self)
        ensures
            r@ == seed,
    {
        RandomSource { state: seed }
    }

    /// The seed that the next draw starts from.
    pub fn state(&self) -> (seed: u64)
        ensures
            seed == self@,
    {
        self.state
    }

    /// A number drawn evenly from zero (inclusive) to `bound` (exclusive).
    pub fn below(&mut self, bound: u64) -> (value: u64)
        requires
            bound > 0,
        ensures
            (value, final(self)@) == generated(old(self)@, bound),
            value < bound,
    {
        let (value, next) = generate(self.state, bound);
        self.state = next;
        value
    }

    /// An index drawn evenly from zero (inclusive) to `count` (exclusive).
    pub fn index(&mut self, count: usize) -> (value: usize)
        requires
            count > 0,
        ensures
            (value as u64, final(self)@) == generated(old(self)@, count as u64),
            value < count,
    {
        self.below(count as u64) as usize
    }

    /// A fraction drawn evenly from zero (inclusive) to one (exclusive).
    pub fn unit(&mut self) -> (value: i64)
        ensures
            (value as int, final(self)@) == drawn_unit(old(self)@),
            0 <= value < UNIT,
    {
        self.below(UNIT as u64) as i64
    }

    /// A fraction drawn evenly from minus one (inclusive) to one
    /// (exclusive).
    pub fn spread(&mut self) -> (value: i64)
        ensures
            (value as int, final(self)@) == drawn_spread(old(self)@),
            -UNIT <= value < UNIT,
    {
        self.below((2 * UNIT) as u64) as i64 - UNIT
    }
}

impl Lab {
    /// The colour that three draws stand for.
    pub fn drawn(l: u64, a: u64, b: u64) -> (r: Lab)
        ensures
            r == color_of(l, a, b),
    {
        Lab {
            l: saturate(l as i128),
            a: saturate(a as i128 - 128 * (UNIT as i128)),
            b: saturate(b as i128 - 128 * (UNIT as i128)),
        }
    }

    /// A colour drawn at random.
    pub fn random(source: &mut RandomSource) -> (r: Lab)
        ensures
            (r, final(source)@) == drawn_color(old(source)@),
    {
        let l = source.below((100 * UNIT) as u64);
        let a = source.below((256 * UNIT) as u64);
        let b = source.below((256 * UNIT) as u64);
        Self::drawn(l, a, b)
    }
}

} // verus!
