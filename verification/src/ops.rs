//! Two operations that the candidates share: the random change of a value
//! and the difference between two pictures.

use vstd::prelude::*;
use crate::colors::Lab;
use crate::fixed::{div_floor, sat32, saturate, UNIT};
use crate::random::{drawn_spread, RandomSource};

verus! {

/// The share `spread` (a fraction between minus one and one) of
/// `amplitude`, rounded down.
pub open spec fn noise(spread: int, amplitude: int) -> int {
    spread * amplitude / (UNIT as int)
}

/// `value` moved by the share `spread` of `amplitude`, kept inside what an
/// `i32` holds.
pub open spec fn moved_spec(value: i32, spread: int, amplitude: int) -> i32 {
    sat32(value + noise(spread, amplitude)) as i32
}

/// `value` moved by a share of `amplitude` drawn evenly between minus one
/// and one, and the seed after the draw.
pub open spec fn changed_spec(value: i32, amplitude: int, state: u64) -> (i32, u64) {
    let (spread, next) = drawn_spread(state);
    (moved_spec(value, spread, amplitude), next)
}

/// The sum of the distances between the first `count` colours of `a` and
/// those of `b`, pair by pair.
pub open spec fn distance_sum(a: Seq<Lab>, b: Seq<Lab>, count: nat) -> int
    decreases count,
{
    if count == 0 {
        0
    } else {
        distance_sum(a, b, (count - 1) as nat) + a[count - 1].distance_spec(b[count - 1])
    }
}

/// The sum of the distances between the colours of `a` and those of `b`,
/// pair by pair, as far as the shorter of the two goes.
pub open spec fn difference_spec(a: Seq<Lab>, b: Seq<Lab>) -> int {
    distance_sum(a, b, if a.len() <= b.len() { a.len() } else { b.len() })
}

/// The namespace of the two operations.
pub struct UsefulOps;

impl UsefulOps {
    /// `value` moved by the share `spread` (a fraction, in units of
    /// `1 / UNIT`) of `amplitude`.
    pub fn moved(value: i32, spread: i64, amplitude: u64) -> (r: i32)
        ensures
            r == moved_spec(value, spread as int, amplitude as int),
    {
        assert(-0x8000_0000_0000_0000 * 0xffff_ffff_ffff_ffff <= spread * amplitude
            <= 0x7fff_ffff_ffff_ffff * 0xffff_ffff_ffff_ffff) by (nonlinear_arith)
            requires
                -0x8000_0000_0000_0000 <= spread <= 0x7fff_ffff_ffff_ffff,
                0 <= amplitude <= 0xffff_ffff_ffff_ffff,
        ;
        let product: i128 = spread as i128 * amplitude as i128;
        proof {
            crate::fixed::lemma_div_magnitude(product as int, UNIT as int);
        }
        let shift = div_floor(product, UNIT as i128);
        saturate(value as i128 + shift)
    }

    /// `value` moved by a random share, between minus one and one, of
    /// `amplitude`.
    pub fn changed(value: i32, amplitude: u64, source: &mut RandomSource) -> (r: i32)
        ensures
            (r, final(source)@) == changed_spec(value, amplitude as int, old(source)@),
    {
        let spread = source.spread();
        Self::moved(value, spread, amplitude)
    }

    /// The sum of the distances between the colours of `a` and those of
    /// `b`, pair by pair, as far as the shorter of the two goes.
    pub fn image_difference(a: &[Lab], b: &[Lab]) -> (total: u128)
        ensures
            total == difference_spec(a@, b@),
    {
        let count = if a.len() <= b.len() { a.len() } else { b.len() };
        let mut total: u128 = 0;
        let mut index: usize = 0;
        while index < count
            invariant
                index <= count,
                count <= a@.len(),
                count <= b@.len(),
                total == distance_sum(a@, b@, index as nat),
                total <= index * 0xffff_ffff_ffff_ffff,
            decreases count - index,
        {
            let distance = a[index].distance(b[index]);
            total = total + distance as u128;
            index = index + 1;
        }
        total
    }
}

} // verus!
