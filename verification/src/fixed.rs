//! Fixed-point arithmetic: rounding division, saturation, integer square
//! root and the sine and cosine approximation used to rotate overlays.

use vstd::prelude::*;

verus! {

/// The value one. A fraction `f` is held as the integer `f * UNIT`.
pub const UNIT: i64 = 1_000_000;

/// Half a turn (the angle pi), in millionths of a radian, rounded to an even
/// number so that a quarter turn is an integer too.
pub const HALF_TURN: i64 = 3_141_592;

/// A quarter turn.
pub const QUARTER_TURN: i64 = 1_570_796;

/// A full turn.
pub const FULL_TURN: i64 = 6_283_184;

/// `x` limited to the range from `low` to `high`.
pub open spec fn clamp(x: int, low: int, high: int) -> int {
    if x < low {
        low
    } else if x > high {
        high
    } else {
        x
    }
}

/// `x` limited to what an `i32` holds.
pub open spec fn sat32(x: int) -> int {
    clamp(x, i32::MIN as int, i32::MAX as int)
}

/// The quotient `n / d` rounded to the nearest integer, halves upwards.
pub open spec fn div_round(n: int, d: int) -> int
    recommends
        d > 0,
{
    (n + d / 2) / d
}

/// The quotient `n / d` rounded upwards.
pub open spec fn div_ceil(n: int, d: int) -> int
    recommends
        d > 0,
{
    (n + d - 1) / d
}

/// A floored quotient by a positive divisor is no larger in magnitude than
/// the dividend.
pub proof fn lemma_div_magnitude(n: int, d: int)
    by (nonlinear_arith)
    requires
        d > 0,
    ensures
        n >= 0 ==> 0 <= n / d <= n,
        n < 0 ==> n <= n / d < 0,
{
}

/// A dividend between two multiples of the divisor has its quotient between
/// the two factors.
pub proof fn lemma_div_between(a: int, low: int, high: int, d: int)
    by (nonlinear_arith)
    requires
        d > 0,
        low * d <= a < high * d,
    ensures
        low <= a / d < high,
{
}

/// A multiple of the divisor plus a remainder below it divides exactly.
pub proof fn lemma_div_exact(q: int, r: int, d: int)
    by (nonlinear_arith)
    requires
        d > 0,
        0 <= r < d,
    ensures
        (q * d + r) / d == q,
        (q * d + r) % d == r,
{
}

/// `x` limited to what an `i32` holds.
pub fn saturate(x: i128) -> (r: i32)
    ensures
        r == sat32(x as int),
{
    if x < i32::MIN as i128 {
        i32::MIN
    } else if x > i32::MAX as i128 {
        i32::MAX
    } else {
        x as i32
    }
}

/// Floored division by a positive divisor.
pub fn div_floor(n: i128, d: i128) -> (q: i128)
    requires
        d > 0,
    ensures
        q == n as int / d as int,
{
    proof {
        lemma_div_magnitude(n as int, d as int);
    }
    match n.checked_div_euclid(d) {
        Some(q) => q,
        None => 0,
    }
}

/// Division by a positive divisor, rounded downwards.
pub fn floored_div(n: i64, d: i64) -> (q: i64)
    requires
        d > 0,
    ensures
        q == n as int / d as int,
        n >= 0 ==> 0 <= q <= n,
        n < 0 ==> n <= q < 0,
{
    proof {
        lemma_div_magnitude(n as int, d as int);
    }
    div_floor(n as i128, d as i128) as i64
}

/// Division by a positive divisor, rounded to the nearest integer.
pub fn rounded_div(n: i64, d: i64) -> (q: i64)
    requires
        d > 0,
    ensures
        q == div_round(n as int, d as int),
        n >= 0 ==> 0 <= q <= n,
        n < 0 ==> n <= q <= 0,
{
    proof {
        let low: int = if n < 0 { n as int } else { 0 };
        let high: int = if n < 0 { 1 } else { n + 1 };
        assert(low * d <= n + d / 2 < high * d) by (nonlinear_arith)
            requires
                d > 0,
                0 <= d / 2 < d,
                low == if n < 0 { n as int } else { 0 },
                high == if n < 0 { 1 } else { n + 1 },
        ;
        lemma_div_between(n + d / 2, low, high, d as int);
    }
    let q = div_floor(n as i128 + (d / 2) as i128, d as i128);
    q as i64
}

/// Division by a positive divisor, rounded upwards.
pub fn ceiling_div(n: i64, d: i64) -> (q: i64)
    requires
        d > 0,
    ensures
        q == div_ceil(n as int, d as int),
        n >= 0 ==> 0 <= q <= n,
        n < 0 ==> n <= q <= 0,
{
    proof {
        let low: int = if n < 0 { n as int } else { 0 };
        let high: int = if n < 0 { 1 } else { n + 1 };
        assert(low * d <= n + d - 1 < high * d) by (nonlinear_arith)
            requires
                d > 0,
                low == if n < 0 { n as int } else { 0 },
                high == if n < 0 { 1 } else { n + 1 },
        ;
        lemma_div_between(n + d - 1, low, high, d as int);
    }
    let q = div_floor(n as i128 + d as i128 - 1, d as i128);
    q as i64
}

/// `r` is the square root of `n`, rounded down.
pub open spec fn is_root(n: int, r: int) -> bool {
    0 <= r && r * r <= n < (r + 1) * (r + 1)
}

/// The square root of `n`, rounded down. It is meant for an `n` that is not
/// negative.
pub closed spec fn integer_sqrt(n: int) -> int {
    choose|r: int| #[trigger] is_root(n, r)
}

/// Every number from zero on has a rounded-down square root.
proof fn lemma_root_exists(n: int)
    requires
        n >= 0,
    ensures
        exists|r: int| #[trigger] is_root(n, r),
    decreases n,
{
    if n == 0 {
        assert(is_root(0, 0));
    } else {
        lemma_root_exists(n - 1);
        let r = choose|r: int| #[trigger] is_root(n - 1, r);
        if (r + 1) * (r + 1) <= n {
            assert((r + 1) * (r + 1) < (r + 1 + 1) * (r + 1 + 1)) by (nonlinear_arith)
                requires
                    r >= 0,
            ;
            assert(is_root(n, r + 1));
        } else {
            assert(is_root(n, r));
        }
    }
}

/// A number has one rounded-down square root only.
proof fn lemma_root_unique(n: int, a: int, b: int)
    by (nonlinear_arith)
    requires
        0 <= a,
        0 <= b,
        a * a <= n < (a + 1) * (a + 1),
        b * b <= n < (b + 1) * (b + 1),
    ensures
        a == b,
{
    if a < b {
        assert((a + 1) * (a + 1) <= b * b);
    } else if b < a {
        assert((b + 1) * (b + 1) <= a * a);
    }
}

/// The rounded-down square root of a number from zero on is the one number
/// whose square is at most `n` while the square of its successor is above
/// `n`.
pub proof fn lemma_integer_sqrt(n: int, r: int)
    requires
        n >= 0,
    ensures
        is_root(n, integer_sqrt(n)),
        is_root(n, r) ==> integer_sqrt(n) == r,
{
    lemma_root_exists(n);
    if is_root(n, r) {
        lemma_root_unique(n, integer_sqrt(n), r);
    }
}

/// The square root of `n`, rounded down.
pub fn isqrt(n: u128) -> (r: u64)
    ensures
        r == integer_sqrt(n as int),
        is_root(n as int, r as int),
{
    let mut low: u128 = 0;
    // A power of two whose square is above `n`, the smaller the sooner the
    // search ends.
    let mut high: u128 = if n < 0x1_0000_0000 {
        0x1_0000
    } else if n < 0x1_0000_0000_0000_0000 {
        0x1_0000_0000
    } else if n < 0x1_0000_0000_0000_0000_0000_0000 {
        0x1_0000_0000_0000
    } else {
        0x1_0000_0000_0000_0000
    };
    assert(high * high > n) by (nonlinear_arith)
        requires
            n <= u128::MAX,
            high == 0x1_0000 && n < 0x1_0000_0000 || high == 0x1_0000_0000 && n
                < 0x1_0000_0000_0000_0000 || high == 0x1_0000_0000_0000 && n
                < 0x1_0000_0000_0000_0000_0000_0000 || high == 0x1_0000_0000_0000_0000,
    ;
    while high - low > 1
        invariant
            low < high <= 0x1_0000_0000_0000_0000,
            low * low <= n < high * high,
        decreases high - low,
    {
        let mid = low + (high - low) / 2;
        assert(mid * mid <= 0xffff_ffff_ffff_ffff * 0xffff_ffff_ffff_ffff) by (nonlinear_arith)
            requires
                0 <= mid <= 0xffff_ffff_ffff_ffff,
        ;
        if mid * mid <= n {
            low = mid;
        } else {
            high = mid;
        }
    }
    proof {
        lemma_integer_sqrt(n as int, low as int);
    }
    low as u64
}

/// The cube of a number.
pub open spec fn cube(x: int) -> int {
    x * x * x
}

/// `r` is the cube root of `n`, rounded down.
pub open spec fn is_cube_root(n: int, r: int) -> bool {
    0 <= r && cube(r) <= n < cube(r + 1)
}

/// The cube root of `n`, rounded down. It is meant for an `n` that is not
/// negative.
pub closed spec fn integer_cbrt(n: int) -> int {
    choose|r: int| #[trigger] is_cube_root(n, r)
}

/// Cubes grow with their roots.
pub proof fn lemma_cube_monotone(a: int, b: int)
    by (nonlinear_arith)
    requires
        0 <= a <= b,
    ensures
        cube(a) <= cube(b),
        a < b ==> cube(a) < cube(b),
        cube(a + 1) == cube(a) + 3 * (a * a) + 3 * a + 1,
{
    assert(a * a <= b * b);
    assert(a * a * a <= b * b * b);
    if a < b {
        assert(a * a * a < b * b * b) by {
            assert(a * a * a <= a * a * b);
            assert(a * a * b <= a * b * b);
            assert(a * b * b < b * b * b || b == 0 || a == b);
        }
    }
}

/// Every number from zero on has a rounded-down cube root.
proof fn lemma_cube_root_exists(n: int)
    requires
        n >= 0,
    ensures
        exists|r: int| #[trigger] is_cube_root(n, r),
    decreases n,
{
    if n == 0 {
        assert(is_cube_root(0, 0));
    } else {
        lemma_cube_root_exists(n - 1);
        let r = choose|r: int| #[trigger] is_cube_root(n - 1, r);
        if cube(r + 1) <= n {
            lemma_cube_monotone(r + 1, r + 2);
            assert(is_cube_root(n, r + 1));
        } else {
            assert(is_cube_root(n, r));
        }
    }
}

/// The rounded-down cube root of a number from zero on is the one number
/// whose cube is at most `n` while the cube of its successor is above `n`.
pub proof fn lemma_integer_cbrt(n: int, r: int)
    requires
        n >= 0,
    ensures
        is_cube_root(n, integer_cbrt(n)),
        is_cube_root(n, r) ==> integer_cbrt(n) == r,
{
    lemma_cube_root_exists(n);
    let found = integer_cbrt(n);
    if is_cube_root(n, r) {
        if found < r {
            lemma_cube_monotone(found + 1, r);
        } else if r < found {
            lemma_cube_monotone(r + 1, found);
        }
    }
}

/// The cube root of `n`, rounded down.
pub fn icbrt(n: u64) -> (r: u64)
    ensures
        r == integer_cbrt(n as int),
        is_cube_root(n as int, r as int),
{
    let mut low: u64 = 0;
    let mut high: u64 = 0x40_0000;
    assert(cube(0x40_0000) > n) by (nonlinear_arith)
        requires
            n <= 0xffff_ffff_ffff_ffff,
            cube(0x40_0000) == 0x40_0000 * 0x40_0000 * 0x40_0000,
    ;
    while high - low > 1
        invariant
            low < high <= 0x40_0000,
            cube(low as int) <= n < cube(high as int),
        decreases high - low,
    {
        let mid = low + (high - low) / 2;
        assert(mid * mid <= 0x40_0000 * 0x40_0000 && mid * mid * mid <= 0x40_0000 * 0x40_0000
            * 0x40_0000) by (nonlinear_arith)
            requires
                0 <= mid <= 0x40_0000,
        ;
        let cubed: u128 = (mid as u128) * (mid as u128) * (mid as u128);
        if cubed <= n as u128 {
            low = mid;
        } else {
            high = mid;
        }
    }
    proof {
        lemma_integer_cbrt(n as int, low as int);
    }
    low
}

/// The sine of an angle between zero and half a turn, in units of
/// `1 / UNIT`, by the rational approximation `16 p / (5 pi^2 - 4 p)` with
/// `p = x (pi - x)`. It is exact at zero, a quarter turn and half a turn.
pub open spec fn half_wave(x: int) -> int
    recommends
        0 <= x <= HALF_TURN,
{
    let p = x * (HALF_TURN - x);
    (16 * p * UNIT) / (5 * HALF_TURN * HALF_TURN - 4 * p)
}

/// The sine of `angle` (millionths of a radian), in units of `1 / UNIT`.
pub open spec fn sine_spec(angle: int) -> int {
    let turn = angle % (FULL_TURN as int);
    if turn <= HALF_TURN {
        half_wave(turn)
    } else {
        -half_wave(turn - HALF_TURN)
    }
}

/// The cosine of `angle` (millionths of a radian), in units of `1 / UNIT`.
pub open spec fn cosine_spec(angle: int) -> int {
    sine_spec(angle + QUARTER_TURN)
}

/// The product `x (pi - x)` is greatest at a quarter turn.
proof fn lemma_half_wave_product(x: int)
    by (nonlinear_arith)
    requires
        0 <= x <= 3_141_592,
    ensures
        0 <= x * (3_141_592 - x) <= 1_570_796 * 1_570_796,
{
    assert((1_570_796 - x) * (1_570_796 - x) >= 0);
}

/// The approximation stays between zero and one.
pub proof fn lemma_half_wave_range(x: int)
    requires
        0 <= x <= HALF_TURN,
    ensures
        0 <= half_wave(x) <= UNIT,
{
    lemma_half_wave_product(x);
    let p = x * (HALF_TURN - x);
    let d = 5 * HALF_TURN * HALF_TURN - 4 * p;
    assert(d > 0);
    assert(0 * d <= 16 * p * UNIT < (UNIT + 1) * d) by (nonlinear_arith)
        requires
            0 <= p,
            16 * p <= d,
            d > 0,
    ;
    lemma_div_between(16 * p * UNIT, 0, UNIT + 1, d);
}

/// Sine and cosine lie between minus one and one; at angle zero they are
/// zero and one.
pub proof fn lemma_sine_cosine(angle: int)
    ensures
        -UNIT <= sine_spec(angle) <= UNIT,
        -UNIT <= cosine_spec(angle) <= UNIT,
        sine_spec(0) == 0,
        cosine_spec(0) == UNIT,
{
    let turn = angle % (FULL_TURN as int);
    if turn <= HALF_TURN {
        lemma_half_wave_range(turn);
    } else {
        lemma_half_wave_range(turn - HALF_TURN);
    }
    let shifted = (angle + QUARTER_TURN) % (FULL_TURN as int);
    if shifted <= HALF_TURN {
        lemma_half_wave_range(shifted);
    } else {
        lemma_half_wave_range(shifted - HALF_TURN);
    }
    assert(half_wave(0) == 0);
    assert(half_wave(QUARTER_TURN as int) == UNIT) by {
        let p: int = 1_570_796int * 1_570_796int;
        assert(QUARTER_TURN * (HALF_TURN - QUARTER_TURN) == p);
        assert(5 * HALF_TURN * HALF_TURN - 4 * p == 16 * p);
        lemma_div_exact(UNIT as int, 0, 16 * p);
        assert(16 * p * UNIT == UNIT * (16 * p) + 0);
    }
}

/// The sine of `angle` (millionths of a radian), in units of `1 / UNIT`.
pub fn sine(angle: i64) -> (r: i64)
    ensures
        r == sine_spec(angle as int),
        -UNIT <= r <= UNIT,
{
    let turn = match angle.checked_rem_euclid(FULL_TURN) {
        Some(t) => t,
        None => 0,
    };
    let (x, negative) = if turn <= HALF_TURN {
        (turn, false)
    } else {
        (turn - HALF_TURN, true)
    };
    proof {
        lemma_half_wave_product(x as int);
        lemma_half_wave_range(x as int);
    }
    let p: i128 = (x as i128) * ((HALF_TURN - x) as i128);
    let d: i128 = 5 * (HALF_TURN as i128) * (HALF_TURN as i128) - 4 * p;
    let wave = div_floor(16 * p * (UNIT as i128), d) as i64;
    if negative {
        -wave
    } else {
        wave
    }
}

/// The cosine of `angle` (millionths of a radian), in units of `1 / UNIT`.
pub fn cosine(angle: i32) -> (r: i64)
    ensures
        r == cosine_spec(angle as int),
        -UNIT <= r <= UNIT,
{
    sine(angle as i64 + QUARTER_TURN)
}

} // verus!
