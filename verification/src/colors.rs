//! The perceptual colour model: Lab colours with and without opacity, their
//! distance, the alpha blend and the conversion from and to linear RGB.
//!
//! A channel holds its value in fixed point, in units of `1 / UNIT`: a
//! lightness of fifty is `50 * UNIT`, an opacity of a half is `UNIT / 2`.

use vstd::prelude::*;
use crate::fixed::{
    clamp, cube, div_round, floored_div, icbrt, integer_cbrt, integer_sqrt, is_root, isqrt,
    lemma_cube_monotone, lemma_div_between, lemma_div_exact, lemma_integer_cbrt,
    lemma_integer_sqrt, rounded_div, UNIT,
};

verus! {

/// A colour: lightness `l` and the two chroma axes `a` and `b`.
#[derive(Debug, Clone, Copy, PartialEq, Eq)]
pub struct Lab {
    pub l: i32,
    pub a: i32,
    pub b: i32,
}

/// A colour with an opacity `alpha`, meant to lie between zero and `UNIT`.
#[derive(Debug, Clone, Copy, PartialEq, Eq)]
pub struct Laba {
    pub l: i32,
    pub a: i32,
    pub b: i32,
    pub alpha: i32,
}

/// The square of a number.
pub open spec fn square(x: int) -> int {
    x * x
}

/// The opacity that an alpha value stands for: values below zero count as
/// transparent, values above `UNIT` as opaque.
pub open spec fn opacity(alpha: int) -> int {
    clamp(alpha, 0, UNIT as int)
}

/// The mean of `base` and `top` with the given weights, rounded to the
/// nearest integer.
pub open spec fn mix(base: int, top: int, base_weight: int, top_weight: int) -> int
    recommends
        base_weight >= 0,
        top_weight >= 0,
        base_weight + top_weight > 0,
{
    div_round(base * base_weight + top * top_weight, base_weight + top_weight)
}

/// A weighted mean lies between the two values.
pub proof fn lemma_mix_between(base: int, top: int, base_weight: int, top_weight: int)
    requires
        base_weight >= 0,
        top_weight >= 0,
        base_weight + top_weight > 0,
    ensures
        base <= top ==> base <= mix(base, top, base_weight, top_weight) <= top,
        top <= base ==> top <= mix(base, top, base_weight, top_weight) <= base,
        base_weight == 0 ==> mix(base, top, base_weight, top_weight) == top,
        top_weight == 0 ==> mix(base, top, base_weight, top_weight) == base,
{
    let low = if base <= top { base } else { top };
    let high = if base <= top { top } else { base };
    let w = base_weight + top_weight;
    let n = base * base_weight + top * top_weight;
    let half = w / 2;
    assert(low * w <= n + half < (high + 1) * w) by (nonlinear_arith)
        requires
            low <= base <= high,
            low <= top <= high,
            base_weight >= 0,
            top_weight >= 0,
            w == base_weight + top_weight,
            w > 0,
            0 <= half < w,
            n == base * base_weight + top * top_weight,
    ;
    lemma_div_between(n + half, low, high + 1, w);
    if base_weight == 0 {
        assert(top * w <= n + half < (top + 1) * w) by (nonlinear_arith)
            requires
                base_weight == 0,
                w == top_weight,
                w > 0,
                0 <= half < w,
                n == base * base_weight + top * top_weight,
        ;
        lemma_div_between(n + half, top, top + 1, w);
    }
    if top_weight == 0 {
        assert(base * w <= n + half < (base + 1) * w) by (nonlinear_arith)
            requires
                top_weight == 0,
                w == base_weight,
                w > 0,
                0 <= half < w,
                n == base * base_weight + top * top_weight,
        ;
        lemma_div_between(n + half, base, base + 1, w);
    }
}

/// The weighted mean of two channels.
fn mixed(base: i32, top: i32, base_weight: i64, top_weight: i64) -> (r: i32)
    requires
        0 <= base_weight <= UNIT,
        0 <= top_weight <= UNIT,
        base_weight + top_weight > 0,
    ensures
        r == mix(base as int, top as int, base_weight as int, top_weight as int),
{
    proof {
        lemma_mix_between(base as int, top as int, base_weight as int, top_weight as int);
        assert(-0x8000_0000 * 1_000_000 <= base * base_weight <= 0x8000_0000 * 1_000_000)
            by (nonlinear_arith)
            requires
                -0x8000_0000 <= base <= 0x8000_0000,
                0 <= base_weight <= 1_000_000,
        ;
        assert(-0x8000_0000 * 1_000_000 <= top * top_weight <= 0x8000_0000 * 1_000_000)
            by (nonlinear_arith)
            requires
                -0x8000_0000 <= top <= 0x8000_0000,
                0 <= top_weight <= 1_000_000,
        ;
    }
    let n: i64 = (base as i64) * base_weight + (top as i64) * top_weight;
    rounded_div(n, base_weight + top_weight) as i32
}

/// The opacity of an alpha value.
fn opacity_of(alpha: i32) -> (r: i64)
    ensures
        r == opacity(alpha as int),
        0 <= r <= UNIT,
{
    if alpha < 0 {
        0
    } else if alpha as i64 > UNIT {
        UNIT
    } else {
        alpha as i64
    }
}

impl Lab {
    /// The sum of the squared channel differences.
    pub open spec fn squared_distance(self, other: Lab) -> int {
        square(self.l - other.l) + square(self.a - other.a) + square(self.b - other.b)
    }

    /// The Euclidean distance between two colours, rounded down.
    pub open spec fn distance_spec(self, other: Lab) -> int {
        integer_sqrt(self.squared_distance(other))
    }

    /// `top` laid over `self`: each channel moves from `self` towards `top`
    /// by the opacity of `top`.
    pub open spec fn blend_spec(self, top: Laba) -> Lab {
        let t = opacity(top.alpha as int);
        Lab {
            l: mix(self.l as int, top.l as int, UNIT - t, t) as i32,
            a: mix(self.a as int, top.a as int, UNIT - t, t) as i32,
            b: mix(self.b as int, top.b as int, UNIT - t, t) as i32,
        }
    }

    /// The Euclidean distance between two colours, rounded down.
    pub fn distance(self, other: Lab) -> (d: u64)
        ensures
            d == self.distance_spec(other),
    {
        let dl: i128 = self.l as i128 - other.l as i128;
        let da: i128 = self.a as i128 - other.a as i128;
        let db: i128 = self.b as i128 - other.b as i128;
        assert(0 <= dl * dl <= 0x1_0000_0000 * 0x1_0000_0000) by (nonlinear_arith)
            requires
                -0x1_0000_0000 <= dl <= 0x1_0000_0000,
        ;
        assert(0 <= da * da <= 0x1_0000_0000 * 0x1_0000_0000) by (nonlinear_arith)
            requires
                -0x1_0000_0000 <= da <= 0x1_0000_0000,
        ;
        assert(0 <= db * db <= 0x1_0000_0000 * 0x1_0000_0000) by (nonlinear_arith)
            requires
                -0x1_0000_0000 <= db <= 0x1_0000_0000,
        ;
        let squared: i128 = dl * dl + da * da + db * db;
        isqrt(squared as u128)
    }

    /// `top` laid over `self`.
    pub fn blend(self, top: Laba) -> (r: Lab)
        ensures
            r == self.blend_spec(top),
    {
        let t = opacity_of(top.alpha);
        Lab {
            l: mixed(self.l, top.l, UNIT - t, t),
            a: mixed(self.a, top.a, UNIT - t, t),
            b: mixed(self.b, top.b, UNIT - t, t),
        }
    }
}

impl Laba {
    /// The share of `self` that stays visible under `top`: its own opacity
    /// times the transparency of `top`.
    pub open spec fn covered_weight(self, top: Laba) -> int {
        div_round(opacity(self.alpha as int) * (UNIT - opacity(top.alpha as int)), UNIT as int)
    }

    /// `top` laid over `self` by the "over" rule: the opacities add up as
    /// `t + s (1 - t)`, and each channel is the mean of the two colours
    /// weighted by their shares of that sum. Where both are transparent the
    /// colour of `self` stays.
    pub open spec fn blend_spec(self, top: Laba) -> Laba {
        let t = opacity(top.alpha as int);
        let s = self.covered_weight(top);
        if t + s == 0 {
            Laba { l: self.l, a: self.a, b: self.b, alpha: 0 }
        } else {
            Laba {
                l: mix(self.l as int, top.l as int, s, t) as i32,
                a: mix(self.a as int, top.a as int, s, t) as i32,
                b: mix(self.b as int, top.b as int, s, t) as i32,
                alpha: (t + s) as i32,
            }
        }
    }

    /// The colour without its opacity.
    pub open spec fn no_alpha_spec(self) -> Lab {
        Lab { l: self.l, a: self.a, b: self.b }
    }

    /// `top` laid over `self`.
    pub fn blend(self, top: Laba) -> (r: Laba)
        ensures
            r == self.blend_spec(top),
    {
        let t = opacity_of(top.alpha);
        let own = opacity_of(self.alpha);
        proof {
            assert(0 <= own * (UNIT - t) <= UNIT * (UNIT - t)) by (nonlinear_arith)
                requires
                    0 <= own <= UNIT,
                    0 <= t <= UNIT,
            ;
            assert(0 * UNIT <= own * (UNIT - t) + UNIT / 2 < (UNIT - t + 1) * UNIT)
                by (nonlinear_arith)
                requires
                    0 <= own * (UNIT - t) <= UNIT * (UNIT - t),
                    UNIT == 1_000_000,
            ;
            lemma_div_between(own * (UNIT - t) + UNIT / 2, 0, UNIT - t + 1, UNIT as int);
        }
        let s = rounded_div(own * (UNIT - t), UNIT);
        if t + s == 0 {
            Laba { l: self.l, a: self.a, b: self.b, alpha: 0 }
        } else {
            Laba {
                l: mixed(self.l, top.l, s, t),
                a: mixed(self.a, top.a, s, t),
                b: mixed(self.b, top.b, s, t),
                alpha: (t + s) as i32,
            }
        }
    }

    /// The colour without its opacity.
    pub fn no_alpha(self) -> (r: Lab)
        ensures
            r == self.no_alpha_spec(),
    {
        Lab { l: self.l, a: self.a, b: self.b }
    }
}

/// A colour is at distance zero from itself.
pub proof fn lemma_distance_identity(x: Lab)
    ensures
        x.distance_spec(x) == 0,
{
    assert(x.squared_distance(x) == 0);
    assert(is_root(0, 0));
    lemma_integer_sqrt(0, 0);
}

/// The distance from `x` to `y` is the distance from `y` to `x`.
pub proof fn lemma_distance_symmetric(x: Lab, y: Lab)
    ensures
        x.distance_spec(y) == y.distance_spec(x),
{
    assert(square(x.l - y.l) == square(y.l - x.l)) by (nonlinear_arith);
    assert(square(x.a - y.a) == square(y.a - x.a)) by (nonlinear_arith);
    assert(square(x.b - y.b) == square(y.b - x.b)) by (nonlinear_arith);
}

/// A colour in linear RGB. Each channel is meant to lie between zero and
/// `UNIT`.
#[derive(Debug, Clone, Copy, PartialEq, Eq)]
pub struct Rgb {
    pub r: i32,
    pub g: i32,
    pub b: i32,
}

/// A colour in linear RGB with an opacity.
#[derive(Debug, Clone, Copy, PartialEq, Eq)]
pub struct Rgba {
    pub r: i32,
    pub g: i32,
    pub b: i32,
    pub alpha: i32,
}

/// The relative luminance below which the lightness curve is a straight
/// line: the cube of 6/29.
pub const CURVE_KNEE: i64 = 8_856;

/// The slope of the straight part of the lightness curve: 841/108.
pub const CURVE_SLOPE: i64 = 7_787_037;

/// The value of the lightness curve at zero: 4/29.
pub const CURVE_OFFSET: i64 = 137_931;

/// The value of the lightness curve up to which its inverse is a straight
/// line: 6/29.
pub const INVERSE_KNEE: i64 = 206_896;

/// The cube of `UNIT` over `UNIT`: what a fraction is multiplied by before
/// its cube root is taken.
pub const CUBE_SCALE: i64 = 1_000_000_000_000;

/// A channel kept between zero and one.
pub open spec fn unit(channel: int) -> int {
    clamp(channel, 0, UNIT as int)
}

/// The first tristimulus value of a colour, relative to that of white.
pub open spec fn relative_x(r: int, g: int, b: int) -> int {
    (433_950 * r + 376_210 * g + 189_840 * b) / (UNIT as int)
}

/// The second tristimulus value of a colour, relative to that of white.
pub open spec fn relative_y(r: int, g: int, b: int) -> int {
    (212_673 * r + 715_152 * g + 72_175 * b) / (UNIT as int)
}

/// The third tristimulus value of a colour, relative to that of white.
pub open spec fn relative_z(r: int, g: int, b: int) -> int {
    (17_757 * r + 109_468 * g + 872_775 * b) / (UNIT as int)
}

/// The lightness curve: the cube root above the knee, a straight line
/// below it.
pub open spec fn curve(t: int) -> int {
    if t > CURVE_KNEE {
        integer_cbrt(t * CUBE_SCALE)
    } else {
        t * CURVE_SLOPE / (UNIT as int) + CURVE_OFFSET
    }
}

/// The inverse of the lightness curve: the cube above the knee, a straight
/// line below it, and nothing below zero.
pub open spec fn curve_inverse(f: int) -> int {
    if f > INVERSE_KNEE {
        cube(f) / (CUBE_SCALE as int)
    } else if f < CURVE_OFFSET {
        0
    } else {
        (f - CURVE_OFFSET) * UNIT / (CURVE_SLOPE as int)
    }
}

/// The Lab colour of a linear RGB colour, under the white point D65.
pub open spec fn lab_of(rgb: Rgb) -> Lab {
    let r = unit(rgb.r as int);
    let g = unit(rgb.g as int);
    let b = unit(rgb.b as int);
    let fx = curve(relative_x(r, g, b));
    let fy = curve(relative_y(r, g, b));
    let fz = curve(relative_z(r, g, b));
    Lab { l: (116 * fy - 16 * UNIT) as i32, a: (500 * (fx - fy)) as i32, b: (200 * (fy - fz)) as i32 }
}

/// The linear RGB colour of a Lab colour, each channel kept between zero
/// and one.
pub open spec fn rgb_of(lab: Lab) -> Rgb {
    let fy = div_round(lab.l + 16 * UNIT, 116);
    let fx = fy + div_round(lab.a as int, 500);
    let fz = fy - div_round(lab.b as int, 200);
    let x = curve_inverse(fx);
    let y = curve_inverse(fy);
    let z = curve_inverse(fz);
    Rgb {
        r: unit((3_079_957 * x - 1_537_141 * y - 542_816 * z) / (UNIT as int)) as i32,
        g: unit((-921_260 * x + 1_876_013 * y + 45_247 * z) / (UNIT as int)) as i32,
        b: unit((52_886 * x - 204_025 * y + 1_151_139 * z) / (UNIT as int)) as i32,
    }
}

/// The Lab colour with opacity of a linear RGB colour with opacity. The
/// opacity is kept between zero and one.
pub open spec fn laba_of(rgba: Rgba) -> Laba {
    let lab = lab_of(Rgb { r: rgba.r, g: rgba.g, b: rgba.b });
    Laba { l: lab.l, a: lab.a, b: lab.b, alpha: unit(rgba.alpha as int) as i32 }
}

/// On fractions between zero and one the lightness curve lies between its
/// offset and one, on the side of its knee that its inverse expects.
pub proof fn lemma_curve_range(t: int)
    requires
        0 <= t <= UNIT,
    ensures
        CURVE_OFFSET <= curve(t) <= UNIT,
        t > CURVE_KNEE ==> curve(t) > INVERSE_KNEE,
        t <= CURVE_KNEE ==> curve(t) <= INVERSE_KNEE,
{
    if t > CURVE_KNEE {
        let n = t * CUBE_SCALE;
        let f = integer_cbrt(n);
        lemma_integer_cbrt(n, f);
        if f > UNIT {
            lemma_cube_monotone(UNIT + 1, f);
            assert(cube(UNIT + 1) > 1_000_000 * 1_000_000_000_000) by (nonlinear_arith)
                requires
                    UNIT == 1_000_000,
                    cube(UNIT + 1) == (UNIT + 1) * (UNIT + 1) * (UNIT + 1),
            ;
        }
        if f <= INVERSE_KNEE {
            lemma_cube_monotone(f + 1, INVERSE_KNEE + 1);
            assert(cube(INVERSE_KNEE + 1) <= 8_857 * 1_000_000_000_000) by (nonlinear_arith)
                requires
                    INVERSE_KNEE == 206_896,
                    cube(INVERSE_KNEE + 1) == (INVERSE_KNEE + 1) * (INVERSE_KNEE + 1) * (
                    INVERSE_KNEE + 1),
            ;
        }
    }
}

/// The inverse of the lightness curve brings a fraction between zero and
/// one back to within four millionths.
pub proof fn lemma_curve_round_trip(t: int)
    requires
        0 <= t <= UNIT,
    ensures
        t - 4 <= curve_inverse(curve(t)) <= t,
{
    lemma_curve_range(t);
    if t > CURVE_KNEE {
        let n = t * CUBE_SCALE;
        let f = integer_cbrt(n);
        lemma_integer_cbrt(n, f);
        lemma_cube_monotone(f, f);
        assert(3 * (f * f) + 3 * f + 1 < 4 * 1_000_000_000_000) by (nonlinear_arith)
            requires
                0 <= f <= 1_000_000,
        ;
    }
}

impl Lab {
    /// The Lab colour of a linear RGB colour. Channels outside zero to one
    /// are brought back first.
    pub fn from_rgb(rgb: Rgb) -> (lab: Lab)
        ensures
            lab == lab_of(rgb),
    {
        let r = limited_channel(rgb.r);
        let g = limited_channel(rgb.g);
        let b = limited_channel(rgb.b);
        let fx = curved((433_950 * r + 376_210 * g + 189_840 * b) / UNIT);
        let fy = curved((212_673 * r + 715_152 * g + 72_175 * b) / UNIT);
        let fz = curved((17_757 * r + 109_468 * g + 872_775 * b) / UNIT);
        Lab {
            l: (116 * fy - 16 * UNIT) as i32,
            a: (500 * (fx - fy)) as i32,
            b: (200 * (fy - fz)) as i32,
        }
    }

    /// The linear RGB colour of a Lab colour, each channel kept between
    /// zero and one.
    pub fn to_rgb(self) -> (rgb: Rgb)
        ensures
            rgb == rgb_of(self),
    {
        let fy = rounded_div(self.l as i64 + 16 * UNIT, 116);
        let fx = fy + rounded_div(self.a as i64, 500);
        let fz = fy - rounded_div(self.b as i64, 200);
        let x = straightened(fx);
        let y = straightened(fy);
        let z = straightened(fz);
        Rgb {
            r: limited_wide(floored_div(3_079_957 * x - 1_537_141 * y - 542_816 * z, UNIT)),
            g: limited_wide(floored_div(1_876_013 * y + 45_247 * z - 921_260 * x, UNIT)),
            b: limited_wide(floored_div(52_886 * x - 204_025 * y + 1_151_139 * z, UNIT)),
        }
    }
}

impl Laba {
    /// The Lab colour with opacity of a linear RGB colour with opacity.
    pub fn from_rgba(rgba: Rgba) -> (laba: Laba)
        ensures
            laba == laba_of(rgba),
    {
        let lab = Lab::from_rgb(Rgb { r: rgba.r, g: rgba.g, b: rgba.b });
        Laba { l: lab.l, a: lab.a, b: lab.b, alpha: limited_channel(rgba.alpha) as i32 }
    }
}

/// A channel kept between zero and one.
fn limited_channel(channel: i32) -> (r: i64)
    ensures
        r == unit(channel as int),
        0 <= r <= UNIT,
{
    if channel < 0 {
        0
    } else if channel as i64 > UNIT {
        UNIT
    } else {
        channel as i64
    }
}

/// A channel kept between zero and one.
fn limited_wide(channel: i64) -> (r: i32)
    ensures
        r == unit(channel as int),
{
    if channel < 0 {
        0
    } else if channel > UNIT {
        UNIT as i32
    } else {
        channel as i32
    }
}

/// The lightness curve on a fraction between zero and one.
fn curved(t: i64) -> (f: i64)
    requires
        0 <= t <= UNIT,
    ensures
        f == curve(t as int),
        CURVE_OFFSET <= f <= UNIT,
{
    proof {
        lemma_curve_range(t as int);
    }
    if t > CURVE_KNEE {
        icbrt((t * CUBE_SCALE) as u64) as i64
    } else {
        t * CURVE_SLOPE / UNIT + CURVE_OFFSET
    }
}

/// The inverse of the lightness curve.
fn straightened(f: i64) -> (t: i64)
    requires
        -30_000_000 <= f <= 30_000_000,
    ensures
        t == curve_inverse(f as int),
        0 <= t <= 27_000_000_000,
{
    if f > INVERSE_KNEE {
        assert(0 <= f * f <= 30_000_000 * 30_000_000 && 0 <= f * f * f <= 30_000_000 * 30_000_000
            * 30_000_000) by (nonlinear_arith)
            requires
                0 <= f <= 30_000_000,
        ;
        let cubed: i128 = (f as i128) * (f as i128) * (f as i128);
        (cubed / (CUBE_SCALE as i128)) as i64
    } else if f < CURVE_OFFSET {
        0
    } else {
        (f - CURVE_OFFSET) * UNIT / CURVE_SLOPE
    }
}

/// A colour between black and white comes back from Lab to within a
/// thousandth of each of its channels.
pub proof fn lemma_rgb_round_trip(rgb: Rgb)
    requires
        0 <= rgb.r <= UNIT,
        0 <= rgb.g <= UNIT,
        0 <= rgb.b <= UNIT,
    ensures
        -1_000 <= rgb_of(lab_of(rgb)).r - rgb.r <= 1_000,
        -1_000 <= rgb_of(lab_of(rgb)).g - rgb.g <= 1_000,
        -1_000 <= rgb_of(lab_of(rgb)).b - rgb.b <= 1_000,
{
    let r = rgb.r as int;
    let g = rgb.g as int;
    let b = rgb.b as int;
    let tx = relative_x(r, g, b);
    let ty = relative_y(r, g, b);
    let tz = relative_z(r, g, b);
    assert(0 <= tx <= UNIT && 0 <= ty <= UNIT && 0 <= tz <= UNIT);
    let fx = curve(tx);
    let fy = curve(ty);
    let fz = curve(tz);
    lemma_curve_range(tx);
    lemma_curve_range(ty);
    lemma_curve_range(tz);
    let lab = lab_of(rgb);
    assert(lab.l == 116 * fy - 16 * UNIT);
    assert(lab.a == 500 * (fx - fy));
    assert(lab.b == 200 * (fy - fz));
    lemma_div_exact(fy, 58, 116);
    lemma_div_exact(fx - fy, 250, 500);
    lemma_div_exact(fy - fz, 100, 200);
    assert(div_round(lab.l + 16 * UNIT, 116) == fy);
    assert(div_round(lab.a as int, 500) == fx - fy);
    assert(div_round(lab.b as int, 200) == fy - fz);
    lemma_curve_round_trip(tx);
    lemma_curve_round_trip(ty);
    lemma_curve_round_trip(tz);
    let x = curve_inverse(fx);
    let y = curve_inverse(fy);
    let z = curve_inverse(fz);
    assert(tx - 4 <= x <= tx && ty - 4 <= y <= ty && tz - 4 <= z <= tz);
}

} // verus!
