use vstd::prelude::*;
use vstd::arithmetic::div_mod::{
    lemma_div_is_ordered, lemma_div_is_ordered_by_denominator, lemma_div_pos_is_pos,
    lemma_div_by_multiple, lemma_mod_bound, lemma_div_nonincreasing,
};
use vstd::arithmetic::mul::{
    lemma_mul_nonnegative, lemma_mul_upper_bound, lemma_mul_inequality, lemma_mul_is_commutative,
};
use crate::sample::Sample;

verus! {

/// All angular quantities are carried in fixed point with nine
/// fractional decimal digits; lengths come out in millimeters.
pub const FP: u128 = 1_000_000_000;

pub const PI_FP: u128 = 3_141_592_653;

pub const TWO_PI_FP: u128 = 6_283_185_307;

pub const HALF_PI_FP: u128 = 1_570_796_326;

/// Mean Earth radius of the haversine formula, in millimeters.
pub const EARTH_RADIUS_MM: u128 = 6_371_000_000;

/// Bound on the magnitude of the truncated sine and cosine series
/// after reduction of the argument below a full turn.
pub const TRIG_BOUND: u128 = 200_000_000_000;

/// A product of two bounded nonnegative quantities, rescaled by the
/// fixed-point unit, keeps the rescaled product of the bounds.
proof fn lemma_fp_bounds(a: int, am: int, b: int, bm: int)
    requires
        0 <= a <= am,
        0 <= b <= bm,
    ensures
        0 <= a * b <= am * bm,
        0 <= a * b / (FP as int) <= am * bm / (FP as int),
{
    lemma_mul_nonnegative(a, b);
    lemma_mul_upper_bound(a, am, b, bm);
    lemma_div_pos_is_pos(a * b, FP as int);
    lemma_div_is_ordered(a * b, am * bm, FP as int);
    lemma_div_pos_is_pos(am * bm, FP as int);
}

/// Rescaling a product by a factor no greater than the fixed-point
/// unit does not increase the other factor.
proof fn lemma_fp_shrink(p: int, q: int)
    requires
        0 <= p,
        0 <= q <= FP as int,
    ensures
        0 <= p * q <= p * (FP as int),
        0 <= p * q / (FP as int) <= p,
{
    lemma_mul_nonnegative(p, q);
    lemma_mul_inequality(q, FP as int, p);
    lemma_mul_is_commutative(q, p);
    lemma_mul_is_commutative(FP as int, p);
    lemma_div_pos_is_pos(p * q, FP as int);
    lemma_div_is_ordered(p * q, p * (FP as int), FP as int);
    lemma_div_by_multiple(p, FP as int);
}

/// Magnitude of the degree-11 Maclaurin polynomial of the sine, on the
/// argument reduced modulo a full turn.
pub open spec fn spec_sin_abs_fp(x: int) -> int
    recommends
        x >= 0,
{
    let f = FP as int;
    let xr = x % (TWO_PI_FP as int);
    let x2 = xr * xr / f;
    let x3 = x2 * xr / f;
    let x5 = x3 * x2 / f;
    let x7 = x5 * x2 / f;
    let x9 = x7 * x2 / f;
    let x11 = x9 * x2 / f;
    let pos = xr + x5 / 120 + x9 / 362880;
    let neg = x3 / 6 + x7 / 5040 + x11 / 39916800;
    if pos >= neg {
        pos - neg
    } else {
        neg - pos
    }
}

pub fn sin_abs_fp(x: u128) -> (r: u128)
    ensures
        r == spec_sin_abs_fp(x as int),
        r <= TRIG_BOUND,
{
    let xr = x % TWO_PI_FP;
    proof {
        lemma_mod_bound(x as int, TWO_PI_FP as int);
        lemma_fp_bounds(xr as int, 6_283_185_306, xr as int, 6_283_185_306);
    }
    let x2 = xr * xr / FP;
    proof {
        lemma_fp_bounds(x2 as int, 39_478_417_589, xr as int, 6_283_185_306);
    }
    let x3 = x2 * xr / FP;
    proof {
        lemma_fp_bounds(x3 as int, 248_050_213_299, x2 as int, 39_478_417_589);
    }
    let x5 = x3 * x2 / FP;
    proof {
        lemma_fp_bounds(x5 as int, 9_792_629_903_658, x2 as int, 39_478_417_589);
    }
    let x7 = x5 * x2 / FP;
    proof {
        lemma_fp_bounds(x7 as int, 386_597_532_631_139, x2 as int, 39_478_417_589);
    }
    let x9 = x7 * x2 / FP;
    proof {
        lemma_fp_bounds(x9 as int, 15_262_258_832_089_159, x2 as int, 39_478_417_589);
    }
    let x11 = x9 * x2 / FP;
    let pos = xr + x5 / 120 + x9 / 362880;
    let neg = x3 / 6 + x7 / 5040 + x11 / 39916800;
    if pos >= neg {
        pos - neg
    } else {
        neg - pos
    }
}

/// Degree-10 Maclaurin polynomial of the cosine on the reduced
/// argument, clamped to the fixed-point unit interval.
pub open spec fn spec_cos_clamped_fp(x: int) -> int
    recommends
        x >= 0,
{
    let f = FP as int;
    let xr = x % (TWO_PI_FP as int);
    let x2 = xr * xr / f;
    let x4 = x2 * x2 / f;
    let x6 = x4 * x2 / f;
    let x8 = x6 * x2 / f;
    let x10 = x8 * x2 / f;
    let pos = f + x4 / 24 + x8 / 40320;
    let neg = x2 / 2 + x6 / 720 + x10 / 3628800;
    if pos > neg {
        if pos - neg <= f {
            pos - neg
        } else {
            f
        }
    } else {
        0
    }
}

pub fn cos_clamped_fp(x: u128) -> (r: u128)
    ensures
        r == spec_cos_clamped_fp(x as int),
        r <= FP,
{
    let xr = x % TWO_PI_FP;
    proof {
        lemma_mod_bound(x as int, TWO_PI_FP as int);
        lemma_fp_bounds(xr as int, 6_283_185_306, xr as int, 6_283_185_306);
    }
    let x2 = xr * xr / FP;
    proof {
        lemma_fp_bounds(x2 as int, 39_478_417_589, x2 as int, 39_478_417_589);
    }
    let x4 = x2 * x2 / FP;
    proof {
        lemma_fp_bounds(x4 as int, 1_558_545_455_331, x2 as int, 39_478_417_589);
    }
    let x6 = x4 * x2 / FP;
    proof {
        lemma_fp_bounds(x6 as int, 61_528_908_316_995, x2 as int, 39_478_417_589);
    }
    let x8 = x6 * x2 / FP;
    proof {
        lemma_fp_bounds(x8 as int, 2_429_063_936_333_623, x2 as int, 39_478_417_589);
    }
    let x10 = x8 * x2 / FP;
    let pos = FP + x4 / 24 + x8 / 40320;
    let neg = x2 / 2 + x6 / 720 + x10 / 3628800;
    if pos > neg {
        if pos - neg <= FP {
            pos - neg
        } else {
            FP
        }
    } else {
        0
    }
}

/// The integer square root: the greatest r with r * r <= n.
pub open spec fn spec_isqrt(n: int) -> int
    recommends
        n >= 0,
    decreases n,
{
    if n <= 0 {
        0
    } else {
        let p = spec_isqrt(n - 1);
        if (p + 1) * (p + 1) <= n {
            p + 1
        } else {
            p
        }
    }
}

pub proof fn lemma_isqrt_bounds(n: int)
    requires
        n >= 0,
    ensures
        0 <= spec_isqrt(n),
        spec_isqrt(n) * spec_isqrt(n) <= n,
        n < (spec_isqrt(n) + 1) * (spec_isqrt(n) + 1),
    decreases n,
{
    if n > 0 {
        lemma_isqrt_bounds(n - 1);
        let p = spec_isqrt(n - 1);
        assert((p + 1) * (p + 1) == p * p + 2 * p + 1) by (nonlinear_arith);
        assert((p + 2) * (p + 2) == (p + 1) * (p + 1) + 2 * (p + 1) + 1) by (nonlinear_arith);
    }
}

pub proof fn lemma_isqrt_unique(n: int, r: int)
    requires
        n >= 0,
        r >= 0,
        r * r <= n,
        n < (r + 1) * (r + 1),
    ensures
        r == spec_isqrt(n),
{
    lemma_isqrt_bounds(n);
    let s = spec_isqrt(n);
    if r < s {
        lemma_mul_inequality(r + 1, s, r + 1);
        lemma_mul_inequality(r + 1, s, s);
        lemma_mul_is_commutative(s, r + 1);
    }
    if s < r {
        lemma_mul_inequality(s + 1, r, s + 1);
        lemma_mul_inequality(s + 1, r, r);
        lemma_mul_is_commutative(r, s + 1);
    }
}

pub fn isqrt(n: u128) -> (r: u128)
    requires
        n <= 1_000_000_000_000_000_000,
    ensures
        r == spec_isqrt(n as int),
        r <= FP,
{
    let mut lo: u128 = 0;
    let mut hi: u128 = 1_000_000_001;
    proof {
        lemma_mul_upper_bound(1_000_000_000, 1_000_000_001, 1_000_000_000, 1_000_000_001);
    }
    while lo + 1 < hi
        invariant
            lo < hi <= 1_000_000_001,
            lo * lo <= n,
            n < hi * hi,
            n <= 1_000_000_000_000_000_000,
        decreases hi - lo,
    {
        let mid = lo + (hi - lo) / 2;
        proof {
            lemma_mul_upper_bound(mid as int, 1_000_000_001, mid as int, 1_000_000_001);
        }
        if mid * mid <= n {
            lo = mid;
        } else {
            hi = mid;
        }
    }
    proof {
        lemma_isqrt_unique(n as int, lo as int);
    }
    lo
}

/// Five-term Maclaurin polynomial of the arctangent, on arguments in
/// the fixed-point unit interval.
pub open spec fn spec_atan_fp(t: int) -> int
    recommends
        0 <= t <= FP,
{
    let f = FP as int;
    let t2 = t * t / f;
    let t3 = t2 * t / f;
    let t5 = t3 * t2 / f;
    let t7 = t5 * t2 / f;
    let t9 = t7 * t2 / f;
    t + t5 / 5 + t9 / 9 - t3 / 3 - t7 / 7
}

pub fn atan_fp(t: u128) -> (r: u128)
    requires
        t <= FP,
    ensures
        r == spec_atan_fp(t as int),
        r <= 1_350_000_000,
{
    proof {
        lemma_fp_shrink(t as int, t as int);
    }
    let t2 = t * t / FP;
    proof {
        lemma_fp_shrink(t2 as int, t as int);
    }
    let t3 = t2 * t / FP;
    proof {
        lemma_fp_shrink(t3 as int, t2 as int);
    }
    let t5 = t3 * t2 / FP;
    proof {
        lemma_fp_shrink(t5 as int, t2 as int);
    }
    let t7 = t5 * t2 / FP;
    proof {
        lemma_fp_shrink(t7 as int, t2 as int);
    }
    let t9 = t7 * t2 / FP;
    // The series alternates with nonincreasing term magnitudes, so the
    // positive terms, grouped with their successors, dominate.
    proof {
        lemma_div_nonincreasing(t3 as int, 3);
        lemma_div_is_ordered(t3 as int, t as int, 3);
        lemma_div_is_ordered(t7 as int, t5 as int, 7);
        lemma_div_is_ordered_by_denominator(t7 as int, 5, 7);
        lemma_div_is_ordered(t7 as int, t5 as int, 5);
        lemma_div_is_ordered(t5 as int, FP as int, 5);
        lemma_div_is_ordered(t9 as int, FP as int, 9);
        lemma_div_pos_is_pos(t9 as int, 9);
        lemma_div_pos_is_pos(t5 as int, 5);
        lemma_div_pos_is_pos(t3 as int, 3);
        lemma_div_pos_is_pos(t7 as int, 7);
    }
    t + t5 / 5 + t9 / 9 - t3 / 3 - t7 / 7
}

/// Fixed-point planar angle of the point (x, y), for nonnegative
/// coordinates: the arctangent of y / x, in the first quadrant.
pub open spec fn spec_atan2_fp(y: int, x: int) -> int
    recommends
        0 <= y <= FP,
        0 <= x <= FP,
{
    let f = FP as int;
    if y == 0 {
        0
    } else if y <= x {
        spec_atan_fp(y * f / x)
    } else {
        HALF_PI_FP - spec_atan_fp(x * f / y)
    }
}

pub fn atan2_fp(y: u128, x: u128) -> (r: u128)
    requires
        y <= FP,
        x <= FP,
    ensures
        r == spec_atan2_fp(y as int, x as int),
        r <= HALF_PI_FP,
{
    if y == 0 {
        0
    } else if y <= x {
        proof {
            lemma_mul_nonnegative(y as int, FP as int);
            lemma_mul_inequality(y as int, x as int, FP as int);
            lemma_div_is_ordered(y * FP, x * FP, x as int);
            lemma_div_by_multiple(FP as int, x as int);
            lemma_div_pos_is_pos(y * FP, x as int);
        }
        atan_fp(y * FP / x)
    } else {
        proof {
            lemma_mul_nonnegative(x as int, FP as int);
            lemma_mul_inequality(x as int, y as int, FP as int);
            lemma_div_is_ordered(x * FP, y * FP, y as int);
            lemma_div_by_multiple(FP as int, y as int);
            lemma_div_pos_is_pos(x * FP, y as int);
        }
        let a = atan_fp(x * FP / y);
        HALF_PI_FP - a
    }
}

/// Fixed-point radians of a count of microdegrees.
pub open spec fn spec_udeg_to_rad_fp(ud: int) -> int
    recommends
        ud >= 0,
{
    ud * (PI_FP as int) / 180_000_000
}

/// Magnitude of the difference of two signed coordinates.
pub open spec fn spec_abs_diff(a: int, b: int) -> int {
    if b >= a {
        b - a
    } else {
        a - b
    }
}

pub open spec fn spec_abs(a: int) -> int {
    if a >= 0 {
        a
    } else {
        -a
    }
}

/// Great-circle distance in millimeters by the haversine formula with
/// the arguments in microdegrees, all in fixed point.
pub open spec fn spec_haversine_mm(lat_a: int, lon_a: int, lat_b: int, lon_b: int) -> int {
    let f = FP as int;
    let sl = spec_sin_abs_fp(spec_udeg_to_rad_fp(spec_abs_diff(lat_a, lat_b)) / 2);
    let so = spec_sin_abs_fp(spec_udeg_to_rad_fp(spec_abs_diff(lon_a, lon_b)) / 2);
    let c1 = spec_cos_clamped_fp(spec_udeg_to_rad_fp(spec_abs(lat_a)));
    let c2 = spec_cos_clamped_fp(spec_udeg_to_rad_fp(spec_abs(lat_b)));
    let h_raw = sl * sl / f + c1 * c2 / f * (so * so / f) / f;
    let h = if h_raw <= f {
        h_raw
    } else {
        f
    };
    let y = spec_isqrt(h * f);
    let x = spec_isqrt((f - h) * f);
    let c = 2 * spec_atan2_fp(y, x);
    (EARTH_RADIUS_MM as int) * c / f
}

/// Distance between the points of two samples.
pub open spec fn spec_distance_mm(a: Sample, b: Sample) -> int {
    spec_haversine_mm(a.lat_udeg as int, a.lon_udeg as int, b.lat_udeg as int, b.lon_udeg as int)
}

fn abs_diff_udeg(a: i64, b: i64) -> (r: u128)
    ensures
        r == spec_abs_diff(a as int, b as int),
        r <= 40_000_000_000_000_000_000,
{
    let wide_a: i128 = a as i128;
    let wide_b: i128 = b as i128;
    if wide_b >= wide_a {
        (wide_b - wide_a) as u128
    } else {
        (wide_a - wide_b) as u128
    }
}

fn abs_udeg(a: i64) -> (r: u128)
    ensures
        r == spec_abs(a as int),
        r <= 40_000_000_000_000_000_000,
{
    let wide_a: i128 = a as i128;
    if wide_a >= 0 {
        wide_a as u128
    } else {
        (-wide_a) as u128
    }
}

fn udeg_to_rad_fp(ud: u128) -> (r: u128)
    requires
        ud <= 40_000_000_000_000_000_000,
    ensures
        r == spec_udeg_to_rad_fp(ud as int),
{
    proof {
        lemma_mul_nonnegative(ud as int, PI_FP as int);
        lemma_mul_upper_bound(
            ud as int,
            40_000_000_000_000_000_000,
            PI_FP as int,
            PI_FP as int,
        );
        lemma_div_pos_is_pos(ud * PI_FP, 180_000_000);
    }
    ud * PI_FP / 180_000_000
}

/// Great-circle distance between the points of two samples, in
/// millimeters: the haversine formula with Earth radius 6371 km,
/// carried out in fixed point on the microdegree coordinates.
#[verifier::rlimit(100)]
pub fn distance_mm(a: &Sample, b: &Sample) -> (r: u64)
    ensures
        r == spec_distance_mm(*a, *b),
        r <= 50_000_000_000,
{
    let dlat = abs_diff_udeg(a.lat_udeg, b.lat_udeg);
    let dlon = abs_diff_udeg(a.lon_udeg, b.lon_udeg);
    let alat = abs_udeg(a.lat_udeg);
    let blat = abs_udeg(b.lat_udeg);
    let sl = sin_abs_fp(udeg_to_rad_fp(dlat) / 2);
    let so = sin_abs_fp(udeg_to_rad_fp(dlon) / 2);
    let c1 = cos_clamped_fp(udeg_to_rad_fp(alat));
    let c2 = cos_clamped_fp(udeg_to_rad_fp(blat));
    proof {
        lemma_fp_bounds(sl as int, TRIG_BOUND as int, sl as int, TRIG_BOUND as int);
        lemma_fp_bounds(so as int, TRIG_BOUND as int, so as int, TRIG_BOUND as int);
        lemma_fp_bounds(c1 as int, FP as int, c2 as int, FP as int);
    }
    let sl2 = sl * sl / FP;
    let so2 = so * so / FP;
    let cc = c1 * c2 / FP;
    proof {
        lemma_fp_bounds(cc as int, FP as int, so2 as int, 40_000_000_000_000);
    }
    let h_raw = sl2 + cc * so2 / FP;
    let h = if h_raw <= FP {
        h_raw
    } else {
        FP
    };
    proof {
        lemma_mul_nonnegative(h as int, FP as int);
        lemma_mul_upper_bound(h as int, FP as int, FP as int, FP as int);
        lemma_mul_nonnegative((FP - h) as int, FP as int);
        lemma_mul_upper_bound((FP - h) as int, FP as int, FP as int, FP as int);
    }
    let y = isqrt(h * FP);
    let x = isqrt((FP - h) * FP);
    let c = 2 * atan2_fp(y, x);
    proof {
        lemma_mul_nonnegative(EARTH_RADIUS_MM as int, c as int);
        lemma_mul_upper_bound(
            EARTH_RADIUS_MM as int,
            EARTH_RADIUS_MM as int,
            c as int,
            (2 * HALF_PI_FP) as int,
        );
        lemma_div_pos_is_pos((EARTH_RADIUS_MM * c) as int, FP as int);
        lemma_div_is_ordered(
            (EARTH_RADIUS_MM * c) as int,
            (EARTH_RADIUS_MM as int) * ((2 * HALF_PI_FP) as int),
            FP as int,
        );
    }
    (EARTH_RADIUS_MM * c / FP) as u64
}

/// The distance of any point to itself is zero.
pub proof fn lemma_distance_self_zero(a: Sample)
    ensures
        spec_distance_mm(a, a) == 0,
{
    let f = FP as int;
    vstd::arithmetic::div_mod::lemma_small_mod(0, TWO_PI_FP as nat);
    vstd::arithmetic::div_mod::lemma_div_of0(f);
    vstd::arithmetic::div_mod::lemma_div_of0(120);
    vstd::arithmetic::div_mod::lemma_div_of0(362880);
    vstd::arithmetic::div_mod::lemma_div_of0(6);
    vstd::arithmetic::div_mod::lemma_div_of0(5040);
    vstd::arithmetic::div_mod::lemma_div_of0(39916800);
    vstd::arithmetic::div_mod::lemma_div_of0(180_000_000);
    assert(spec_abs_diff(a.lat_udeg as int, a.lat_udeg as int) == 0);
    assert(spec_abs_diff(a.lon_udeg as int, a.lon_udeg as int) == 0);
    assert(spec_udeg_to_rad_fp(0) == 0);
    assert(spec_sin_abs_fp(0) == 0);
    let c1 = spec_cos_clamped_fp(spec_udeg_to_rad_fp(spec_abs(a.lat_udeg as int)));
    let z: int = 0;
    assert(c1 * c1 / f * (z * z / f) / f == 0);
    assert(spec_isqrt(z * f) == 0);
    assert(spec_atan2_fp(0, spec_isqrt((f - z) * f)) == 0);
    assert((EARTH_RADIUS_MM as int) * (2 * z) / f == 0);
}

/// The distance is symmetric in its two arguments, exactly.
pub proof fn lemma_distance_symmetric(a: Sample, b: Sample)
    ensures
        spec_distance_mm(a, b) == spec_distance_mm(b, a),
{
    lemma_mul_is_commutative(
        spec_cos_clamped_fp(spec_udeg_to_rad_fp(spec_abs(a.lat_udeg as int))),
        spec_cos_clamped_fp(spec_udeg_to_rad_fp(spec_abs(b.lat_udeg as int))),
    );
}

} // verus!
