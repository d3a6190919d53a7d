use vstd::prelude::*;
use vstd::arithmetic::mul::lemma_mul_upper_bound;
use vstd::arithmetic::div_mod::lemma_div_is_ordered;
use vstd::arithmetic::div_mod::lemma_div_by_multiple;
use crate::coord::Coordinate;

verus! {

// Great-circle distance comparisons in fixed-point integer arithmetic.
//
// The haversine formula with Earth radius 6371 km gives, for two points,
// a value `a = sin^2(dphi/2) + cos(phi1) * cos(phi2) * sin^2(dlam/2)`;
// the distance is `2 * 6371 * asin(sqrt(a))` km, which is monotone in `a`.
// A distance threshold therefore becomes a threshold on `a`. This module
// evaluates `a` scaled by 1e24, with angles in nanoradians and sines and
// cosines scaled by 1e12, using truncated Taylor series. At the thresholds
// used by the trajectory cleaner (100 km and 150 km) the evaluation is
// accurate to well under a metre of distance.

/// Haversine value of a 100 km great-circle distance, scaled by 1e24:
/// `sin^2(100 / (2 * 6371)) * 1e24`.
pub const HAV_100KM_E24: u128 = 61_590_805_242_566_877_696;

/// Haversine value of a 150 km great-circle distance, scaled by 1e24:
/// `sin^2(150 / (2 * 6371)) * 1e24`.
pub const HAV_150KM_E24: u128 = 138_575_755_406_580_378_171;

pub open spec fn spec_abs(x: int) -> int {
    if x < 0 { -x } else { x }
}

/// An angle given in 1e-5 degree units, converted to nanoradians
/// (rounded toward zero): `x * pi / (180 * 1e5) * 1e9`.
pub open spec fn spec_ang_e9(x: int) -> int {
    x * 1_745_329_252 / 10_000_000
}

/// Sine of an angle `x` in nanoradians, scaled by 1e12: the Taylor series
/// of sine truncated after the 13th power, evaluated in fixed point.
/// Intended for `0 <= x <= pi/2 * 1e9`, where the truncation error is
/// below 1e-9.
pub open spec fn spec_sin_e12(x: int) -> int {
    let x2 = x * x;
    let t1 = x * 1000;
    let t2 = t1 * x2 / 6_000_000_000_000_000_000;
    let t3 = t2 * x2 / 20_000_000_000_000_000_000;
    let t4 = t3 * x2 / 42_000_000_000_000_000_000;
    let t5 = t4 * x2 / 72_000_000_000_000_000_000;
    let t6 = t5 * x2 / 110_000_000_000_000_000_000;
    let t7 = t6 * x2 / 156_000_000_000_000_000_000;
    t1 - t2 + t3 - t4 + t5 - t6 + t7
}

/// Cosine of an angle `x` in nanoradians, scaled by 1e12, through the
/// half-angle identity `cos x = 1 - 2 * sin^2(x/2)`, clamped at zero.
pub open spec fn spec_cos_e12(x: int) -> int {
    let s = spec_sin_e12(x / 2);
    let d = 2 * s * s / 1_000_000_000_000;
    if d >= 1_000_000_000_000 { 0 } else { 1_000_000_000_000 - d }
}

/// The haversine value `a` for two fixed-point coordinates, scaled by 1e24.
#[verifier::opaque]
pub open spec fn spec_hav_e24(p: Coordinate, q: Coordinate) -> int {
    let hphi = spec_ang_e9(spec_abs(p.lat_e5 - q.lat_e5)) / 2;
    let hlam0 = spec_ang_e9(spec_abs(p.lon_e5 - q.lon_e5)) / 2;
    let hlam = if hlam0 > 1_570_796_327 { 3_141_592_654 - hlam0 } else { hlam0 };
    let sp = spec_sin_e12(hphi);
    let sl = spec_sin_e12(hlam);
    let c1 = spec_cos_e12(spec_ang_e9(spec_abs(p.lat_e5 as int)));
    let c2 = spec_cos_e12(spec_ang_e9(spec_abs(q.lat_e5 as int)));
    sp * sp + (c1 * c2 / 1_000_000_000_000) * (sl * sl) / 1_000_000_000_000
}

fn abs_diff_e5(a: i64, b: i64) -> (r: u64)
    requires
        -18_000_000 <= a <= 18_000_000,
        -18_000_000 <= b <= 18_000_000,
    ensures
        r == spec_abs(a - b),
        r <= 36_000_000,
{
    if a >= b {
        (a - b) as u64
    } else {
        (b - a) as u64
    }
}

fn abs_e5(a: i64) -> (r: u64)
    requires
        -18_000_000 <= a <= 18_000_000,
    ensures
        r == spec_abs(a as int),
        r <= 18_000_000,
{
    if a >= 0 {
        a as u64
    } else {
        (-a) as u64
    }
}

fn ang_e9(x_e5: u64) -> (r: u64)
    requires
        x_e5 <= 36_000_000,
    ensures
        r == spec_ang_e9(x_e5 as int),
        r <= 6_283_185_307,
        x_e5 <= 18_000_000 ==> r <= 3_141_592_653,
        x_e5 <= 9_000_000 ==> r <= 1_570_796_326,
{
    let p: u128 = (x_e5 as u128) * 1_745_329_252;
    proof {
        lemma_div_is_ordered(p as int, 36_000_000int * 1_745_329_252, 10_000_000);
        if x_e5 <= 18_000_000 {
            lemma_div_is_ordered(p as int, 18_000_000int * 1_745_329_252, 10_000_000);
        }
        if x_e5 <= 9_000_000 {
            lemma_div_is_ordered(p as int, 9_000_000int * 1_745_329_252, 10_000_000);
        }
    }
    (p / 10_000_000) as u64
}

proof fn lemma_taylor_step(t: int, x2: int, c: int)
    requires
        0 <= t <= 1_570_796_328_000,
        0 <= x2 <= 2_467_401_104_058_283_584,
        x2 <= c,
        0 < c,
    ensures
        t * x2 <= 1_570_796_328_000int * 2_467_401_104_058_283_584,
        t * x2 / c <= t,
{
    lemma_mul_upper_bound(t, 1_570_796_328_000, x2, 2_467_401_104_058_283_584);
    lemma_mul_upper_bound(t, t, x2, c);
    lemma_div_is_ordered(t * x2, t * c, c);
    lemma_div_by_multiple(t, c);
}

fn sin_e12(x: u64) -> (r: u64)
    requires
        x <= 1_570_796_328,
    ensures
        r == spec_sin_e12(x as int),
        r <= x * 1000,
{
    let xl: u128 = x as u128;
    proof {
        lemma_mul_upper_bound(xl as int, 1_570_796_328, xl as int, 1_570_796_328);
    }
    let x2: u128 = xl * xl;
    let t1: u128 = xl * 1000;
    proof { lemma_taylor_step(t1 as int, x2 as int, 6_000_000_000_000_000_000); }
    let t2: u128 = t1 * x2 / 6_000_000_000_000_000_000;
    proof { lemma_taylor_step(t2 as int, x2 as int, 20_000_000_000_000_000_000); }
    let t3: u128 = t2 * x2 / 20_000_000_000_000_000_000;
    proof { lemma_taylor_step(t3 as int, x2 as int, 42_000_000_000_000_000_000); }
    let t4: u128 = t3 * x2 / 42_000_000_000_000_000_000;
    proof { lemma_taylor_step(t4 as int, x2 as int, 72_000_000_000_000_000_000); }
    let t5: u128 = t4 * x2 / 72_000_000_000_000_000_000;
    proof { lemma_taylor_step(t5 as int, x2 as int, 110_000_000_000_000_000_000); }
    let t6: u128 = t5 * x2 / 110_000_000_000_000_000_000;
    proof { lemma_taylor_step(t6 as int, x2 as int, 156_000_000_000_000_000_000); }
    let t7: u128 = t6 * x2 / 156_000_000_000_000_000_000;
    let s: u128 = t1 - t2 + t3 - t4 + t5 - t6 + t7;
    s as u64
}

fn cos_e12(x: u64) -> (r: u64)
    requires
        x <= 1_570_796_328,
    ensures
        r == spec_cos_e12(x as int),
        r <= 1_000_000_000_000,
{
    let s = sin_e12(x / 2);
    let sl: u128 = s as u128;
    proof {
        lemma_mul_upper_bound(2 * sl as int, 2int * 785_398_164_000, sl as int, 785_398_164_000);
    }
    let d: u128 = 2 * sl * sl / 1_000_000_000_000;
    if d >= 1_000_000_000_000 {
        0
    } else {
        (1_000_000_000_000u128 - d) as u64
    }
}

/// The haversine value for two valid coordinates, scaled by 1e24, for
/// comparison against `HAV_100KM_E24` and `HAV_150KM_E24`.
pub fn hav_e24(p: Coordinate, q: Coordinate) -> (r: u128)
    requires
        p.wf(),
        q.wf(),
    ensures
        r == spec_hav_e24(p, q),
{
    proof {
        reveal(spec_hav_e24);
    }
    let dphi = abs_diff_e5(p.lat_e5, q.lat_e5);
    let hphi = ang_e9(dphi) / 2;
    let dlam = abs_diff_e5(p.lon_e5, q.lon_e5);
    let hlam0 = ang_e9(dlam) / 2;
    let hlam = if hlam0 > 1_570_796_327 { 3_141_592_654 - hlam0 } else { hlam0 };
    let sp = sin_e12(hphi);
    let sl = sin_e12(hlam);
    let c1 = cos_e12(ang_e9(abs_e5(p.lat_e5)));
    let c2 = cos_e12(ang_e9(abs_e5(q.lat_e5)));
    proof {
        lemma_mul_upper_bound(sp as int, 1_570_796_328_000, sp as int, 1_570_796_328_000);
        lemma_mul_upper_bound(sl as int, 1_570_796_328_000, sl as int, 1_570_796_328_000);
        lemma_mul_upper_bound(c1 as int, 1_000_000_000_000, c2 as int, 1_000_000_000_000);
        lemma_div_is_ordered(
            c1 as int * c2 as int,
            1_000_000_000_000int * 1_000_000_000_000,
            1_000_000_000_000,
        );
    }
    let tphi: u128 = (sp as u128) * (sp as u128);
    let cc: u128 = (c1 as u128) * (c2 as u128) / 1_000_000_000_000;
    proof {
        lemma_mul_upper_bound(
            cc as int,
            1_000_000_000_000,
            (sl as u128 * sl as u128) as int,
            1_570_796_328_000int * 1_570_796_328_000,
        );
    }
    let tlam: u128 = cc * ((sl as u128) * (sl as u128)) / 1_000_000_000_000;
    tphi + tlam
}

} // verus!
