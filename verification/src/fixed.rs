//! Fixed-point arithmetic for the audio library.
//!
//! Every sample and parameter value in the library is an `i64` counting
//! millionths: `UNIT` (1_000_000) stands for 1.0. Results that would leave
//! the representable range saturate at `±CLIP_MAX`, symmetrically, so that
//! the magnitude of a product never depends on its sign.

use vstd::prelude::*;

verus! {

/// One, in fixed-point millionths.
pub const UNIT: i64 = 1000000;

/// Largest representable magnitude; saturation is symmetric at `±CLIP_MAX`.
pub const CLIP_MAX: i64 = 9223372036854775807;

/// Absolute value of a mathematical integer.
pub open spec fn iabs(v: int) -> int {
    if v < 0 {
        -v
    } else {
        v
    }
}

/// Saturate a mathematical integer into the symmetric range `[-CLIP_MAX, CLIP_MAX]`.
pub open spec fn clip64(v: int) -> int {
    if v > CLIP_MAX {
        CLIP_MAX as int
    } else if v < -CLIP_MAX {
        -CLIP_MAX as int
    } else {
        v
    }
}

/// `a * b / d`, rounded toward zero and saturated; `d` must be positive.
pub open spec fn muldiv_spec(a: int, b: int, d: int) -> int {
    let p = iabs(a) * iabs(b) / d;
    if (a < 0) != (b < 0) {
        clip64(-p)
    } else {
        clip64(p)
    }
}

/// Scaled product: `a * b` where both count millionths, rounded toward zero.
pub open spec fn mul_unit_spec(a: int, b: int) -> int {
    muldiv_spec(a, b, UNIT as int)
}

/// Saturating sum.
pub open spec fn add_sat_spec(a: int, b: int) -> int {
    clip64(a + b)
}

/// Magnitude of an `i64` as a `u64` (total, unlike `-a`).
pub fn abs_u64(a: i64) -> (r: u64)
    ensures
        r as int == iabs(a as int),
{
    if a >= 0 {
        a as u64
    } else {
        let v: i64 = -(a + 1);
        (v as u64) + 1
    }
}

/// `a * b / d` rounded toward zero, saturated into `[-CLIP_MAX, CLIP_MAX]`.
pub fn muldiv(a: i64, b: i64, d: i64) -> (r: i64)
    requires
        d > 0,
    ensures
        r as int == muldiv_spec(a as int, b as int, d as int),
{
    let ua: u64 = abs_u64(a);
    let ub: u64 = abs_u64(b);
    proof {
        assert((ua as int) * (ub as int) <= (u64::MAX as int) * (u64::MAX as int))
            by (nonlinear_arith)
            requires
                ua <= u64::MAX,
                ub <= u64::MAX,
        ;
    }
    let p: u128 = (ua as u128) * (ub as u128);
    let q: u128 = p / (d as u128);
    let mag: i64 = if q > (CLIP_MAX as u128) {
        CLIP_MAX
    } else {
        q as i64
    };
    let neg: bool = (a < 0) != (b < 0);
    if neg {
        -mag
    } else {
        mag
    }
}

/// `a + b` saturated into `[-CLIP_MAX, CLIP_MAX]`.
pub fn add_sat(a: i64, b: i64) -> (r: i64)
    ensures
        r as int == add_sat_spec(a as int, b as int),
{
    let s: i128 = (a as i128) + (b as i128);
    if s > (CLIP_MAX as i128) {
        CLIP_MAX
    } else if s < -(CLIP_MAX as i128) {
        -CLIP_MAX
    } else {
        s as i64
    }
}

/// Scaling by a non-negative gain commutes with taking magnitudes.
pub proof fn lemma_mul_unit_abs(s: int, g: int)
    requires
        g >= 0,
    ensures
        iabs(mul_unit_spec(s, g)) == mul_unit_spec(iabs(s), g),
        mul_unit_spec(iabs(s), g) >= 0,
{
    vstd::arithmetic::div_mod::lemma_div_pos_is_pos(iabs(s) * iabs(g), UNIT as int);
}

/// Scaling by a non-negative gain is monotone on non-negative samples.
pub proof fn lemma_mul_unit_mono(a: int, b: int, g: int)
    requires
        0 <= a <= b,
        g >= 0,
    ensures
        mul_unit_spec(a, g) <= mul_unit_spec(b, g),
{
    assert(a * g <= b * g) by (nonlinear_arith)
        requires
            0 <= a <= b,
            g >= 0,
    ;
    vstd::arithmetic::div_mod::lemma_div_is_ordered(a * g, b * g, UNIT as int);
    vstd::arithmetic::div_mod::lemma_div_pos_is_pos(a * g, UNIT as int);
}

/// Divide by `UNIT`, rounding toward zero.
pub open spec fn div_unit_trunc(v: int) -> int {
    if v < 0 {
        -((-v) / 1000000)
    } else {
        v / 1000000
    }
}

/// `muldiv_spec(n, UNIT, d)` never grows the numerator when `d >= UNIT`.
pub proof fn lemma_muldiv_within(n: int, d: int)
    requires
        d >= UNIT,
    ensures
        iabs(muldiv_spec(n, UNIT as int, d)) <= iabs(n),
{
    let p = iabs(n) * iabs(UNIT as int);
    vstd::arithmetic::div_mod::lemma_div_pos_is_pos(p, d);
    vstd::arithmetic::div_mod::lemma_div_is_ordered_by_denominator(p, UNIT as int, d);
    assert(iabs(n) * iabs(UNIT as int) == (UNIT as int) * iabs(n)) by (nonlinear_arith);
    vstd::arithmetic::div_mod::lemma_div_multiples_vanish(iabs(n), UNIT as int);
}

/// A bound on `muldiv_spec` from bounds on its arguments.
pub proof fn lemma_muldiv_bound(a: int, b: int, d: int, ba: int, bb: int)
    requires
        d > 0,
        iabs(a) <= ba,
        iabs(b) <= bb,
    ensures
        iabs(muldiv_spec(a, b, d)) <= ba * bb / d,
        d >= 1 && b >= 0 && a >= 0 ==> muldiv_spec(a, b, d) >= 0,
{
    assert(iabs(a) * iabs(b) <= ba * bb) by (nonlinear_arith)
        requires
            0 <= iabs(a) <= ba,
            0 <= iabs(b) <= bb,
    ;
    vstd::arithmetic::div_mod::lemma_div_is_ordered(iabs(a) * iabs(b), ba * bb, d);
    vstd::arithmetic::div_mod::lemma_div_pos_is_pos(iabs(a) * iabs(b), d);
}

/// Magnitude of an `i64`, saturated at `CLIP_MAX`.
pub fn abs_clip(a: i64) -> (r: i64)
    ensures
        r as int == clip64(iabs(a as int)),
        r >= 0,
{
    let u: u64 = abs_u64(a);
    if u > (CLIP_MAX as u64) {
        CLIP_MAX
    } else {
        u as i64
    }
}

/// Scaling by a factor in `[0, UNIT]` never grows a value's magnitude, and
/// keeps its sign.
pub proof fn lemma_mul_unit_le_one(c: int, d: int)
    requires
        0 <= c <= UNIT,
    ensures
        iabs(mul_unit_spec(c, d)) <= iabs(d),
        d >= 0 ==> mul_unit_spec(c, d) >= 0,
        d <= 0 ==> mul_unit_spec(c, d) <= 0,
{
    assert(iabs(c) * iabs(d) <= (UNIT as int) * iabs(d)) by (nonlinear_arith)
        requires
            0 <= c <= UNIT,
            iabs(d) >= 0,
            iabs(c) == c,
    ;
    vstd::arithmetic::div_mod::lemma_div_is_ordered(
        iabs(c) * iabs(d),
        (UNIT as int) * iabs(d),
        UNIT as int,
    );
    vstd::arithmetic::div_mod::lemma_div_multiples_vanish(iabs(d), UNIT as int);
    vstd::arithmetic::div_mod::lemma_div_pos_is_pos(iabs(c) * iabs(d), UNIT as int);
}

/// Scaling by `UNIT` is the identity on representable values.
pub proof fn lemma_mul_unit_one(s: int)
    requires
        -CLIP_MAX <= s <= CLIP_MAX,
    ensures
        mul_unit_spec(s, UNIT as int) == s,
{
    assert(iabs(s) * iabs(UNIT as int) == (UNIT as int) * iabs(s)) by (nonlinear_arith);
    vstd::arithmetic::div_mod::lemma_div_multiples_vanish(iabs(s), UNIT as int);
}

/// `10^j` for `0 <= j <= 18`, written out as literals.
pub open spec fn pow10_spec(j: int) -> int {
    if j <= 0 {
        1
    } else if j == 1 {
        10
    } else if j == 2 {
        100
    } else if j == 3 {
        1000
    } else if j == 4 {
        10000
    } else if j == 5 {
        100000
    } else if j == 6 {
        1000000
    } else if j == 7 {
        10000000
    } else if j == 8 {
        100000000
    } else if j == 9 {
        1000000000
    } else if j == 10 {
        10000000000
    } else if j == 11 {
        100000000000
    } else if j == 12 {
        1000000000000
    } else if j == 13 {
        10000000000000
    } else if j == 14 {
        100000000000000
    } else if j == 15 {
        1000000000000000
    } else if j == 16 {
        10000000000000000
    } else if j == 17 {
        100000000000000000
    } else {
        1000000000000000000
    }
}

/// `10^j` as a `u64`; mirrors `pow10_spec`.
pub fn pow10(j: u32) -> (r: u64)
    requires
        j <= 18,
    ensures
        r as int == pow10_spec(j as int),
{
    if j == 0 {
        1
    } else if j == 1 {
        10
    } else if j == 2 {
        100
    } else if j == 3 {
        1000
    } else if j == 4 {
        10000
    } else if j == 5 {
        100000
    } else if j == 6 {
        1000000
    } else if j == 7 {
        10000000
    } else if j == 8 {
        100000000
    } else if j == 9 {
        1000000000
    } else if j == 10 {
        10000000000
    } else if j == 11 {
        100000000000
    } else if j == 12 {
        1000000000000
    } else if j == 13 {
        10000000000000
    } else if j == 14 {
        100000000000000
    } else if j == 15 {
        1000000000000000
    } else if j == 16 {
        10000000000000000
    } else if j == 17 {
        100000000000000000
    } else {
        1000000000000000000
    }
}

/// The quarter-decade constant `10^(q/4)` in millionths, for `q` in `0..4`.
pub open spec fn quarter_pow_spec(q: int) -> int {
    if q <= 0 {
        1000000
    } else if q == 1 {
        1778279
    } else if q == 2 {
        3162278
    } else {
        5623413
    }
}

/// `10^(db / 20 / UNIT)` in millionths: decibels to linear gain.
///
/// The decibel value is split into whole decades and a fractional part; the
/// fraction is resolved through quarter-decade constants and a fifth-order
/// exponential series, all in integer arithmetic. Within the parameter
/// ranges the result is within one part in a thousand of the real power,
/// absolutely or relatively, whichever is looser.
pub open spec fn db_to_linear_spec(db: int) -> int {
    let eshift = (db + 360000000) / 20;
    let k = eshift / 1000000;
    let f = eshift % 1000000;
    let q = f / 250000;
    let rr = f % 250000;
    let y = rr * 2302585 / 1000000;
    let p = 1000000 + y + y * y / 2000000 + y * y * y / 6000000000000 + (y * y) * (y * y)
        / 24000000000000000000 + ((y * y) * (y * y)) * y / 120000000000000000000000000;
    let m = quarter_pow_spec(q) * p / 1000000;
    if k >= 18 {
        m * pow10_spec(k - 18)
    } else {
        m / pow10_spec(18 - k)
    }
}

/// Decibels (in millionths of a dB) to linear gain (in millionths).
pub fn db_to_linear(db: i64) -> (r: i64)
    requires
        -360000000 <= db <= 120000000,
    ensures
        r as int == db_to_linear_spec(db as int),
        0 <= r <= 20000000000000,
        db <= 12000000 ==> r <= 10122144,
{
    let eshift: u64 = ((db + 360000000) as u64) / 20;
    let k: u64 = eshift / 1000000;
    let f: u64 = eshift % 1000000;
    let q: u64 = f / 250000;
    let rr: u64 = f % 250000;
    let y: u64 = rr * 2302585 / 1000000;
    proof {
        assert(rr * 2302585 <= 250000 * 2302585) by (nonlinear_arith)
            requires
                rr <= 250000,
        ;
        vstd::arithmetic::div_mod::lemma_div_is_ordered(
            (rr * 2302585) as int,
            (250000 * 2302585) as int,
            1000000,
        );
    }
    assert(y <= 575647);
    proof {
        assert(y * y <= 575647 * 575647) by (nonlinear_arith)
            requires
                y <= 575647,
        ;
        assert(y * y * y <= 575647 * 575647 * 575647) by (nonlinear_arith)
            requires
                y <= 575647,
        ;
    }
    proof {
        assert((y as int) * (y as int) * ((y as int) * (y as int)) <= (575647int * 575647) * (
        575647int * 575647)) by (nonlinear_arith)
            requires
                y <= 575647,
        ;
        assert((y as int) * (y as int) * ((y as int) * (y as int)) * (y as int) <= (575647int
            * 575647) * (575647int * 575647) * 575647) by (nonlinear_arith)
            requires
                y <= 575647,
        ;
    }
    let t4: u128 = ((y as u128) * (y as u128)) * ((y as u128) * (y as u128))
        / 24000000000000000000;
    let t5: u128 = (((y as u128) * (y as u128)) * ((y as u128) * (y as u128))) * (y as u128)
        / 120000000000000000000000000;
    proof {
        vstd::arithmetic::div_mod::lemma_div_is_ordered(
            (y as int) * (y as int) * ((y as int) * (y as int)),
            (575647int * 575647) * (575647int * 575647),
            24000000000000000000,
        );
        vstd::arithmetic::div_mod::lemma_div_is_ordered(
            (y as int) * (y as int) * ((y as int) * (y as int)) * (y as int),
            (575647int * 575647) * (575647int * 575647) * 575647,
            120000000000000000000000000,
        );
    }
    assert(t4 <= 4580 && t5 <= 530);
    let p: u64 = 1000000 + y + y * y / 2000000 + (y * y) * y / 6000000000000 + (t4 as u64) + (
    t5 as u64);
    proof {
        vstd::arithmetic::div_mod::lemma_div_is_ordered(
            (y * y) as int,
            (575647 * 575647) as int,
            2000000,
        );
        vstd::arithmetic::div_mod::lemma_div_is_ordered(
            (y * y * y) as int,
            (575647 * 575647 * 575647) as int,
            6000000000000,
        );
    }
    assert(p <= 1800000);
    let c: u64 = if q == 0 {
        1000000
    } else if q == 1 {
        1778279
    } else if q == 2 {
        3162278
    } else {
        5623413
    };
    proof {
        assert(c * p <= 5623413 * 1800000) by (nonlinear_arith)
            requires
                c <= 5623413,
                p <= 1800000,
        ;
        vstd::arithmetic::div_mod::lemma_div_is_ordered(
            (c * p) as int,
            (5623413 * 1800000) as int,
            1000000,
        );
    }
    let m: u64 = c * p / 1000000;
    assert(m <= 10122144);
    if k >= 18 {
        let t: u64 = pow10((k - 18) as u32);
        proof {
            assert(m * t <= 10122144 * 1000000) by (nonlinear_arith)
                requires
                    m <= 10122144,
                    t <= 1000000,
            ;
            if db <= 12000000 {
                vstd::arithmetic::div_mod::lemma_div_is_ordered(
                    (db + 360000000) as int,
                    372000000,
                    20,
                );
                vstd::arithmetic::div_mod::lemma_div_is_ordered(eshift as int, 18600000, 1000000);
                assert(k == 18);
                assert(m * t == m * 1) by (nonlinear_arith)
                    requires
                        t == 1,
                ;
            }
        }
        (m * t) as i64
    } else {
        let t: u64 = pow10((18 - k) as u32);
        proof {
            vstd::arithmetic::div_mod::lemma_div_is_ordered_by_denominator(m as int, 1, t as int);
        }
        (m / t) as i64
    }
}

/// When the numerator's magnitude is at most the denominator, the scaled
/// ratio is at most `UNIT`.
pub proof fn lemma_muldiv_ratio_le_unit(n: int, d: int)
    requires
        d > 0,
        iabs(n) <= d,
    ensures
        iabs(muldiv_spec(n, UNIT as int, d)) <= UNIT as int,
{
    assert(iabs(n) * iabs(UNIT as int) <= d * (UNIT as int)) by (nonlinear_arith)
        requires
            0 <= iabs(n) <= d,
    ;
    vstd::arithmetic::div_mod::lemma_div_is_ordered(
        iabs(n) * iabs(UNIT as int),
        d * (UNIT as int),
        d,
    );
    vstd::arithmetic::div_mod::lemma_div_pos_is_pos(iabs(n) * iabs(UNIT as int), d);
    assert(d * (UNIT as int) == (UNIT as int) * d) by (nonlinear_arith);
    vstd::arithmetic::div_mod::lemma_div_multiples_vanish(UNIT as int, d);
}

/// Cubic series for `e^(-y)` on `[0, 0.6]`, in millionths.
pub open spec fn exp_neg_spec(y: int) -> int {
    let a = 1000000 + y * y / 2000000;
    let b = y + y * y * y / 6000000000000;
    if b > a {
        0
    } else {
        a - b
    }
}

/// `e^(-y)` for `y` in `[0, 0.6]` (millionths); always within `[0, UNIT]`.
pub fn exp_neg(y: u64) -> (r: i64)
    requires
        y <= 600000,
    ensures
        r as int == exp_neg_spec(y as int),
        0 <= r <= UNIT,
{
    proof {
        assert(y * y <= 600000 * 600000) by (nonlinear_arith)
            requires
                y <= 600000,
        ;
        assert(y * y * y <= 600000 * 600000 * 600000) by (nonlinear_arith)
            requires
                y <= 600000,
        ;
        assert(y * y / 2000000 <= y) by (nonlinear_arith)
            requires
                y <= 600000,
        ;
    }
    let a: u64 = 1000000 + y * y / 2000000;
    let b: u64 = y + (y * y) * y / 6000000000000;
    if b > a {
        0
    } else {
        (a - b) as i64
    }
}

/// Halve `m` until it lies below two million, counting the halvings;
/// `fuel` caps the recursion.
pub open spec fn norm_down_spec(m: int, fuel: int) -> (int, int)
    decreases fuel,
{
    if fuel <= 0 || m < 2000000 {
        (m, 0)
    } else {
        let (m2, e) = norm_down_spec(m / 2, fuel - 1);
        (m2, e + 1)
    }
}

/// Double `m` until it reaches one million, counting the doublings
/// negatively; `fuel` caps the recursion.
pub open spec fn norm_up_spec(m: int, fuel: int) -> (int, int)
    decreases fuel,
{
    if fuel <= 0 || m >= 1000000 || m < 1 {
        (m, 0)
    } else {
        let (m2, e) = norm_up_spec(2 * m, fuel - 1);
        (m2, e - 1)
    }
}

/// Fractional bits of a base-2 logarithm by repeated squaring: `m` is a
/// mantissa in `[1, 2)` (millionths) and `w` the weight of the next bit.
pub open spec fn log2_frac_spec(m: int, w: int, acc: int) -> int
    decreases w,
{
    if w <= 0 {
        acc
    } else {
        let m2 = m * m / 1000000;
        if m2 >= 2000000 {
            log2_frac_spec(m2 / 2, w / 2, acc + w)
        } else {
            log2_frac_spec(m2, w / 2, acc)
        }
    }
}

/// Exec mirror of `norm_down_spec`.
pub fn norm_down(m: u64, fuel: u32) -> (r: (u64, i64))
    ensures
        r.0 as int == norm_down_spec(m as int, fuel as int).0,
        r.1 as int == norm_down_spec(m as int, fuel as int).1,
        0 <= r.1 <= fuel,
        r.0 < 2000000 || r.1 == fuel,
        r.0 * vstd::arithmetic::power2::pow2(r.1 as nat) <= m,
    decreases fuel,
{
    if fuel == 0 || m < 2000000 {
        proof {
            vstd::arithmetic::power2::lemma2_to64();
            assert(m * vstd::arithmetic::power2::pow2(0) <= m);
        }
        (m, 0)
    } else {
        let (m2, e) = norm_down(m / 2, fuel - 1);
        proof {
            let p = vstd::arithmetic::power2::pow2(e as nat);
            vstd::arithmetic::power2::lemma_pow2_unfold((e + 1) as nat);
            assert(vstd::arithmetic::power2::pow2((e + 1) as nat) == 2 * p);
            assert(m2 * (2 * p) == 2 * (m2 * p)) by (nonlinear_arith);
            assert(2 * ((m as int) / 2) <= m as int);
            assert(m2 * vstd::arithmetic::power2::pow2((e + 1) as nat) <= m);
        }
        (m2, e + 1)
    }
}

/// Exec mirror of `norm_up_spec`.
pub fn norm_up(m: u64, fuel: u32) -> (r: (u64, i64))
    requires
        m < 2000000,
    ensures
        r.0 as int == norm_up_spec(m as int, fuel as int).0,
        r.1 as int == norm_up_spec(m as int, fuel as int).1,
        -(fuel as int) <= r.1 <= 0,
        r.0 < 2000000,
    decreases fuel,
{
    if fuel == 0 || m >= 1000000 || m < 1 {
        (m, 0)
    } else {
        let (m3, e) = norm_up(2 * m, fuel - 1);
        (m3, e - 1)
    }
}

/// Exec mirror of `log2_frac_spec`; the result stays within `[acc, acc + 2w]`.
pub fn log2_frac(m: u64, w: u64, acc: u64) -> (r: u64)
    requires
        m < 2000000,
        w <= 1000000,
        acc + 2 * w <= u64::MAX,
    ensures
        r as int == log2_frac_spec(m as int, w as int, acc as int),
        acc <= r <= acc + 2 * w,
    decreases w,
{
    if w == 0 {
        acc
    } else {
        proof {
            assert(m * m <= 2000000 * 2000000) by (nonlinear_arith)
                requires
                    m < 2000000,
            ;
            assert(m * m / 1000000 < 4000000) by (nonlinear_arith)
                requires
                    m < 2000000,
            ;
        }
        let m2: u64 = m * m / 1000000;
        if m2 >= 2000000 {
            log2_frac(m2 / 2, w / 2, acc + w)
        } else {
            log2_frac(m2, w / 2, acc)
        }
    }
}

/// `20 * log10(x / UNIT)` in millionths of a dB, with `x` clamped into
/// `[1e-4, 1e6]` in units (`[100, 1e12]` in millionths) as the measurable
/// level range.
pub open spec fn linear_to_db_spec(x: int) -> int {
    let xm = if x < 100 {
        100
    } else if x > 1000000000000 {
        1000000000000
    } else {
        x
    };
    let me = if xm >= 1000000 {
        norm_down_spec(xm, 24)
    } else {
        norm_up_spec(xm, 20)
    };
    let f = log2_frac_spec(me.0, 500000, 0);
    20 * muldiv_spec(me.1 * 1000000 + f, 301030, 1000000)
}

/// Level (millionths) to decibels (millionths of a dB); mirrors
/// `linear_to_db_spec`.
pub fn linear_to_db(x: i64) -> (r: i64)
    ensures
        r as int == linear_to_db_spec(x as int),
        -400000000 <= r <= 400000000,
{
    let xm: u64 = if x < 100 {
        100
    } else if x > 1000000000000 {
        1000000000000
    } else {
        x as u64
    };
    let (m, e) = if xm >= 1000000 {
        let md = norm_down(xm, 24);
        proof {
            if md.0 >= 2000000 {
                vstd::arithmetic::power2::lemma2_to64();
                assert(md.0 * vstd::arithmetic::power2::pow2(24nat) >= 2000000 * 16777216)
                    by (nonlinear_arith)
                    requires
                        md.0 >= 2000000,
                        vstd::arithmetic::power2::pow2(24nat) == 16777216,
                ;
            }
        }
        md
    } else {
        norm_up(xm, 20)
    };
    assert(m < 2000000);
    assert(-20 <= e <= 24);
    let f: u64 = log2_frac(m, 500000, 0);
    let l2: i64 = e * 1000000 + (f as i64);
    let l10: i64 = muldiv(l2, 301030, 1000000);
    proof {
        assert(iabs(l2 as int) * iabs(301030) <= 25000000 * 301030) by (nonlinear_arith)
            requires
                iabs(l2 as int) <= 25000000,
        ;
        vstd::arithmetic::div_mod::lemma_div_is_ordered(
            iabs(l2 as int) * iabs(301030),
            25000000int * 301030,
            1000000,
        );
        vstd::arithmetic::div_mod::lemma_div_pos_is_pos(iabs(l2 as int) * iabs(301030), 1000000);
    }
    20 * l10
}

/// The integer square root: the largest `r` with `r * r <= m`.
pub fn isqrt_u128(m: u128) -> (r: u64)
    ensures
        (r as int) * (r as int) <= m as int,
        (r as int + 1) * (r as int + 1) > m as int,
{
    let mut lo: u128 = 0;
    let mut hi: u128 = 0x10000000000000000;
    proof {
        assert((0x10000000000000000 as int) * (0x10000000000000000 as int) > u128::MAX as int)
            by (nonlinear_arith);
    }
    while hi - lo > 1
        invariant
            lo < hi <= 0x10000000000000000,
            (lo as int) * (lo as int) <= m as int,
            (hi as int) * (hi as int) > m as int,
        decreases hi - lo,
    {
        let mid: u128 = lo + (hi - lo) / 2;
        proof {
            assert(lo < mid < hi);
            assert((mid as int) * (mid as int) < (0x10000000000000000 as int)
                * (0x10000000000000000 as int)) by (nonlinear_arith)
                requires
                    0 <= mid < 0x10000000000000000,
            ;
            assert((mid as int) * (mid as int) <= u128::MAX as int) by (nonlinear_arith)
                requires
                    0 <= mid <= 0xffffffffffffffff,
            ;
        }
        if mid * mid <= m {
            lo = mid;
        } else {
            hi = mid;
        }
    }
    proof {
        assert(lo <= 0xffffffffffffffff);
        assert(hi == lo + 1);
    }
    lo as u64
}

/// Millionths of pi.
pub const PI_U: i64 = 3141593;

/// Millionths of pi / 2.
pub const HPI_U: i64 = 1570796;

/// Sine on `[0, pi]` in millionths: arguments above `pi/2` reflect to
/// `pi - x`, and the reduced argument goes through the odd series up to the
/// ninth power. The error stays below five millionths, well inside the
/// one-per-thousand tolerance the audio laws allow.
pub open spec fn sin_pi_spec(x: int) -> int {
    let xr = if x > HPI_U {
        PI_U - x
    } else {
        x
    };
    let u = xr * xr / 1000000;
    let a = 1000000 + (u * u) * 8333 / 1000000000000 + ((u * u) * (u * u)) * 27557
        / 10000000000000000000000000000;
    let b = u * 166667 / 1000000 + ((u * u) * u) * 198413 / 1000000000000000000000;
    let p = if b > a {
        0
    } else {
        a - b
    };
    let s = xr * p / 1000000;
    if s > 1000000 {
        1000000
    } else {
        s
    }
}

/// Sine on `[0, pi]` (argument and result in millionths).
pub fn sin_pi(x: i64) -> (r: i64)
    requires
        0 <= x <= PI_U,
    ensures
        r as int == sin_pi_spec(x as int),
        0 <= r <= UNIT,
{
    let xr: u64 = if x > HPI_U {
        (PI_U - x) as u64
    } else {
        x as u64
    };
    assert(xr <= 1570796);
    proof {
        assert((xr as int) * (xr as int) <= 1570796int * 1570796) by (nonlinear_arith)
            requires
                xr <= 1570796,
        ;
        vstd::arithmetic::div_mod::lemma_div_is_ordered(
            (xr as int) * (xr as int),
            1570796int * 1570796,
            1000000,
        );
    }
    let u: u64 = xr * xr / 1000000;
    assert(u <= 2467401);
    proof {
        assert((u as int) * 166667 <= 2467401int * 166667) by (nonlinear_arith)
            requires
                u <= 2467401,
        ;
        assert((u as int) * (u as int) <= 2467401int * 2467401) by (nonlinear_arith)
            requires
                u <= 2467401,
        ;
        assert((u as int) * (u as int) * 8333 <= (2467401int * 2467401) * 8333)
            by (nonlinear_arith)
            requires
                u <= 2467401,
        ;
        assert(((u as int) * (u as int)) * (u as int) * 198413 <= ((2467401int * 2467401)
            * 2467401) * 198413) by (nonlinear_arith)
            requires
                u <= 2467401,
        ;
        assert(((u as int) * (u as int)) * ((u as int) * (u as int)) * 27557 <= ((2467401int
            * 2467401) * (2467401int * 2467401)) * 27557) by (nonlinear_arith)
            requires
                u <= 2467401,
        ;
        vstd::arithmetic::div_mod::lemma_div_is_ordered(
            (u as int) * 166667,
            2467401int * 166667,
            1000000,
        );
        vstd::arithmetic::div_mod::lemma_div_is_ordered(
            (u as int) * (u as int) * 8333,
            (2467401int * 2467401) * 8333,
            1000000000000,
        );
        vstd::arithmetic::div_mod::lemma_div_is_ordered(
            ((u as int) * (u as int)) * (u as int) * 198413,
            ((2467401int * 2467401) * 2467401) * 198413,
            1000000000000000000000,
        );
        vstd::arithmetic::div_mod::lemma_div_is_ordered(
            ((u as int) * (u as int)) * ((u as int) * (u as int)) * 27557,
            ((2467401int * 2467401) * (2467401int * 2467401)) * 27557,
            10000000000000000000000000000,
        );
    }
    let t1: u64 = u * 166667 / 1000000;
    let t2: u64 = (u * u) * 8333 / 1000000000000;
    let t3: u64 = ((((u as u128) * (u as u128)) * (u as u128)) * 198413
        / 1000000000000000000000) as u64;
    let t4: u64 = ((((u as u128) * (u as u128)) * ((u as u128) * (u as u128))) * 27557
        / 10000000000000000000000000000) as u64;
    assert(t1 <= 411234 && t2 <= 50731 && t3 <= 2981 && t4 <= 103);
    let a: u64 = 1000000 + t2 + t4;
    let b: u64 = t1 + t3;
    let p: u64 = if b > a {
        0
    } else {
        a - b
    };
    proof {
        assert((xr as int) * (p as int) <= 1570796int * 1050834) by (nonlinear_arith)
            requires
                xr <= 1570796,
                p <= 1050834,
        ;
        vstd::arithmetic::div_mod::lemma_div_is_ordered(
            (xr as int) * (p as int),
            1570796int * 1050834,
            1000000,
        );
    }
    let s: u64 = xr * p / 1000000;
    if s > 1000000 {
        1000000
    } else {
        s as i64
    }
}

/// Cosine on `[0, pi]`, derived from the sine approximation by phase shift.
pub open spec fn cos_pi_spec(x: int) -> int {
    if x <= HPI_U {
        sin_pi_spec(HPI_U - x)
    } else {
        -sin_pi_spec(x - HPI_U)
    }
}

/// Cosine on `[0, pi]` (argument and result in millionths).
pub fn cos_pi(x: i64) -> (r: i64)
    requires
        0 <= x <= PI_U,
    ensures
        r as int == cos_pi_spec(x as int),
        -UNIT <= r <= UNIT,
{
    if x <= HPI_U {
        sin_pi(HPI_U - x)
    } else {
        -sin_pi(x - HPI_U)
    }
}

/// Left equal-power pan gain for a pan position in `[-UNIT, UNIT]`.
pub open spec fn pan_gl_spec(pan: int) -> int {
    sin_pi_spec(HPI_U - (pan + 1000000) / 2 * HPI_U / 1000000)
}

/// Right equal-power pan gain for a pan position in `[-UNIT, UNIT]`.
pub open spec fn pan_gr_spec(pan: int) -> int {
    sin_pi_spec((pan + 1000000) / 2 * HPI_U / 1000000)
}

/// Equal-power pan gains `(left, right)`: the pan position is mapped to an
/// angle in `[0, pi/2]` whose cosine and sine give the two gains. At centre
/// the two gains are identical.
pub fn pan_gains(pan: i64) -> (r: (i64, i64))
    requires
        -UNIT <= pan <= UNIT,
    ensures
        r.0 as int == pan_gl_spec(pan as int),
        r.1 as int == pan_gr_spec(pan as int),
        0 <= r.0 <= UNIT,
        0 <= r.1 <= UNIT,
        pan == 0 ==> r.0 == r.1,
{
    let half: i64 = (pan + UNIT) / 2;
    proof {
        assert((pan + 1000000) / 2 * HPI_U <= 1000000 * HPI_U) by (nonlinear_arith)
            requires
                0 <= (pan + 1000000) / 2 <= 1000000,
        ;
        assert((pan + 1000000) / 2 * HPI_U >= 0) by (nonlinear_arith)
            requires
                0 <= (pan + 1000000) / 2,
        ;
        vstd::arithmetic::div_mod::lemma_div_is_ordered(
            ((pan + 1000000) / 2 * HPI_U) as int,
            (1000000 * HPI_U) as int,
            1000000,
        );
        vstd::arithmetic::div_mod::lemma_div_pos_is_pos(((pan + 1000000) / 2 * HPI_U) as int, 1000000);
        vstd::arithmetic::div_mod::lemma_div_multiples_vanish(HPI_U as int, 1000000);
    }
    let theta: i64 = half * HPI_U / 1000000;
    assert(0 <= theta <= HPI_U);
    let gl: i64 = sin_pi(HPI_U - theta);
    let gr: i64 = sin_pi(theta);
    (gl, gr)
}

} // verus!

