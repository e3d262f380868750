//! A second-order IIR (biquad) filter in the peaking-EQ configuration,
//! with independent left/right history, over fixed-point samples.

use vstd::prelude::*;
use crate::fixed::{clip64, db_to_linear_spec, cos_pi, cos_pi_spec, db_to_linear, div_unit_trunc,
    iabs, lemma_muldiv_bound, lemma_muldiv_within, muldiv, muldiv_spec, sin_pi, sin_pi_spec,
    CLIP_MAX, PI_U, UNIT};

verus! {

/// Direct Form I biquad: five normalized coefficients (millionths) and two
/// delayed inputs/outputs per channel.
pub struct BiquadFilter {
    /// Feedforward coefficient on the current input.
    pub a0: i64,
    /// Feedforward coefficient on the input one sample back.
    pub a1: i64,
    /// Feedforward coefficient on the input two samples back.
    pub a2: i64,
    /// Feedback coefficient on the output one sample back.
    pub b1: i64,
    /// Feedback coefficient on the output two samples back.
    pub b2: i64,
    /// Left input, one sample back.
    pub x1_l: i64,
    /// Left input, two samples back.
    pub x2_l: i64,
    /// Left output, one sample back.
    pub y1_l: i64,
    /// Left output, two samples back.
    pub y2_l: i64,
    /// Right input, one sample back.
    pub x1_r: i64,
    /// Right input, two samples back.
    pub x2_r: i64,
    /// Right output, one sample back.
    pub y1_r: i64,
    /// Right output, two samples back.
    pub y2_r: i64,
}

/// Coefficients stay small enough for the recurrence to be computed in
/// 128-bit intermediates.
pub open spec fn coeffs_bounded(f: BiquadFilter) -> bool {
    &&& iabs(f.a0 as int) <= 100000000
    &&& iabs(f.a1 as int) <= 100000000
    &&& iabs(f.a2 as int) <= 100000000
    &&& iabs(f.b1 as int) <= 100000000
    &&& iabs(f.b2 as int) <= 100000000
}

/// The Direct Form I combination
/// `(a0 x + a1 x1 + a2 x2 - b1 y1 - b2 y2) / UNIT`, rounded toward zero
/// and saturated.
pub open spec fn dot_spec(
    a0: int,
    a1: int,
    a2: int,
    b1: int,
    b2: int,
    x: int,
    x1: int,
    x2: int,
    y1: int,
    y2: int,
) -> int {
    clip64(div_unit_trunc(a0 * x + a1 * x1 + a2 * x2 - b1 * y1 - b2 * y2))
}

/// One filter step on the left channel: the produced output and the filter
/// with shifted left history.
pub open spec fn step_left_spec(f: BiquadFilter, x: int) -> (int, BiquadFilter) {
    let y = dot_spec(
        f.a0 as int,
        f.a1 as int,
        f.a2 as int,
        f.b1 as int,
        f.b2 as int,
        x,
        f.x1_l as int,
        f.x2_l as int,
        f.y1_l as int,
        f.y2_l as int,
    );
    (y, BiquadFilter { x2_l: f.x1_l, x1_l: x as i64, y2_l: f.y1_l, y1_l: y as i64, ..f })
}

/// One filter step on the right channel.
pub open spec fn step_right_spec(f: BiquadFilter, x: int) -> (int, BiquadFilter) {
    let y = dot_spec(
        f.a0 as int,
        f.a1 as int,
        f.a2 as int,
        f.b1 as int,
        f.b2 as int,
        x,
        f.x1_r as int,
        f.x2_r as int,
        f.y1_r as int,
        f.y2_r as int,
    );
    (y, BiquadFilter { x2_r: f.x1_r, x1_r: x as i64, y2_r: f.y1_r, y1_r: y as i64, ..f })
}

/// Filter a whole interleaved stereo sequence: even indices through the
/// left history, odd ones through the right; a final even sample without a
/// partner still passes through the left channel.
pub open spec fn bq_seq_spec(f: BiquadFilter, s: Seq<i64>) -> (Seq<i64>, BiquadFilter)
    decreases s.len(),
{
    if s.len() == 0 {
        (s, f)
    } else if s.len() == 1 {
        let (y, f1) = step_left_spec(f, s[0] as int);
        (seq![y as i64], f1)
    } else {
        let (yl, f1) = step_left_spec(f, s[0] as int);
        let (yr, f2) = step_right_spec(f1, s[1] as int);
        let rest = bq_seq_spec(f2, s.skip(2));
        (seq![yl as i64, yr as i64] + rest.0, rest.1)
    }
}

/// The normalized peaking-EQ coefficients `(a0, a1, a2, b1, b2)` for a
/// centre frequency, gain, and Q at 48 kHz, after the RBJ cookbook, in
/// integer arithmetic throughout.
pub open spec fn peaking_coeffs_spec(freq: int, gain_db: int, q: int) -> (int, int, int, int, int) {
    let frac = freq / 48000;
    let w = 6283185 * frac / 1000000;
    let sw = sin_pi_spec(w);
    let cw = cos_pi_spec(w);
    let alpha = muldiv_spec(sw, 1000000, 2 * q);
    let aa0 = db_to_linear_spec(muldiv_spec(gain_db, 1, 2));
    let aa = if aa0 < 1 {
        1
    } else {
        aa0
    };
    let ta = muldiv_spec(alpha, aa, 1000000);
    let tb = muldiv_spec(alpha, 1000000, aa);
    let b0 = 1000000 + ta;
    let b1 = -2 * cw;
    let b2 = 1000000 - ta;
    let a0 = 1000000 + tb;
    let a2 = 1000000 - tb;
    (
        muldiv_spec(b0, 1000000, a0),
        muldiv_spec(b1, 1000000, a0),
        muldiv_spec(b2, 1000000, a0),
        muldiv_spec(b1, 1000000, a0),
        muldiv_spec(a2, 1000000, a0),
    )
}

impl BiquadFilter {
    /// A transparent filter: unity feedforward, no feedback, no history.
    pub fn new() -> (r: BiquadFilter)
        ensures
            r.a0 == UNIT,
            r.a1 == 0i64,
            r.a2 == 0i64,
            r.b1 == 0i64,
            r.b2 == 0i64,
            r.x1_l == 0i64 && r.x2_l == 0i64 && r.y1_l == 0i64 && r.y2_l == 0i64,
            r.x1_r == 0i64 && r.x2_r == 0i64 && r.y1_r == 0i64 && r.y2_r == 0i64,
            coeffs_bounded(*&r),
    {
        BiquadFilter {
            a0: UNIT,
            a1: 0,
            a2: 0,
            b1: 0,
            b2: 0,
            x1_l: 0,
            x2_l: 0,
            y1_l: 0,
            y2_l: 0,
            x1_r: 0,
            x2_r: 0,
            y1_r: 0,
            y2_r: 0,
        }
    }

    /// Derive this filter's coefficients for a peaking EQ band at 48 kHz;
    /// the history is preserved.
    pub fn update_peaking_eq(&mut self, freq: i64, gain_db: i64, q: i64)
        requires
            20000000 <= freq <= 20000000000,
            -24000000 <= gain_db <= 24000000,
            100000 <= q <= 10000000,
        ensures
            ({
                let c = peaking_coeffs_spec(freq as int, gain_db as int, q as int);
                &&& final(self).a0 as int == c.0
                &&& final(self).a1 as int == c.1
                &&& final(self).a2 as int == c.2
                &&& final(self).b1 as int == c.3
                &&& final(self).b2 as int == c.4
            }),
            final(self).x1_l == old(self).x1_l,
            final(self).x2_l == old(self).x2_l,
            final(self).y1_l == old(self).y1_l,
            final(self).y2_l == old(self).y2_l,
            final(self).x1_r == old(self).x1_r,
            final(self).x2_r == old(self).x2_r,
            final(self).y1_r == old(self).y1_r,
            final(self).y2_r == old(self).y2_r,
            coeffs_bounded(*final(self)),
    {
        let frac: i64 = freq / 48000;
        proof {
            vstd::arithmetic::div_mod::lemma_div_is_ordered(freq as int, 20000000000, 48000);
            vstd::arithmetic::div_mod::lemma_div_pos_is_pos(freq as int, 48000);
            assert(6283185 * frac <= 6283185 * 416666) by (nonlinear_arith)
                requires
                    0 <= frac <= 416666,
            ;
            assert(6283185 * frac >= 0) by (nonlinear_arith)
                requires
                    frac >= 0,
            ;
            vstd::arithmetic::div_mod::lemma_div_is_ordered(
                6283185 * frac,
                6283185int * 416666,
                1000000,
            );
            vstd::arithmetic::div_mod::lemma_div_pos_is_pos(6283185 * frac, 1000000);
        }
        let w: i64 = 6283185 * frac / 1000000;
        assert(0 <= w <= PI_U);
        let sw: i64 = sin_pi(w);
        let cw: i64 = cos_pi(w);
        let alpha: i64 = muldiv(sw, 1000000, 2 * q);
        proof {
            lemma_muldiv_bound(sw as int, 1000000, 2 * q as int, 1000000, 1000000);
            vstd::arithmetic::div_mod::lemma_div_is_ordered_by_denominator(
                1000000int * 1000000,
                200000,
                2 * q as int,
            );
        }
        assert(0 <= alpha <= 5000000);
        let g2: i64 = muldiv(gain_db, 1, 2);
        proof {
            lemma_muldiv_bound(gain_db as int, 1, 2, 24000000, 1);
        }
        let aa0: i64 = db_to_linear(g2);
        let aa: i64 = if aa0 < 1 {
            1
        } else {
            aa0
        };
        let ta: i64 = muldiv(alpha, aa, 1000000);
        proof {
            lemma_muldiv_bound(alpha as int, aa as int, 1000000, 5000000, 10122144);
        }
        assert(0 <= ta <= 50610720);
        let tb: i64 = muldiv(alpha, 1000000, aa);
        proof {
            lemma_muldiv_bound(alpha as int, 1000000, aa as int, 5000000, 1000000);
            vstd::arithmetic::div_mod::lemma_div_is_ordered_by_denominator(
                5000000int * 1000000,
                1,
                aa as int,
            );
        }
        assert(0 <= tb <= 5000000000000);
        let b0: i64 = 1000000 + ta;
        let b1: i64 = -2 * cw;
        let b2: i64 = 1000000 - ta;
        let a0: i64 = 1000000 + tb;
        let a2: i64 = 1000000 - tb;
        proof {
            lemma_muldiv_within(b0 as int, a0 as int);
            lemma_muldiv_within(b1 as int, a0 as int);
            lemma_muldiv_within(b2 as int, a0 as int);
            assert(iabs(a2 as int) <= a0 as int);
            crate::fixed::lemma_muldiv_ratio_le_unit(a2 as int, a0 as int);
        }
        self.a0 = muldiv(b0, 1000000, a0);
        self.a1 = muldiv(b1, 1000000, a0);
        self.a2 = muldiv(b2, 1000000, a0);
        self.b1 = muldiv(b1, 1000000, a0);
        self.b2 = muldiv(a2, 1000000, a0);
    }

    /// Filter the interleaved stereo samples in place, exactly as
    /// `bq_seq_spec` describes.
    pub fn process_stereo(&mut self, samples: &mut Vec<i64>)
        requires
            coeffs_bounded(*old(self)),
        ensures
            final(samples)@ == bq_seq_spec(*old(self), old(samples)@).0,
            *final(self) == bq_seq_spec(*old(self), old(samples)@).1,
            coeffs_bounded(*final(self)),
    {
        let ghost f0 = *self;
        let ghost s = samples@;
        let n: usize = samples.len();
        let mut i: usize = 0;
        proof {
            assert(s.skip(0) =~= s);
        }
        while i + 1 < n
            invariant
                i % 2 == 0,
                i <= n,
                n == samples@.len(),
                n == s.len(),
                coeffs_bounded(*self),
                bq_seq_spec(f0, s).0 == samples@.take(i as int) + bq_seq_spec(
                    *self,
                    s.skip(i as int),
                ).0,
                bq_seq_spec(f0, s).1 == bq_seq_spec(*self, s.skip(i as int)).1,
                forall|j: int| i <= j < n ==> samples@[j] == s[j],
            decreases n - i,
        {
            let ghost fin = *self;
            let xl: i64 = samples[i];
            let xr: i64 = samples[i + 1];
            let yl: i64 = combine(
                self.a0,
                self.a1,
                self.a2,
                self.b1,
                self.b2,
                xl,
                self.x1_l,
                self.x2_l,
                self.y1_l,
                self.y2_l,
            );
            self.x2_l = self.x1_l;
            self.x1_l = xl;
            self.y2_l = self.y1_l;
            self.y1_l = yl;
            let yr: i64 = combine(
                self.a0,
                self.a1,
                self.a2,
                self.b1,
                self.b2,
                xr,
                self.x1_r,
                self.x2_r,
                self.y1_r,
                self.y2_r,
            );
            self.x2_r = self.x1_r;
            self.x1_r = xr;
            self.y2_r = self.y1_r;
            self.y1_r = yr;
            samples.set(i, yl);
            samples.set(i + 1, yr);
            proof {
                let tail = s.skip(i as int);
                assert(tail.len() >= 2);
                assert(tail[0] == s[i as int]);
                assert(tail[1] == s[i as int + 1]);
                assert(tail.skip(2) =~= s.skip(i as int + 2));
                let st1 = step_left_spec(fin, tail[0] as int);
                let st2 = step_right_spec(st1.1, tail[1] as int);
                assert(st1.0 == yl as int);
                assert(st2.0 == yr as int);
                assert(st2.1 == *self);
                assert(bq_seq_spec(fin, tail).0 == seq![yl, yr] + bq_seq_spec(
                    *self,
                    s.skip(i as int + 2),
                ).0);
                assert(samples@.take(i as int + 2) =~= samples@.take(i as int) + seq![yl, yr]);
                assert(samples@.take(i as int) + (seq![yl, yr] + bq_seq_spec(
                    *self,
                    s.skip(i as int + 2),
                ).0) =~= samples@.take(i as int + 2) + bq_seq_spec(*self, s.skip(i as int + 2)).0);
            }
            i = i + 2;
        }
        if i < n {
            let ghost fin = *self;
            let xl: i64 = samples[i];
            let yl: i64 = combine(
                self.a0,
                self.a1,
                self.a2,
                self.b1,
                self.b2,
                xl,
                self.x1_l,
                self.x2_l,
                self.y1_l,
                self.y2_l,
            );
            self.x2_l = self.x1_l;
            self.x1_l = xl;
            self.y2_l = self.y1_l;
            self.y1_l = yl;
            samples.set(i, yl);
            proof {
                let tail = s.skip(i as int);
                assert(tail.len() == 1);
                assert(tail[0] == s[i as int]);
                let st1 = step_left_spec(fin, tail[0] as int);
                assert(st1.0 == yl as int);
                assert(st1.1 == *self);
                assert(bq_seq_spec(fin, tail).0 == seq![yl]);
                assert(samples@.take(i as int) + seq![yl] =~= samples@);
            }
        } else {
            proof {
                assert(s.skip(i as int).len() == 0);
                assert(samples@.take(i as int) + s.skip(i as int) =~= samples@);
            }
        }
        proof {
            assert(samples@ == bq_seq_spec(f0, s).0);
        }
    }

    /// Clear all delayed inputs and outputs; coefficients are kept.
    pub fn reset(&mut self)
        ensures
            final(self).a0 == old(self).a0,
            final(self).a1 == old(self).a1,
            final(self).a2 == old(self).a2,
            final(self).b1 == old(self).b1,
            final(self).b2 == old(self).b2,
            final(self).x1_l == 0i64 && final(self).x2_l == 0i64,
            final(self).y1_l == 0i64 && final(self).y2_l == 0i64,
            final(self).x1_r == 0i64 && final(self).x2_r == 0i64,
            final(self).y1_r == 0i64 && final(self).y2_r == 0i64,
            coeffs_bounded(*old(self)) ==> coeffs_bounded(*final(self)),
    {
        self.x1_l = 0;
        self.x2_l = 0;
        self.y1_l = 0;
        self.y2_l = 0;
        self.x1_r = 0;
        self.x2_r = 0;
        self.y1_r = 0;
        self.y2_r = 0;
    }
}

/// Exec mirror of `dot_spec`, computed in 128-bit intermediates.
fn combine(
    a0: i64,
    a1: i64,
    a2: i64,
    b1: i64,
    b2: i64,
    x: i64,
    x1: i64,
    x2: i64,
    y1: i64,
    y2: i64,
) -> (r: i64)
    requires
        iabs(a0 as int) <= 100000000,
        iabs(a1 as int) <= 100000000,
        iabs(a2 as int) <= 100000000,
        iabs(b1 as int) <= 100000000,
        iabs(b2 as int) <= 100000000,
    ensures
        r as int == dot_spec(
            a0 as int,
            a1 as int,
            a2 as int,
            b1 as int,
            b2 as int,
            x as int,
            x1 as int,
            x2 as int,
            y1 as int,
            y2 as int,
        ),
{
    proof {
        lemma_prod_bound(a0 as int, x as int);
        lemma_prod_bound(a1 as int, x1 as int);
        lemma_prod_bound(a2 as int, x2 as int);
        lemma_prod_bound(b1 as int, y1 as int);
        lemma_prod_bound(b2 as int, y2 as int);
    }
    let v: i128 = (a0 as i128) * (x as i128) + (a1 as i128) * (x1 as i128) + (a2 as i128) * (
    x2 as i128) - (b1 as i128) * (y1 as i128) - (b2 as i128) * (y2 as i128);
    let neg: bool = v < 0;
    let mag: u128 = if neg {
        (-v) as u128
    } else {
        v as u128
    };
    let q: u128 = mag / 1000000;
    let res: i64 = if q > (CLIP_MAX as u128) {
        CLIP_MAX
    } else {
        q as i64
    };
    if neg {
        -res
    } else {
        res
    }
}

/// A product of a coefficient and a sample stays far inside `i128`.
proof fn lemma_prod_bound(c: int, x: int)
    requires
        iabs(c) <= 100000000,
        -0x8000000000000000 <= x <= 0x7fffffffffffffff,
    ensures
        iabs(c * x) <= 0x800000000000000000000000,
        c * x == if c < 0 != (x < 0) {
            -(iabs(c) * iabs(x))
        } else {
            iabs(c) * iabs(x)
        },
{
    assert(iabs(c * x) == iabs(c) * iabs(x)) by (nonlinear_arith);
    assert(iabs(c) * iabs(x) <= 100000000int * 0x8000000000000000) by (nonlinear_arith)
        requires
            0 <= iabs(c) <= 100000000,
            0 <= iabs(x) <= 0x8000000000000000,
    ;
    assert(c * x == if c < 0 != (x < 0) {
        -(iabs(c) * iabs(x))
    } else {
        iabs(c) * iabs(x)
    }) by (nonlinear_arith);
}

} // verus!
