//! Interleaved sample container and its level/mix/gain primitives.
//!
//! Samples are fixed-point millionths (`fixed::UNIT` is 1.0); for stereo the
//! layout is `[L, R, L, R, ...]`. The informative working range is
//! `[-UNIT, UNIT]`; it is not enforced, and mixing saturates symmetrically.

use vstd::prelude::*;
use vstd::pervasive::VecAdditionalExecFns;
use crate::fixed::{add_sat, add_sat_spec, abs_u64, iabs, mul_unit_spec, muldiv, UNIT};

verus! {

/// Interleaved fixed-point audio samples with a channel count and sample rate.
pub struct AudioBuffer {
    /// Number of channels (1 = mono, 2 = stereo, ...).
    pub channels: usize,
    /// Sample rate in hertz.
    pub sample_rate: u32,
    /// Interleaved samples, in millionths of full scale.
    pub samples: Vec<i64>,
}

/// Element-wise saturating sum over the common prefix; the tail of `a` is kept.
pub open spec fn mix_spec(a: Seq<i64>, b: Seq<i64>) -> Seq<i64> {
    Seq::new(
        a.len(),
        |i: int|
            if i < b.len() {
                add_sat_spec(a[i] as int, b[i] as int) as i64
            } else {
                a[i]
            },
    )
}

/// Every sample scaled by `g` (fixed-point, rounded toward zero).
pub open spec fn scale_spec(a: Seq<i64>, g: i64) -> Seq<i64> {
    Seq::new(a.len(), |i: int| mul_unit_spec(a[i] as int, g as int) as i64)
}

/// Sum of squared sample magnitudes, saturating at the top of a 128-bit
/// accumulator.
pub open spec fn sumsq_spec(s: Seq<i64>) -> int
    decreases s.len(),
{
    if s.len() == 0 {
        0
    } else {
        let t = sumsq_spec(s.drop_last()) + iabs(s.last() as int) * iabs(s.last() as int);
        if t > u128::MAX {
            u128::MAX as int
        } else {
            t
        }
    }
}

/// Largest sample magnitude; 0 for an empty sequence.
pub open spec fn peak_spec(s: Seq<i64>) -> int
    decreases s.len(),
{
    if s.len() == 0 {
        0
    } else {
        let rest = peak_spec(s.drop_last());
        let last = iabs(s.last() as int);
        if last > rest {
            last
        } else {
            rest
        }
    }
}

/// The peak never lies below any single sample's magnitude.
pub proof fn lemma_peak_bounds(s: Seq<i64>)
    ensures
        0 <= peak_spec(s),
        forall|i: int| 0 <= i < s.len() ==> iabs(s[i] as int) <= peak_spec(s),
    decreases s.len(),
{
    if s.len() > 0 {
        lemma_peak_bounds(s.drop_last());
        assert(forall|i: int| 0 <= i < s.len() - 1 ==> s.drop_last()[i] == s[i]);
    }
}

/// Scaling a buffer by a non-negative gain scales its peak by exactly the
/// same gain: `peak(scale(s, g)) == g * peak(s)` in fixed point.
pub proof fn lemma_peak_scale(s: Seq<i64>, g: i64)
    requires
        g >= 0,
    ensures
        peak_spec(scale_spec(s, g)) == mul_unit_spec(peak_spec(s), g as int),
    decreases s.len(),
{
    if s.len() == 0 {
        assert(scale_spec(s, g).len() == 0);
        assert(iabs(0) * iabs(g as int) == 0) by (nonlinear_arith);
        assert(0int / (UNIT as int) == 0) by (nonlinear_arith);
        assert(mul_unit_spec(0, g as int) == 0);
    } else {
        lemma_peak_scale(s.drop_last(), g);
        assert(scale_spec(s, g).drop_last() =~= scale_spec(s.drop_last(), g));
        let last = s.last() as int;
        let pd = peak_spec(s.drop_last());
        crate::fixed::lemma_mul_unit_abs(last, g as int);
        lemma_peak_bounds(s.drop_last());
        assert(scale_spec(s, g).last() as int == mul_unit_spec(last, g as int));
        if iabs(last) > pd {
            crate::fixed::lemma_mul_unit_mono(pd, iabs(last), g as int);
        } else {
            crate::fixed::lemma_mul_unit_mono(iabs(last), pd, g as int);
        }
    }
}

impl AudioBuffer {
    /// Allocate `channels * num_samples` zero samples.
    pub fn new(channels: usize, sample_rate: u32, num_samples: usize) -> (r: AudioBuffer)
        requires
            channels * num_samples <= usize::MAX,
        ensures
            r.channels == channels,
            r.sample_rate == sample_rate,
            r.samples@.len() == channels * num_samples,
            forall|i: int| 0 <= i < r.samples@.len() ==> r.samples@[i] == 0i64,
    {
        let total: usize = num_samples * channels;
        let samples: Vec<i64> = vec![0i64; total];
        AudioBuffer { channels, sample_rate, samples }
    }

    /// A silent buffer: all samples zero.
    pub fn silence(channels: usize, sample_rate: u32, num_samples: usize) -> (r: AudioBuffer)
        requires
            channels * num_samples <= usize::MAX,
        ensures
            r.channels == channels,
            r.sample_rate == sample_rate,
            r.samples@.len() == channels * num_samples,
            forall|i: int| 0 <= i < r.samples@.len() ==> r.samples@[i] == 0i64,
    {
        AudioBuffer::new(channels, sample_rate, num_samples)
    }

    /// Frames per channel of this buffer.
    pub open spec fn num_frames_spec(&self) -> int {
        if self.channels == 0 {
            0
        } else {
            self.samples@.len() as int / self.channels as int
        }
    }

    /// Number of frames (samples per channel); 0 when there are no channels.
    pub fn num_frames(&self) -> (r: usize)
        ensures
            r as int == self.num_frames_spec(),
    {
        if self.channels == 0 {
            0
        } else {
            self.samples.len() / self.channels
        }
    }

    /// Set every sample to zero, keeping the length, channels, and rate.
    pub fn clear(&mut self)
        ensures
            final(self).channels == old(self).channels,
            final(self).sample_rate == old(self).sample_rate,
            final(self).samples@.len() == old(self).samples@.len(),
            forall|i: int| 0 <= i < final(self).samples@.len() ==> final(self).samples@[i] == 0i64,
    {
        let n: usize = self.samples.len();
        let mut i: usize = 0;
        while i < n
            invariant
                i <= n,
                n == self.samples@.len(),
                self.channels == old(self).channels,
                self.sample_rate == old(self).sample_rate,
                forall|j: int| 0 <= j < i ==> self.samples@[j] == 0i64,
            decreases n - i,
        {
            self.samples.set(i, 0i64);
            i = i + 1;
        }
    }

    /// Mix `other` into this buffer: element-wise saturating addition over the
    /// common prefix; excess samples on either side are ignored.
    pub fn mix(&mut self, other: &AudioBuffer)
        ensures
            final(self).channels == old(self).channels,
            final(self).sample_rate == old(self).sample_rate,
            final(self).samples@ == mix_spec(old(self).samples@, other.samples@),
    {
        let n: usize = if self.samples.len() < other.samples.len() {
            self.samples.len()
        } else {
            other.samples.len()
        };
        let mut i: usize = 0;
        while i < n
            invariant
                i <= n,
                n <= self.samples@.len(),
                n <= other.samples@.len(),
                self.samples@.len() == old(self).samples@.len(),
                self.channels == old(self).channels,
                self.sample_rate == old(self).sample_rate,
                forall|j: int|
                    0 <= j < i ==> self.samples@[j] as int == add_sat_spec(
                        old(self).samples@[j] as int,
                        other.samples@[j] as int,
                    ),
                forall|j: int| i <= j < self.samples@.len() ==> self.samples@[j] == old(self).samples@[j],
                n == if old(self).samples@.len() < other.samples@.len() {
                    old(self).samples@.len() as int
                } else {
                    other.samples@.len() as int
                },
            decreases n - i,
        {
            let v: i64 = add_sat(self.samples[i], other.samples[i]);
            self.samples.set(i, v);
            i = i + 1;
        }
        proof {
            assert(self.samples@ =~= mix_spec(old(self).samples@, other.samples@));
        }
    }

    /// Scale every sample by the fixed-point gain `g`.
    pub fn apply_gain(&mut self, g: i64)
        ensures
            final(self).channels == old(self).channels,
            final(self).sample_rate == old(self).sample_rate,
            final(self).samples@ == scale_spec(old(self).samples@, g),
    {
        let n: usize = self.samples.len();
        let mut i: usize = 0;
        while i < n
            invariant
                i <= n,
                n == self.samples@.len(),
                self.samples@.len() == old(self).samples@.len(),
                self.channels == old(self).channels,
                self.sample_rate == old(self).sample_rate,
                forall|j: int|
                    0 <= j < i ==> self.samples@[j] as int == mul_unit_spec(
                        old(self).samples@[j] as int,
                        g as int,
                    ),
                forall|j: int| i <= j < n ==> self.samples@[j] == old(self).samples@[j],
            decreases n - i,
        {
            let v: i64 = muldiv(self.samples[i], g, UNIT);
            self.samples.set(i, v);
            i = i + 1;
        }
        proof {
            assert(self.samples@ =~= scale_spec(old(self).samples@, g));
        }
    }

    /// Peak level: the largest sample magnitude, 0 for an empty buffer.
    pub fn peak_level(&self) -> (r: u64)
        ensures
            r as int == peak_spec(self.samples@),
    {
        let n: usize = self.samples.len();
        let mut i: usize = 0;
        let mut best: u64 = 0;
        while i < n
            invariant
                i <= n,
                n == self.samples@.len(),
                best as int == peak_spec(self.samples@.take(i as int)),
            decreases n - i,
        {
            let a: u64 = abs_u64(self.samples[i]);
            proof {
                assert(self.samples@.take(i + 1).drop_last() =~= self.samples@.take(i as int));
            }
            if a > best {
                best = a;
            }
            i = i + 1;
        }
        proof {
            assert(self.samples@.take(n as int) =~= self.samples@);
        }
        best
    }

    /// RMS level: the integer square root of the mean squared sample,
    /// 0 for an empty buffer. The sum of squares saturates at the top of
    /// its 128-bit accumulator.
    pub fn rms_level(&self) -> (r: u64)
        ensures
            self.samples@.len() == 0 ==> r == 0,
            self.samples@.len() > 0 ==> {
                let mean = sumsq_spec(self.samples@) / self.samples@.len() as int;
                &&& (r as int) * (r as int) <= mean
                &&& (r as int + 1) * (r as int + 1) > mean
            },
    {
        let n: usize = self.samples.len();
        if n == 0 {
            return 0;
        }
        let mut acc: u128 = 0;
        let mut i: usize = 0;
        while i < n
            invariant
                i <= n,
                n == self.samples@.len(),
                acc as int == sumsq_spec(self.samples@.take(i as int)),
            decreases n - i,
        {
            let a: u64 = abs_u64(self.samples[i]);
            proof {
                assert((a as int) * (a as int) <= (u64::MAX as int) * (u64::MAX as int))
                    by (nonlinear_arith)
                    requires
                        a <= u64::MAX,
                ;
                assert(self.samples@.take(i + 1).drop_last() =~= self.samples@.take(i as int));
                assert(self.samples@.take(i + 1).last() == self.samples@[i as int]);
            }
            let sq: u128 = (a as u128) * (a as u128);
            if acc > u128::MAX - sq {
                acc = u128::MAX;
            } else {
                acc = acc + sq;
            }
            i = i + 1;
        }
        proof {
            assert(self.samples@.take(n as int) =~= self.samples@);
        }
        let mean: u128 = acc / (n as u128);
        crate::fixed::isqrt_u128(mean)
    }

    /// Resize to `channels * num_samples` samples, preserving the existing
    /// prefix and filling any new tail with silence.
    pub fn resize(&mut self, num_samples: usize)
        requires
            old(self).channels * num_samples <= usize::MAX,
        ensures
            final(self).channels == old(self).channels,
            final(self).sample_rate == old(self).sample_rate,
            final(self).samples@.len() == old(self).channels * num_samples,
            forall|i: int|
                0 <= i < final(self).samples@.len() ==> final(self).samples@[i] == (
                if i < old(self).samples@.len() {
                    old(self).samples@[i]
                } else {
                    0i64
                }),
    {
        proof {
            let c = self.channels as int;
            let f = num_samples as int;
            assert(f * c == c * f) by (nonlinear_arith);
        }
        let total: usize = num_samples * self.channels;
        if total <= self.samples.len() {
            self.samples.truncate(total);
        } else {
            let mut i: usize = self.samples.len();
            while i < total
                invariant
                    old(self).samples@.len() <= i <= total,
                    self.samples@.len() == i,
                    self.channels == old(self).channels,
                    self.sample_rate == old(self).sample_rate,
                    forall|j: int|
                        0 <= j < i ==> self.samples@[j] == (
                        if j < old(self).samples@.len() {
                            old(self).samples@[j]
                        } else {
                            0i64
                        }),
                decreases total - i,
            {
                self.samples.push(0i64);
                i = i + 1;
            }
        }
    }

    /// An independent copy with the same channels, rate, and samples.
    pub fn duplicate(&self) -> (r: AudioBuffer)
        ensures
            r.channels == self.channels,
            r.sample_rate == self.sample_rate,
            r.samples@ == self.samples@,
    {
        let n: usize = self.samples.len();
        let mut samples: Vec<i64> = Vec::new();
        let mut i: usize = 0;
        while i < n
            invariant
                i <= n,
                n == self.samples@.len(),
                samples@ =~= self.samples@.take(i as int),
            decreases n - i,
        {
            samples.push(self.samples[i]);
            i = i + 1;
        }
        proof {
            assert(self.samples@.take(n as int) =~= self.samples@);
        }
        AudioBuffer { channels: self.channels, sample_rate: self.sample_rate, samples }
    }
}

impl Clone for AudioBuffer {
    /// A clone is equal to the original, field for field.
    fn clone(&self) -> (r: AudioBuffer)
        ensures
            r.channels == self.channels,
            r.sample_rate == self.sample_rate,
            r.samples@ == self.samples@,
    {
        self.duplicate()
    }
}

} // verus!
