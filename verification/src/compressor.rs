//! A feed-forward, peak-detecting dynamic range compressor.
//!
//! The node follows the stereo peak with a one-pole envelope (separate
//! attack and release coefficients) and, above the linear threshold,
//! attenuates by the decibel overshoot scaled down by the ratio.

use vstd::prelude::*;
use vstd::string::StringExecFns;
use crate::buffer::AudioBuffer;
use crate::error::GraphError;
use crate::fixed::{abs_clip, add_sat, clip64, db_to_linear, db_to_linear_spec, exp_neg,
    exp_neg_spec, iabs, lemma_mul_unit_le_one, lemma_mul_unit_one, linear_to_db,
    linear_to_db_spec, mul_unit_spec, muldiv, muldiv_spec, CLIP_MAX, UNIT};
use crate::node::{clamp_spec, NodeCategory, NodeMetadata, ParameterDescriptor};
use crate::text::str_eq;

verus! {

/// The per-sweep constants of a compressor, derived once from its
/// parameters: linear threshold and makeup, envelope coefficients, and the
/// raw threshold and ratio for the overshoot arithmetic.
pub struct CompParams {
    /// Linear threshold (millionths).
    pub thl: int,
    /// Linear makeup gain (millionths).
    pub ml: int,
    /// Attack coefficient of the envelope (millionths, in `[0, 1]`).
    pub ac: int,
    /// Release coefficient of the envelope (millionths, in `[0, 1]`).
    pub rc: int,
    /// Threshold in millionths of a dB.
    pub tdb: int,
    /// Ratio in millionths.
    pub ratio: int,
}

/// One-pole envelope update toward the detected peak `p` with coefficient
/// `c`: `p + c * (e - p)`, saturated.
pub open spec fn env_step_spec(e: int, p: int, c: int) -> int {
    clip64(p + mul_unit_spec(c, e - p))
}

/// The one-pole coefficient for a time constant of `ms` (millionths of a
/// millisecond) at 48 kHz: `e^(-1 / (ms * 48))`.
pub open spec fn coeff_spec(ms: int) -> int {
    exp_neg_spec(1000000000000int / (ms * 48))
}

/// Gain reduction (millionths) applied when the envelope `e` exceeds the
/// threshold: the decibel overshoot, less its ratio-compressed share,
/// turned back into a linear factor. The reduction is capped at 360 dB,
/// far beyond any audible level.
pub open spec fn gain_reduction_spec(e: int, tdb: int, ratio: int) -> int {
    let over0 = linear_to_db_spec(e) - tdb;
    let over = if over0 < 0 {
        0
    } else {
        over0
    };
    let compressed = muldiv_spec(over, UNIT as int, ratio);
    let red0 = if compressed > over {
        0
    } else {
        over - compressed
    };
    let red = if red0 > 360000000 {
        360000000
    } else {
        red0
    };
    db_to_linear_spec(-red)
}

/// Compress one stereo pair: update the envelope from the pair's peak, pick
/// the gain, and scale both samples by gain then makeup. Returns
/// `(envelope', left', right')`.
pub open spec fn comp_pair_spec(pp: CompParams, e: int, l: int, r: int) -> (int, int, int) {
    let pl = clip64(iabs(l));
    let pr = clip64(iabs(r));
    let p = if pl > pr {
        pl
    } else {
        pr
    };
    let c = if p > e {
        pp.ac
    } else {
        pp.rc
    };
    let e2 = env_step_spec(e, p, c);
    let gr = if e2 > pp.thl {
        gain_reduction_spec(e2, pp.tdb, pp.ratio)
    } else {
        UNIT as int
    };
    (e2, mul_unit_spec(mul_unit_spec(l, gr), pp.ml), mul_unit_spec(mul_unit_spec(r, gr), pp.ml))
}

/// Compress a whole interleaved stereo sequence, threading the envelope
/// through the pairs; a final sample without a partner is left untouched.
pub open spec fn comp_seq_spec(pp: CompParams, e: int, s: Seq<i64>) -> (Seq<i64>, int)
    decreases s.len(),
{
    if s.len() < 2 {
        (s, e)
    } else {
        let (e2, l2, r2) = comp_pair_spec(pp, e, s[0] as int, s[1] as int);
        let rest = comp_seq_spec(pp, e2, s.skip(2));
        (seq![l2 as i64, r2 as i64] + rest.0, rest.1)
    }
}

/// The envelope step stays between the old envelope and the peak, so it
/// never leaves `[0, max(e, p)]`.
pub proof fn lemma_env_step_bounds(e: int, p: int, c: int)
    requires
        0 <= e <= CLIP_MAX,
        0 <= p <= CLIP_MAX,
        0 <= c <= UNIT,
    ensures
        0 <= env_step_spec(e, p, c),
        env_step_spec(e, p, c) <= if e > p {
            e
        } else {
            p
        },
{
    lemma_mul_unit_le_one(c, e - p);
}

/// The introspection snapshot a compressor must produce: `threshold`,
/// `ratio`, `attack`, `release`, and `makeup`, with the ranges and
/// defaults of the reference design.
pub open spec fn metadata_matches(n: CompressorNode, r: NodeMetadata) -> bool {
    &&& r.name@ == "Compressor"@
    &&& r.category == NodeCategory::Effect
    &&& r.input_channels == 2
    &&& r.output_channels == 2
    &&& r.plugin@ == "compositor"@
    &&& r.parameters@.len() == 5
    &&& r.parameters@[0].name@ == "threshold"@
    &&& r.parameters@[0].min == -60000000i64
    &&& r.parameters@[0].max == 0i64
    &&& r.parameters@[0].default == -20000000i64
    &&& r.parameters@[0].unit@ == "dB"@
    &&& r.parameters@[1].name@ == "ratio"@
    &&& r.parameters@[1].min == 1000000i64
    &&& r.parameters@[1].max == 20000000i64
    &&& r.parameters@[1].default == 4000000i64
    &&& r.parameters@[1].unit@ == ":1"@
    &&& r.parameters@[2].name@ == "attack"@
    &&& r.parameters@[2].min == 100000i64
    &&& r.parameters@[2].max == 100000000i64
    &&& r.parameters@[2].default == 10000000i64
    &&& r.parameters@[2].unit@ == "ms"@
    &&& r.parameters@[3].name@ == "release"@
    &&& r.parameters@[3].min == 10000000i64
    &&& r.parameters@[3].max == 1000000000i64
    &&& r.parameters@[3].default == 100000000i64
    &&& r.parameters@[3].unit@ == "ms"@
    &&& r.parameters@[4].name@ == "makeup"@
    &&& r.parameters@[4].min == 0i64
    &&& r.parameters@[4].max == 24000000i64
    &&& r.parameters@[4].default == 0i64
    &&& r.parameters@[4].unit@ == "dB"@
}

/// Dynamic range compressor node with `threshold`, `ratio`, `attack`,
/// `release`, and `makeup` parameters.
pub struct CompressorNode {
    /// Unique node id.
    pub id: String,
    /// Threshold in millionths of a dB, `[-60 dB, 0 dB]`.
    pub threshold_db: i64,
    /// Compression ratio in millionths, `[1, 20]`.
    pub ratio: i64,
    /// Attack time in millionths of a ms, `[0.1, 100]`.
    pub attack_ms: i64,
    /// Release time in millionths of a ms, `[10, 1000]`.
    pub release_ms: i64,
    /// Makeup gain in millionths of a dB, `[0 dB, 24 dB]`.
    pub makeup_db: i64,
    /// Envelope follower state (millionths, non-negative).
    pub envelope: i64,
    /// Sample rate in hertz; the node is built for 48 kHz.
    pub sample_rate: u32,
}

impl CompressorNode {
    /// All parameters sit in their ranges, the envelope is non-negative,
    /// and the rate is the fixed 48 kHz.
    pub open spec fn wf(&self) -> bool {
        &&& -60000000 <= self.threshold_db <= 0
        &&& 1000000 <= self.ratio <= 20000000
        &&& 100000 <= self.attack_ms <= 100000000
        &&& 10000000 <= self.release_ms <= 1000000000
        &&& 0 <= self.makeup_db <= 24000000
        &&& 0 <= self.envelope
        &&& self.sample_rate == 48000
    }

    /// The sweep constants derived from this node's parameters.
    pub open spec fn params_spec(&self) -> CompParams {
        CompParams {
            thl: db_to_linear_spec(self.threshold_db as int),
            ml: db_to_linear_spec(self.makeup_db as int),
            ac: coeff_spec(self.attack_ms as int),
            rc: coeff_spec(self.release_ms as int),
            tdb: self.threshold_db as int,
            ratio: self.ratio as int,
        }
    }

    /// A compressor with the default parameters and a settled envelope.
    pub fn new(id: String) -> (r: CompressorNode)
        ensures
            r.id@ == id@,
            r.threshold_db == -20000000i64,
            r.ratio == 4000000i64,
            r.attack_ms == 10000000i64,
            r.release_ms == 100000000i64,
            r.makeup_db == 0i64,
            r.envelope == 0i64,
            r.wf(),
    {
        CompressorNode {
            id,
            threshold_db: -20000000,
            ratio: 4000000,
            attack_ms: 10000000,
            release_ms: 100000000,
            makeup_db: 0,
            envelope: 0,
            sample_rate: 48000,
        }
    }

    /// The node's id.
    pub fn id(&self) -> (r: &str)
        ensures
            r@ == self.id@,
    {
        self.id.as_str()
    }

    /// Introspection snapshot: the five compressor parameters.
    pub fn metadata(&self) -> (r: NodeMetadata)
        ensures
            metadata_matches(*self, r),
    {
        let mut parameters: Vec<ParameterDescriptor> = Vec::new();
        parameters.push(
            ParameterDescriptor::new("threshold", -60000000, 0, -20000000, "dB", "Threshold"),
        );
        parameters.push(ParameterDescriptor::new("ratio", 1000000, 20000000, 4000000, ":1", "Ratio"));
        parameters.push(
            ParameterDescriptor::new("attack", 100000, 100000000, 10000000, "ms", "Attack"),
        );
        parameters.push(
            ParameterDescriptor::new("release", 10000000, 1000000000, 100000000, "ms", "Release"),
        );
        parameters.push(
            ParameterDescriptor::new("makeup", 0, 24000000, 0, "dB", "Makeup Gain"),
        );
        NodeMetadata {
            name: String::from_str("Compressor"),
            category: NodeCategory::Effect,
            input_channels: 2,
            output_channels: 2,
            parameters,
            plugin: String::from_str("compositor"),
        }
    }

    /// Compress the interleaved stereo input, threading the envelope state
    /// through every pair exactly as `comp_seq_spec` describes.
    #[verifier::rlimit(100)]
    #[verifier::spinoff_prover]
    pub fn process(&mut self, input: &AudioBuffer) -> (r: AudioBuffer)
        requires
            old(self).wf(),
        ensures
            final(self).id@ == old(self).id@,
            final(self).threshold_db == old(self).threshold_db,
            final(self).ratio == old(self).ratio,
            final(self).attack_ms == old(self).attack_ms,
            final(self).release_ms == old(self).release_ms,
            final(self).makeup_db == old(self).makeup_db,
            final(self).sample_rate == old(self).sample_rate,
            final(self).wf(),
            r.channels == input.channels,
            r.sample_rate == input.sample_rate,
            r.samples@ == comp_seq_spec(
                old(self).params_spec(),
                old(self).envelope as int,
                input.samples@,
            ).0,
            final(self).envelope as int == comp_seq_spec(
                old(self).params_spec(),
                old(self).envelope as int,
                input.samples@,
            ).1,
    {
        let ghost pp = self.params_spec();
        let ghost s = input.samples@;
        let ghost e0 = self.envelope as int;
        let fsk: u64 = (self.sample_rate / 1000) as u64;
        let sma: u64 = (self.attack_ms as u64) * fsk;
        proof {
            assert(sma >= 4800000) by (nonlinear_arith)
                requires
                    sma == (self.attack_ms as u64) * fsk,
                    self.attack_ms >= 100000,
                    fsk == 48,
            ;
            vstd::arithmetic::div_mod::lemma_div_is_ordered(
                1000000000000,
                1000000000000,
                sma as int,
            );
        }
        let ya: u64 = 1000000000000 / sma;
        proof {
            vstd::arithmetic::div_mod::lemma_div_is_ordered(1000000000000, 1000000000000, 4800000);
            assert(1000000000000int / (sma as int) <= 1000000000000int / 4800000) by {
                vstd::arithmetic::div_mod::lemma_div_is_ordered_by_denominator(
                    1000000000000,
                    4800000,
                    sma as int,
                );
            }
        }
        let a_c: i64 = exp_neg(ya);
        let smr: u64 = (self.release_ms as u64) * fsk;
        proof {
            assert(smr >= 480000000) by (nonlinear_arith)
                requires
                    smr == (self.release_ms as u64) * fsk,
                    self.release_ms >= 10000000,
                    fsk == 48,
            ;
            assert(1000000000000int / (smr as int) <= 1000000000000int / 480000000) by {
                vstd::arithmetic::div_mod::lemma_div_is_ordered_by_denominator(
                    1000000000000,
                    480000000,
                    smr as int,
                );
            }
        }
        let yr: u64 = 1000000000000 / smr;
        let r_c: i64 = exp_neg(yr);
        let th_l: i64 = db_to_linear(self.threshold_db);
        let m_l: i64 = db_to_linear(self.makeup_db);
        let mut out = input.clone();
        let n: usize = out.samples.len();
        let mut env: i64 = self.envelope;
        let mut i: usize = 0;
        proof {
            assert(s.skip(0) =~= s);
            assert(out.samples@.take(0) =~= Seq::<i64>::empty());
        }
        while i + 1 < n
            invariant
                i % 2 == 0,
                i <= n,
                n == out.samples@.len(),
                n == s.len(),
                s == input.samples@,
                out.channels == input.channels,
                out.sample_rate == input.sample_rate,
                0 <= env,
                0 <= a_c <= UNIT,
                0 <= r_c <= UNIT,
                a_c as int == pp.ac,
                r_c as int == pp.rc,
                th_l as int == pp.thl,
                m_l as int == pp.ml,
                pp.tdb == self.threshold_db as int,
                pp.ratio == self.ratio as int,
                self == old(self),
                old(self).wf(),
                comp_seq_spec(pp, e0, s).0 == out.samples@.take(i as int) + comp_seq_spec(
                    pp,
                    env as int,
                    s.skip(i as int),
                ).0,
                comp_seq_spec(pp, e0, s).1 == comp_seq_spec(pp, env as int, s.skip(i as int)).1,
                forall|j: int| i <= j < n ==> out.samples@[j] == s[j],
            decreases n - i,
        {
            let ghost env_in = env as int;
            let l: i64 = out.samples[i];
            let rr: i64 = out.samples[i + 1];
            let (e2, lv, rv): (i64, i64, i64) = comp_pair(
                th_l,
                m_l,
                a_c,
                r_c,
                self.threshold_db,
                self.ratio,
                env,
                l,
                rr,
            );
            out.samples.set(i, lv);
            out.samples.set(i + 1, rv);
            env = e2;
            proof {
                let tail = s.skip(i as int);
                assert(tail.len() >= 2);
                assert(tail[0] == s[i as int]);
                assert(tail[1] == s[i as int + 1]);
                assert(tail.skip(2) =~= s.skip(i as int + 2));
                let step = comp_pair_spec(pp, env_in, tail[0] as int, tail[1] as int);
                assert(step.0 == e2 as int);
                assert(step.1 == lv as int);
                assert(step.2 == rv as int);
                assert(comp_seq_spec(pp, env_in, tail).0 == seq![lv, rv] + comp_seq_spec(
                    pp,
                    e2 as int,
                    s.skip(i as int + 2),
                ).0);
                assert(out.samples@.take(i as int + 2) =~= out.samples@.take(i as int)
                    + seq![lv, rv]);
                assert(out.samples@.take(i as int) + (seq![lv, rv] + comp_seq_spec(
                    pp,
                    e2 as int,
                    s.skip(i as int + 2),
                ).0) =~= out.samples@.take(i as int + 2) + comp_seq_spec(
                    pp,
                    e2 as int,
                    s.skip(i as int + 2),
                ).0);
            }
            i = i + 2;
        }
        proof {
            if i < n {
                assert(s.skip(i as int).len() == 1);
                assert(comp_seq_spec(pp, env as int, s.skip(i as int)).0 == s.skip(i as int));
                assert(out.samples@.take(i as int) + s.skip(i as int) =~= out.samples@);
            } else {
                assert(s.skip(i as int).len() == 0);
                assert(comp_seq_spec(pp, env as int, s.skip(i as int)).0 == s.skip(i as int));
                assert(out.samples@.take(i as int) + s.skip(i as int) =~= out.samples@);
            }
            assert(out.samples@ == comp_seq_spec(pp, e0, s).0);
        }
        self.envelope = env;
        out
    }

    /// Set one of the five parameters, clamped into its range; any other
    /// name is `ParameterNotFound`.
    pub fn set_parameter(&mut self, name: &str, value: i64) -> (r: Result<(), GraphError>)
        ensures
            name@ == "threshold"@ ==> {
                &&& r is Ok
                &&& final(self).threshold_db as int == clamp_spec(value as int, -60000000, 0)
                &&& unchanged_but_threshold(*old(self), *final(self))
            },
            name@ == "ratio"@ ==> {
                &&& r is Ok
                &&& final(self).ratio as int == clamp_spec(value as int, 1000000, 20000000)
                &&& unchanged_but_ratio(*old(self), *final(self))
            },
            name@ == "attack"@ ==> {
                &&& r is Ok
                &&& final(self).attack_ms as int == clamp_spec(value as int, 100000, 100000000)
                &&& unchanged_but_attack(*old(self), *final(self))
            },
            name@ == "release"@ ==> {
                &&& r is Ok
                &&& final(self).release_ms as int == clamp_spec(value as int, 10000000, 1000000000)
                &&& unchanged_but_release(*old(self), *final(self))
            },
            name@ == "makeup"@ ==> {
                &&& r is Ok
                &&& final(self).makeup_db as int == clamp_spec(value as int, 0, 24000000)
                &&& unchanged_but_makeup(*old(self), *final(self))
            },
            !is_comp_param(name@) ==> {
                &&& *final(self) == *old(self)
                &&& r matches Err(GraphError::ParameterNotFound(n)) && n@ == name@
            },
            old(self).wf() ==> final(self).wf(),
    {
        proof {
            lemma_comp_names_distinct();
        }
        if str_eq(name, "threshold") {
            self.threshold_db = clamp_exec(value, -60000000, 0);
            Ok(())
        } else if str_eq(name, "ratio") {
            self.ratio = clamp_exec(value, 1000000, 20000000);
            Ok(())
        } else if str_eq(name, "attack") {
            self.attack_ms = clamp_exec(value, 100000, 100000000);
            Ok(())
        } else if str_eq(name, "release") {
            self.release_ms = clamp_exec(value, 10000000, 1000000000);
            Ok(())
        } else if str_eq(name, "makeup") {
            self.makeup_db = clamp_exec(value, 0, 24000000);
            Ok(())
        } else {
            Err(GraphError::ParameterNotFound(String::from_str(name)))
        }
    }

    /// Read one of the five parameters; `None` for any other name.
    pub fn get_parameter(&self, name: &str) -> (r: Option<i64>)
        ensures
            name@ == "threshold"@ ==> r == Some(self.threshold_db),
            name@ == "ratio"@ ==> r == Some(self.ratio),
            name@ == "attack"@ ==> r == Some(self.attack_ms),
            name@ == "release"@ ==> r == Some(self.release_ms),
            name@ == "makeup"@ ==> r == Some(self.makeup_db),
            !is_comp_param(name@) ==> r is None,
    {
        proof {
            lemma_comp_names_distinct();
        }
        if str_eq(name, "threshold") {
            Some(self.threshold_db)
        } else if str_eq(name, "ratio") {
            Some(self.ratio)
        } else if str_eq(name, "attack") {
            Some(self.attack_ms)
        } else if str_eq(name, "release") {
            Some(self.release_ms)
        } else if str_eq(name, "makeup") {
            Some(self.makeup_db)
        } else {
            None
        }
    }

    /// Reset the envelope follower to zero.
    pub fn reset(&mut self)
        ensures
            final(self).envelope == 0i64,
            unchanged_but_envelope(*old(self), *final(self)),
            old(self).wf() ==> final(self).wf(),
    {
        self.envelope = 0;
    }
}

/// Whether `name` is one of the compressor's parameter names.
pub open spec fn is_comp_param(name: Seq<char>) -> bool {
    name == "threshold"@ || name == "ratio"@ || name == "attack"@ || name == "release"@ || name
        == "makeup"@
}

/// All fields equal except possibly the threshold.
pub open spec fn unchanged_but_threshold(a: CompressorNode, b: CompressorNode) -> bool {
    a.id@ == b.id@ && a.ratio == b.ratio && a.attack_ms == b.attack_ms && a.release_ms
        == b.release_ms && a.makeup_db == b.makeup_db && a.envelope == b.envelope && a.sample_rate
        == b.sample_rate
}

/// All fields equal except possibly the ratio.
pub open spec fn unchanged_but_ratio(a: CompressorNode, b: CompressorNode) -> bool {
    a.id@ == b.id@ && a.threshold_db == b.threshold_db && a.attack_ms == b.attack_ms
        && a.release_ms == b.release_ms && a.makeup_db == b.makeup_db && a.envelope == b.envelope
        && a.sample_rate == b.sample_rate
}

/// All fields equal except possibly the attack time.
pub open spec fn unchanged_but_attack(a: CompressorNode, b: CompressorNode) -> bool {
    a.id@ == b.id@ && a.threshold_db == b.threshold_db && a.ratio == b.ratio && a.release_ms
        == b.release_ms && a.makeup_db == b.makeup_db && a.envelope == b.envelope && a.sample_rate
        == b.sample_rate
}

/// All fields equal except possibly the release time.
pub open spec fn unchanged_but_release(a: CompressorNode, b: CompressorNode) -> bool {
    a.id@ == b.id@ && a.threshold_db == b.threshold_db && a.ratio == b.ratio && a.attack_ms
        == b.attack_ms && a.makeup_db == b.makeup_db && a.envelope == b.envelope && a.sample_rate
        == b.sample_rate
}

/// All fields equal except possibly the makeup gain.
pub open spec fn unchanged_but_makeup(a: CompressorNode, b: CompressorNode) -> bool {
    a.id@ == b.id@ && a.threshold_db == b.threshold_db && a.ratio == b.ratio && a.attack_ms
        == b.attack_ms && a.release_ms == b.release_ms && a.envelope == b.envelope && a.sample_rate
        == b.sample_rate
}

/// All fields equal except possibly the envelope.
pub open spec fn unchanged_but_envelope(a: CompressorNode, b: CompressorNode) -> bool {
    a.id@ == b.id@ && a.threshold_db == b.threshold_db && a.ratio == b.ratio && a.attack_ms
        == b.attack_ms && a.release_ms == b.release_ms && a.makeup_db == b.makeup_db
        && a.sample_rate == b.sample_rate
}

/// Compress one stereo pair; exec mirror of `comp_pair_spec`.
fn comp_pair(
    th_l: i64,
    m_l: i64,
    a_c: i64,
    r_c: i64,
    tdb: i64,
    ratio: i64,
    env: i64,
    l: i64,
    rr: i64,
) -> (res: (i64, i64, i64))
    requires
        0 <= env,
        0 <= a_c <= UNIT,
        0 <= r_c <= UNIT,
        -60000000 <= tdb <= 0,
        1000000 <= ratio <= 20000000,
    ensures
        ({
            let pp = (CompParams {
                thl: th_l as int,
                ml: m_l as int,
                ac: a_c as int,
                rc: r_c as int,
                tdb: tdb as int,
                ratio: ratio as int,
            });
            let step = comp_pair_spec(pp, env as int, l as int, rr as int);
            &&& res.0 as int == step.0
            &&& res.1 as int == step.1
            &&& res.2 as int == step.2
            &&& 0 <= res.0
        }),
{
    let pl: i64 = abs_clip(l);
    let pr: i64 = abs_clip(rr);
    let p: i64 = if pl > pr {
        pl
    } else {
        pr
    };
    let c: i64 = if p > env {
        a_c
    } else {
        r_c
    };
    let m: i64 = muldiv(c, env - p, UNIT);
    let e2: i64 = add_sat(p, m);
    proof {
        lemma_env_step_bounds(env as int, p as int, c as int);
        assert(e2 as int == env_step_spec(env as int, p as int, c as int));
    }
    let gr: i64 = if e2 > th_l {
        let ltd: i64 = linear_to_db(e2);
        let over0: i64 = ltd - tdb;
        let over: i64 = if over0 < 0 {
            0
        } else {
            over0
        };
        let compressed: i64 = muldiv(over, UNIT, ratio);
        let red0: i64 = if compressed > over {
            0
        } else {
            over - compressed
        };
        let red: i64 = if red0 > 360000000 {
            360000000
        } else {
            red0
        };
        db_to_linear(-red)
    } else {
        UNIT
    };
    let lv: i64 = muldiv(muldiv(l, gr, UNIT), m_l, UNIT);
    let rv: i64 = muldiv(muldiv(rr, gr, UNIT), m_l, UNIT);
    (e2, lv, rv)
}

/// Clamp helper shared by the parameter writes.
fn clamp_exec(value: i64, min: i64, max: i64) -> (r: i64)
    requires
        min <= max,
    ensures
        r as int == clamp_spec(value as int, min as int, max as int),
{
    if value < min {
        min
    } else if value > max {
        max
    } else {
        value
    }
}

/// The five parameter names of a compressor are pairwise distinct.
proof fn lemma_comp_names_distinct()
    ensures
        "threshold"@ != "ratio"@,
        "threshold"@ != "attack"@,
        "threshold"@ != "release"@,
        "threshold"@ != "makeup"@,
        "ratio"@ != "attack"@,
        "ratio"@ != "release"@,
        "ratio"@ != "makeup"@,
        "attack"@ != "release"@,
        "attack"@ != "makeup"@,
        "release"@ != "makeup"@,
{
    reveal_strlit("threshold");
    reveal_strlit("ratio");
    reveal_strlit("attack");
    reveal_strlit("release");
    reveal_strlit("makeup");
    assert("threshold"@.len() == 9);
    assert("ratio"@.len() == 5);
    assert("attack"@.len() == 6);
    assert("release"@.len() == 7);
    assert("makeup"@.len() == 6);
    assert("attack"@[0] == 'a');
    assert("makeup"@[0] == 'm');
}

/// Below the threshold the compressor is transparent: when the envelope and
/// every sample magnitude stay at or under the linear threshold, the output
/// is exactly the input scaled by the makeup gain, and the envelope stays
/// at or under the threshold.
pub proof fn lemma_comp_below_threshold(pp: CompParams, e: int, s: Seq<i64>)
    requires
        0 <= pp.ac <= UNIT,
        0 <= pp.rc <= UNIT,
        0 <= pp.thl <= CLIP_MAX,
        0 <= e <= pp.thl,
        forall|i: int| 0 <= i < s.len() ==> iabs(#[trigger] s[i] as int) <= pp.thl,
        s.len() % 2 == 0,
    ensures
        comp_seq_spec(pp, e, s).0 =~= Seq::new(
            s.len(),
            |i: int| mul_unit_spec(s[i] as int, pp.ml) as i64,
        ),
        0 <= comp_seq_spec(pp, e, s).1 <= pp.thl,
    decreases s.len(),
{
    if s.len() == 0 {
    } else {
        let l = s[0] as int;
        let r = s[1] as int;
        let pl = clip64(iabs(l));
        let pr = clip64(iabs(r));
        let p = if pl > pr {
            pl
        } else {
            pr
        };
        assert(pl == iabs(l) && pr == iabs(r));
        let c = if p > e {
            pp.ac
        } else {
            pp.rc
        };
        lemma_env_step_bounds(e, p, c);
        let e2 = env_step_spec(e, p, c);
        assert(e2 <= pp.thl);
        lemma_mul_unit_one(l);
        lemma_mul_unit_one(r);
        lemma_comp_below_threshold(pp, e2, s.skip(2));
        assert(comp_seq_spec(pp, e, s).0 =~= Seq::new(
            s.len(),
            |i: int| mul_unit_spec(s[i] as int, pp.ml) as i64,
        )) by {
            let whole = Seq::new(s.len(), |i: int| mul_unit_spec(s[i] as int, pp.ml) as i64);
            let rest = Seq::new(s.skip(2).len(), |i: int| mul_unit_spec(s.skip(2)[i] as int, pp.ml) as i64);
            assert(comp_seq_spec(pp, e2, s.skip(2)).0 =~= rest);
            assert forall|i: int| 0 <= i < s.len() implies comp_seq_spec(pp, e, s).0[i] == whole[i] by {
                if i >= 2 {
                    assert(comp_seq_spec(pp, e, s).0[i] == rest[i - 2]);
                }
            }
        }
    }
}

} // verus!
