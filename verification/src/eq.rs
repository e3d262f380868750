//! An N-band parametric equalizer of peaking biquad filters, with
//! composite `band_<i>_<gain|freq|q>` parameter names.

use vstd::prelude::*;
use vstd::string::{StringExecFns, StrSliceExecFns};
use crate::biquad::{bq_seq_spec, coeffs_bounded, peaking_coeffs_spec, BiquadFilter};
use crate::buffer::AudioBuffer;
use crate::error::GraphError;
use crate::fixed::UNIT;
use crate::node::{clamp_spec, NodeCategory, NodeMetadata, ParameterDescriptor};
use crate::text::{all_digits, canonical_digits, decimal_spec, digit_val, digits_val,
    first_underscore, is_digit_char, lemma_decimal_canonical, lemma_digits_val_prefix_le,
    lemma_first_underscore_at, lemma_first_underscore_none, u64_to_string};

verus! {

/// Which of a band's three parameters a composite name addresses.
#[derive(Clone, Copy, Debug, PartialEq, Eq, Structural)]
pub enum BandParam {
    /// `band_<i>_gain`, in dB.
    Gain,
    /// `band_<i>_freq`, in Hz.
    Freq,
    /// `band_<i>_q`, unitless.
    Q,
}

/// The suffix of a composite band-parameter name.
pub open spec fn band_suffix(k: BandParam) -> Seq<char> {
    match k {
        BandParam::Gain => "_gain"@,
        BandParam::Freq => "_freq"@,
        BandParam::Q => "_q"@,
    }
}

/// The composite parameter name `band_<i>` followed by the kind suffix.
pub open spec fn band_param_name(i: int, k: BandParam) -> Seq<char> {
    "band_"@ + decimal_spec(i) + band_suffix(k)
}

/// Parse a composite band-parameter name: the literal `band_`, a canonical
/// decimal index, and one of the three suffixes. The index must be written
/// as digits without a sign or leading zeros — `band_07_gain` and
/// `band_+1_q` are not names of any parameter. Anything else is `None`.
pub open spec fn parse_band_spec(s: Seq<char>) -> Option<(int, BandParam)> {
    if s.len() < 6 || s.take(5) != "band_"@ {
        None
    } else {
        let rest = s.skip(5);
        let p = first_underscore(rest);
        if p < 0 {
            None
        } else {
            let digits = rest.take(p);
            let suffix = rest.skip(p);
            if !canonical_digits(digits) {
                None
            } else if suffix == "_gain"@ {
                Some((digits_val(digits), BandParam::Gain))
            } else if suffix == "_freq"@ {
                Some((digits_val(digits), BandParam::Freq))
            } else if suffix == "_q"@ {
                Some((digits_val(digits), BandParam::Q))
            } else {
                None
            }
        }
    }
}

/// A parsed name restricted to the bands that exist: the parse result when
/// its index lies below `n`, otherwise `None`.
pub open spec fn band_lookup(s: Seq<char>, n: int) -> Option<(int, BandParam)> {
    match parse_band_spec(s) {
        Some((i, k)) => if 0 <= i < n {
            Some((i, k))
        } else {
            None
        },
        None => None,
    }
}

/// Parsing is the inverse of rendering: a composite name built from a band
/// index always parses back to that index and kind.
pub proof fn lemma_parse_band_name(i: int, k: BandParam)
    requires
        i >= 0,
    ensures
        parse_band_spec(band_param_name(i, k)) == Some((i, k)),
{
    reveal_strlit("band_");
    reveal_strlit("_gain");
    reveal_strlit("_freq");
    reveal_strlit("_q");
    lemma_decimal_canonical(i);
    let d = decimal_spec(i);
    let suf = band_suffix(k);
    let s = band_param_name(i, k);
    assert(suf.len() >= 2);
    assert(suf[0] == '_');
    assert(s.len() >= 6);
    assert(s.take(5) =~= "band_"@);
    let rest = s.skip(5);
    assert(rest =~= d + suf);
    assert(forall|m: int| 0 <= m < d.len() ==> #[trigger] rest[m] == d[m]);
    assert(forall|m: int| 0 <= m < d.len() ==> rest[m] != '_') by {
        assert(forall|m: int| 0 <= m < d.len() ==> is_digit_char(#[trigger] d[m]));
    }
    assert(rest[d.len() as int] == '_');
    lemma_first_underscore_at(rest, d.len() as int);
    assert(rest.take(d.len() as int) =~= d);
    assert(rest.skip(d.len() as int) =~= suf);
    assert("_gain"@ != "_freq"@) by {
        assert("_gain"@[1] == 'g');
        assert("_freq"@[1] == 'f');
    }
    assert("_gain"@.len() == 5 && "_freq"@.len() == 5 && "_q"@.len() == 2);
}

/// One equalizer band: centre frequency, gain, Q, and its biquad.
pub struct EQBand {
    /// Centre frequency in millionths of a Hz, `[20 Hz, 20 kHz]`.
    pub frequency: i64,
    /// Band gain in millionths of a dB, `[-24 dB, +24 dB]`.
    pub gain_db: i64,
    /// Quality factor in millionths, `[0.1, 10]`.
    pub q: i64,
    /// The band's stereo filter.
    pub filter: BiquadFilter,
}

/// A band's parameters sit in their ranges and its filter is bounded.
pub open spec fn band_wf(b: EQBand) -> bool {
    &&& 20000000 <= b.frequency <= 20000000000
    &&& -24000000 <= b.gain_db <= 24000000
    &&& 100000 <= b.q <= 10000000
    &&& coeffs_bounded(b.filter)
}

/// A filter that passes samples through unchanged, with empty history.
pub open spec fn identity_filter(f: BiquadFilter) -> bool {
    &&& f.a0 == UNIT
    &&& f.a1 == 0i64 && f.a2 == 0i64 && f.b1 == 0i64 && f.b2 == 0i64
    &&& f.x1_l == 0i64 && f.x2_l == 0i64 && f.y1_l == 0i64 && f.y2_l == 0i64
    &&& f.x1_r == 0i64 && f.x2_r == 0i64 && f.y1_r == 0i64 && f.y2_r == 0i64
}

/// The default centre frequency of band `i`: a ten-band layout from 60 Hz
/// to 16 kHz, then 1 kHz for any further band.
pub open spec fn default_freq_spec(i: int) -> int {
    if i == 0 {
        60000000
    } else if i == 1 {
        170000000
    } else if i == 2 {
        310000000
    } else if i == 3 {
        600000000
    } else if i == 4 {
        1000000000
    } else if i == 5 {
        3000000000
    } else if i == 6 {
        6000000000
    } else if i == 7 {
        12000000000
    } else if i == 8 {
        14000000000
    } else if i == 9 {
        16000000000
    } else {
        1000000000
    }
}

/// Run the buffer through every band in order; a band whose gain magnitude
/// does not exceed 0.01 dB is skipped as audibly flat. Returns the samples
/// and the bands with their advanced filter states.
pub open spec fn eq_process_spec(bands: Seq<EQBand>, s: Seq<i64>) -> (Seq<i64>, Seq<EQBand>)
    decreases bands.len(),
{
    if bands.len() == 0 {
        (s, bands)
    } else {
        let b = bands[0];
        let active = b.gain_db > 10000 || b.gain_db < -10000;
        let step = if active {
            bq_seq_spec(b.filter, s)
        } else {
            (s, b.filter)
        };
        let rest = eq_process_spec(bands.skip(1), step.0);
        (rest.0, seq![EQBand { filter: step.1, ..b }] + rest.1)
    }
}

/// Flatness: when every band's gain magnitude is at most 0.01 dB, the
/// equalizer output is exactly the input.
pub proof fn lemma_eq_flat(bands: Seq<EQBand>, s: Seq<i64>)
    requires
        forall|j: int| 0 <= j < bands.len() ==> -10000 <= #[trigger] bands[j].gain_db <= 10000,
    ensures
        eq_process_spec(bands, s).0 == s,
    decreases bands.len(),
{
    if bands.len() > 0 {
        assert(forall|j: int|
            0 <= j < bands.skip(1).len() ==> #[trigger] bands.skip(1)[j] == bands[j + 1]);
        lemma_eq_flat(bands.skip(1), s);
    }
}

/// The introspection snapshot an equalizer must produce: three
/// descriptors per band under the composite names, with the band's current
/// centre frequency as the frequency default.
pub open spec fn metadata_matches(n: EqualizerNode, r: NodeMetadata) -> bool {
    &&& r.name@ == crate::text::decimal_spec(n.bands@.len() as int) + "-Band Parametric EQ"@
    &&& r.category == NodeCategory::Effect
    &&& r.input_channels == 2
    &&& r.output_channels == 2
    &&& r.plugin@ == "compositor"@
    &&& r.parameters@.len() == 3 * n.bands@.len()
    &&& forall|j: int|
        0 <= j < n.bands@.len() ==> {
            &&& (#[trigger] r.parameters@[3 * j]).name@ == band_param_name(j, BandParam::Gain)
            &&& r.parameters@[3 * j].min == -24000000i64
            &&& r.parameters@[3 * j].max == 24000000i64
            &&& r.parameters@[3 * j].default == 0i64
            &&& r.parameters@[3 * j].unit@ == "dB"@
            &&& r.parameters@[3 * j + 1].name@ == band_param_name(j, BandParam::Freq)
            &&& r.parameters@[3 * j + 1].min == 20000000i64
            &&& r.parameters@[3 * j + 1].max == 20000000000i64
            &&& r.parameters@[3 * j + 1].default == n.bands@[j].frequency
            &&& r.parameters@[3 * j + 1].unit@ == "Hz"@
            &&& r.parameters@[3 * j + 2].name@ == band_param_name(j, BandParam::Q)
            &&& r.parameters@[3 * j + 2].min == 100000i64
            &&& r.parameters@[3 * j + 2].max == 10000000i64
            &&& r.parameters@[3 * j + 2].default == 1000000i64
            &&& r.parameters@[3 * j + 2].unit@ == ""@
        }
}

/// N-band parametric equalizer node.
pub struct EqualizerNode {
    /// Unique node id.
    pub id: String,
    /// The bands, addressed as `band_0` upward.
    pub bands: Vec<EQBand>,
    /// Sample rate in hertz; the node is built for 48 kHz.
    pub sample_rate: u32,
}

impl EqualizerNode {
    /// Every band is well-formed and the rate is the fixed 48 kHz.
    pub open spec fn wf(&self) -> bool {
        &&& forall|j: int| 0 <= j < self.bands@.len() ==> band_wf(#[trigger] self.bands@[j])
        &&& self.sample_rate == 48000
    }

    /// An equalizer with `num_bands` flat bands at the default frequencies.
    pub fn new(id: String, num_bands: usize) -> (r: EqualizerNode)
        ensures
            r.id@ == id@,
            r.bands@.len() == num_bands,
            forall|j: int|
                0 <= j < num_bands ==> {
                    &&& (#[trigger] r.bands@[j]).frequency as int == default_freq_spec(j)
                    &&& r.bands@[j].gain_db == 0i64
                    &&& r.bands@[j].q == 1000000i64
                    &&& identity_filter(r.bands@[j].filter)
                },
            r.wf(),
    {
        let mut bands: Vec<EQBand> = Vec::new();
        let mut i: usize = 0;
        while i < num_bands
            invariant
                i <= num_bands,
                bands@.len() == i,
                forall|j: int|
                    0 <= j < i ==> {
                        &&& (#[trigger] bands@[j]).frequency as int == default_freq_spec(j)
                        &&& bands@[j].gain_db == 0i64
                        &&& bands@[j].q == 1000000i64
                        &&& identity_filter(bands@[j].filter)
                        &&& band_wf(bands@[j])
                    },
            decreases num_bands - i,
        {
            let freq: i64 = if i == 0 {
                60000000
            } else if i == 1 {
                170000000
            } else if i == 2 {
                310000000
            } else if i == 3 {
                600000000
            } else if i == 4 {
                1000000000
            } else if i == 5 {
                3000000000
            } else if i == 6 {
                6000000000
            } else if i == 7 {
                12000000000
            } else if i == 8 {
                14000000000
            } else if i == 9 {
                16000000000
            } else {
                1000000000
            };
            bands.push(EQBand { frequency: freq, gain_db: 0, q: 1000000, filter: BiquadFilter::new() });
            i = i + 1;
        }
        EqualizerNode { id, bands, sample_rate: 48000 }
    }

    /// The node's id.
    pub fn id(&self) -> (r: &str)
        ensures
            r@ == self.id@,
    {
        self.id.as_str()
    }

    /// Introspection snapshot: three descriptors per band under the
    /// composite names, with the band's current centre frequency as the
    /// frequency default.
    pub fn metadata(&self) -> (r: NodeMetadata)
        requires
            self.wf(),
        ensures
            metadata_matches(*self, r),
    {
        let n: usize = self.bands.len();
        let mut parameters: Vec<ParameterDescriptor> = Vec::new();
        let mut j: usize = 0;
        while j < n
            invariant
                j <= n,
                n == self.bands@.len(),
                forall|m: int| 0 <= m < n ==> band_wf(#[trigger] self.bands@[m]),
                parameters@.len() == 3 * j,
                forall|m: int|
                    0 <= m < j ==> {
                        &&& (#[trigger] parameters@[3 * m]).name@ == band_param_name(
                            m,
                            BandParam::Gain,
                        )
                        &&& parameters@[3 * m].min == -24000000i64
                        &&& parameters@[3 * m].max == 24000000i64
                        &&& parameters@[3 * m].default == 0i64
                        &&& parameters@[3 * m].unit@ == "dB"@
                        &&& parameters@[3 * m + 1].name@ == band_param_name(m, BandParam::Freq)
                        &&& parameters@[3 * m + 1].min == 20000000i64
                        &&& parameters@[3 * m + 1].max == 20000000000i64
                        &&& parameters@[3 * m + 1].default == self.bands@[m].frequency
                        &&& parameters@[3 * m + 1].unit@ == "Hz"@
                        &&& parameters@[3 * m + 2].name@ == band_param_name(m, BandParam::Q)
                        &&& parameters@[3 * m + 2].min == 100000i64
                        &&& parameters@[3 * m + 2].max == 10000000i64
                        &&& parameters@[3 * m + 2].default == 1000000i64
                        &&& parameters@[3 * m + 2].unit@ == ""@
                    },
            decreases n - j,
        {
            let idx = u64_to_string(j as u64);
            let label_no = u64_to_string((j + 1) as u64);
            let hz = u64_to_string(((self.bands[j].frequency + 500000) / 1000000) as u64);

            let mut name_gain = String::from_str("band_");
            name_gain.append(idx.as_str());
            name_gain.append("_gain");
            proof {
                assert(name_gain@ =~= band_param_name(j as int, BandParam::Gain));
            }
            let mut label_gain = String::from_str("Band ");
            label_gain.append(label_no.as_str());
            label_gain.append(" Gain (");
            label_gain.append(hz.as_str());
            label_gain.append(" Hz)");
            parameters.push(
                ParameterDescriptor {
                    name: name_gain,
                    min: -24000000,
                    max: 24000000,
                    default: 0,
                    unit: String::from_str("dB"),
                    label: label_gain,
                },
            );

            let mut name_freq = String::from_str("band_");
            name_freq.append(idx.as_str());
            name_freq.append("_freq");
            proof {
                assert(name_freq@ =~= band_param_name(j as int, BandParam::Freq));
            }
            let mut label_freq = String::from_str("Band ");
            label_freq.append(label_no.as_str());
            label_freq.append(" Frequency");
            parameters.push(
                ParameterDescriptor {
                    name: name_freq,
                    min: 20000000,
                    max: 20000000000,
                    default: self.bands[j].frequency,
                    unit: String::from_str("Hz"),
                    label: label_freq,
                },
            );

            let mut name_q = String::from_str("band_");
            name_q.append(idx.as_str());
            name_q.append("_q");
            proof {
                assert(name_q@ =~= band_param_name(j as int, BandParam::Q));
            }
            let mut label_q = String::from_str("Band ");
            label_q.append(label_no.as_str());
            label_q.append(" Q");
            parameters.push(
                ParameterDescriptor {
                    name: name_q,
                    min: 100000,
                    max: 10000000,
                    default: 1000000,
                    unit: String::from_str(""),
                    label: label_q,
                },
            );
            j = j + 1;
        }
        let mut name = u64_to_string(n as u64);
        name.append("-Band Parametric EQ");
        NodeMetadata {
            name,
            category: NodeCategory::Effect,
            input_channels: 2,
            output_channels: 2,
            parameters,
            plugin: String::from_str("compositor"),
        }
    }

    /// Apply every active band's filter to the input in order, advancing
    /// the filters' histories, exactly as `eq_process_spec` describes.
    pub fn process(&mut self, input: &AudioBuffer) -> (r: AudioBuffer)
        requires
            old(self).wf(),
        ensures
            final(self).id@ == old(self).id@,
            final(self).sample_rate == old(self).sample_rate,
            final(self).wf(),
            r.channels == input.channels,
            r.sample_rate == input.sample_rate,
            r.samples@ == eq_process_spec(old(self).bands@, input.samples@).0,
            final(self).bands@ == eq_process_spec(old(self).bands@, input.samples@).1,
    {
        let ghost bands0 = self.bands@;
        let ghost s0 = input.samples@;
        let mut out = input.clone();
        let n: usize = self.bands.len();
        let mut k: usize = 0;
        proof {
            assert(bands0.skip(0) =~= bands0);
            assert(self.bands@.take(0) =~= Seq::<EQBand>::empty());
        }
        while k < n
            invariant
                k <= n,
                n == self.bands@.len(),
                n == bands0.len(),
                self.id@ == old(self).id@,
                self.sample_rate == old(self).sample_rate,
                out.channels == input.channels,
                out.sample_rate == input.sample_rate,
                forall|j: int| k <= j < n ==> self.bands@[j] == bands0[j],
                forall|j: int| 0 <= j < n ==> band_wf(#[trigger] self.bands@[j]),
                eq_process_spec(bands0, s0).0 == eq_process_spec(
                    self.bands@.skip(k as int),
                    out.samples@,
                ).0,
                eq_process_spec(bands0, s0).1 == self.bands@.take(k as int) + eq_process_spec(
                    self.bands@.skip(k as int),
                    out.samples@,
                ).1,
            decreases n - k,
        {
            let ghost bands_in = self.bands@;
            let ghost sin = out.samples@;
            let mut band: EQBand = self.bands.remove(k);
            let ghost f_in = band.filter;
            let active: bool = band.gain_db > 10000 || band.gain_db < -10000;
            if active {
                band.filter.process_stereo(&mut out.samples);
            }
            self.bands.insert(k, band);
            proof {
                let tail = bands_in.skip(k as int);
                assert(tail.len() >= 1);
                assert(tail[0] == bands_in[k as int]);
                assert(tail[0].filter == f_in);
                let step = if tail[0].gain_db > 10000 || tail[0].gain_db < -10000 {
                    bq_seq_spec(tail[0].filter, sin)
                } else {
                    (sin, tail[0].filter)
                };
                assert(step.0 == out.samples@);
                assert(step.1 == band.filter);
                assert(self.bands@ =~= bands_in.update(k as int, band));
                assert(self.bands@.skip(k as int + 1) =~= tail.skip(1));
                assert(self.bands@.take(k as int + 1) =~= bands_in.take(k as int) + seq![band]);
                assert(eq_process_spec(tail, sin).0 == eq_process_spec(tail.skip(1), step.0).0);
                assert(eq_process_spec(tail, sin).1 == seq![EQBand { filter: step.1, ..tail[0] }]
                    + eq_process_spec(tail.skip(1), step.0).1);
                assert(EQBand { filter: step.1, ..tail[0] } == band);
                assert(bands_in.take(k as int) + (seq![band] + eq_process_spec(
                    tail.skip(1),
                    step.0,
                ).1) =~= self.bands@.take(k as int + 1) + eq_process_spec(tail.skip(1), step.0).1);
                assert(forall|j: int|
                    k + 1 <= j < n ==> #[trigger] self.bands@[j] == bands0[j]);
            }
            k = k + 1;
        }
        proof {
            assert(self.bands@.skip(n as int).len() == 0);
            assert(eq_process_spec(self.bands@.skip(n as int), out.samples@).0 == out.samples@);
            assert(self.bands@.take(n as int) =~= self.bands@);
            assert(self.bands@ + Seq::<EQBand>::empty() =~= self.bands@);
            assert(eq_process_spec(self.bands@.skip(n as int), out.samples@).1
                =~= Seq::<EQBand>::empty());
        }
        out
    }

    /// Recompute every band's filter coefficients from its current
    /// parameters; histories are preserved.
    fn update_filters(&mut self)
        requires
            old(self).wf(),
        ensures
            final(self).id@ == old(self).id@,
            final(self).sample_rate == old(self).sample_rate,
            final(self).bands@.len() == old(self).bands@.len(),
            forall|j: int|
                0 <= j < final(self).bands@.len() ==> {
                    let ob = old(self).bands@[j];
                    let nb = #[trigger] final(self).bands@[j];
                    let c = peaking_coeffs_spec(ob.frequency as int, ob.gain_db as int, ob.q as int);
                    &&& nb.frequency == ob.frequency
                    &&& nb.gain_db == ob.gain_db
                    &&& nb.q == ob.q
                    &&& nb.filter.a0 as int == c.0
                    &&& nb.filter.a1 as int == c.1
                    &&& nb.filter.a2 as int == c.2
                    &&& nb.filter.b1 as int == c.3
                    &&& nb.filter.b2 as int == c.4
                    &&& nb.filter.x1_l == ob.filter.x1_l && nb.filter.x2_l == ob.filter.x2_l
                    &&& nb.filter.y1_l == ob.filter.y1_l && nb.filter.y2_l == ob.filter.y2_l
                    &&& nb.filter.x1_r == ob.filter.x1_r && nb.filter.x2_r == ob.filter.x2_r
                    &&& nb.filter.y1_r == ob.filter.y1_r && nb.filter.y2_r == ob.filter.y2_r
                },
            final(self).wf(),
    {
        let n: usize = self.bands.len();
        let mut k: usize = 0;
        while k < n
            invariant
                k <= n,
                n == self.bands@.len(),
                n == old(self).bands@.len(),
                self.id@ == old(self).id@,
                self.sample_rate == old(self).sample_rate,
                forall|j: int| k <= j < n ==> #[trigger] self.bands@[j] == old(self).bands@[j],
                forall|j: int| 0 <= j < n ==> band_wf(#[trigger] old(self).bands@[j]),
                forall|j: int|
                    0 <= j < k ==> {
                        let ob = old(self).bands@[j];
                        let nb = #[trigger] self.bands@[j];
                        let c = peaking_coeffs_spec(
                            ob.frequency as int,
                            ob.gain_db as int,
                            ob.q as int,
                        );
                        &&& nb.frequency == ob.frequency
                        &&& nb.gain_db == ob.gain_db
                        &&& nb.q == ob.q
                        &&& nb.filter.a0 as int == c.0
                        &&& nb.filter.a1 as int == c.1
                        &&& nb.filter.a2 as int == c.2
                        &&& nb.filter.b1 as int == c.3
                        &&& nb.filter.b2 as int == c.4
                        &&& nb.filter.x1_l == ob.filter.x1_l && nb.filter.x2_l == ob.filter.x2_l
                        &&& nb.filter.y1_l == ob.filter.y1_l && nb.filter.y2_l == ob.filter.y2_l
                        &&& nb.filter.x1_r == ob.filter.x1_r && nb.filter.x2_r == ob.filter.x2_r
                        &&& nb.filter.y1_r == ob.filter.y1_r && nb.filter.y2_r == ob.filter.y2_r
                        &&& band_wf(nb)
                    },
            decreases n - k,
        {
            let mut band: EQBand = self.bands.remove(k);
            band.filter.update_peaking_eq(band.frequency, band.gain_db, band.q);
            self.bands.insert(k, band);
            k = k + 1;
        }
    }

    /// Set one band parameter (clamped into its range) and refresh every
    /// band's coefficients; malformed or out-of-range names — including
    /// indices with a sign or leading zeros — are `ParameterNotFound`.
    pub fn set_parameter(&mut self, name: &str, value: i64) -> (res: Result<(), GraphError>)
        requires
            old(self).wf(),
        ensures
            final(self).id@ == old(self).id@,
            final(self).sample_rate == old(self).sample_rate,
            final(self).wf(),
            band_lookup(name@, old(self).bands@.len() as int) is None ==> {
                &&& *final(self) == *old(self)
                &&& res matches Err(GraphError::ParameterNotFound(n)) && n@ == name@
            },
            band_lookup(name@, old(self).bands@.len() as int) matches Some(ik) ==> {
                &&& res is Ok
                &&& final(self).bands@.len() == old(self).bands@.len()
                &&& {
                    let ob = old(self).bands@[ik.0];
                    let nb = final(self).bands@[ik.0];
                    &&& (ik.1 == BandParam::Gain ==> nb.gain_db as int == clamp_spec(
                        value as int,
                        -24000000,
                        24000000,
                    ) && nb.frequency == ob.frequency && nb.q == ob.q)
                    &&& (ik.1 == BandParam::Freq ==> nb.frequency as int == clamp_spec(
                        value as int,
                        20000000,
                        20000000000,
                    ) && nb.gain_db == ob.gain_db && nb.q == ob.q)
                    &&& (ik.1 == BandParam::Q ==> nb.q as int == clamp_spec(
                        value as int,
                        100000,
                        10000000,
                    ) && nb.gain_db == ob.gain_db && nb.frequency == ob.frequency)
                }
                &&& forall|j: int|
                    0 <= j < final(self).bands@.len() && j != ik.0 ==> {
                        let ob = old(self).bands@[j];
                        let nb = #[trigger] final(self).bands@[j];
                        nb.frequency == ob.frequency && nb.gain_db == ob.gain_db && nb.q == ob.q
                    }
                &&& forall|j: int|
                    0 <= j < final(self).bands@.len() ==> {
                        let ob = old(self).bands@[j];
                        let nb = #[trigger] final(self).bands@[j];
                        let c = peaking_coeffs_spec(
                            nb.frequency as int,
                            nb.gain_db as int,
                            nb.q as int,
                        );
                        &&& nb.filter.a0 as int == c.0
                        &&& nb.filter.a1 as int == c.1
                        &&& nb.filter.a2 as int == c.2
                        &&& nb.filter.b1 as int == c.3
                        &&& nb.filter.b2 as int == c.4
                        &&& nb.filter.x1_l == ob.filter.x1_l && nb.filter.x2_l == ob.filter.x2_l
                        &&& nb.filter.y1_l == ob.filter.y1_l && nb.filter.y2_l == ob.filter.y2_l
                        &&& nb.filter.x1_r == ob.filter.x1_r && nb.filter.x2_r == ob.filter.x2_r
                        &&& nb.filter.y1_r == ob.filter.y1_r && nb.filter.y2_r == ob.filter.y2_r
                    }
            },
    {
        let n: usize = self.bands.len();
        match parse_band(name, n) {
            None => Err(GraphError::ParameterNotFound(String::from_str(name))),
            Some((i, kind)) => {
                let mut band: EQBand = self.bands.remove(i);
                match kind {
                    BandParam::Gain => {
                        band.gain_db = if value < -24000000 {
                            -24000000
                        } else if value > 24000000 {
                            24000000
                        } else {
                            value
                        };
                    },
                    BandParam::Freq => {
                        band.frequency = if value < 20000000 {
                            20000000
                        } else if value > 20000000000 {
                            20000000000
                        } else {
                            value
                        };
                    },
                    BandParam::Q => {
                        band.q = if value < 100000 {
                            100000
                        } else if value > 10000000 {
                            10000000
                        } else {
                            value
                        };
                    },
                }
                self.bands.insert(i, band);
                proof {
                    assert(forall|j: int|
                        0 <= j < self.bands@.len() && j != i ==> #[trigger] self.bands@[j]
                            == old(self).bands@[j]);
                    assert(band_wf(self.bands@[i as int]));
                }
                self.update_filters();
                Ok(())
            },
        }
    }

    /// Read one band parameter; malformed or out-of-range names are `None`.
    pub fn get_parameter(&self, name: &str) -> (r: Option<i64>)
        ensures
            band_lookup(name@, self.bands@.len() as int) is None ==> r is None,
            band_lookup(name@, self.bands@.len() as int) matches Some(ik) ==> r == Some(
                match ik.1 {
                    BandParam::Gain => self.bands@[ik.0].gain_db,
                    BandParam::Freq => self.bands@[ik.0].frequency,
                    BandParam::Q => self.bands@[ik.0].q,
                },
            ),
    {
        match parse_band(name, self.bands.len()) {
            None => None,
            Some((i, kind)) => {
                let band: &EQBand = &self.bands[i];
                match kind {
                    BandParam::Gain => Some(band.gain_db),
                    BandParam::Freq => Some(band.frequency),
                    BandParam::Q => Some(band.q),
                }
            },
        }
    }

    /// Clear every band filter's history; parameters and coefficients stay.
    pub fn reset(&mut self)
        requires
            old(self).wf(),
        ensures
            final(self).id@ == old(self).id@,
            final(self).sample_rate == old(self).sample_rate,
            final(self).bands@.len() == old(self).bands@.len(),
            forall|j: int|
                0 <= j < final(self).bands@.len() ==> {
                    let ob = old(self).bands@[j];
                    let nb = #[trigger] final(self).bands@[j];
                    &&& nb.frequency == ob.frequency
                    &&& nb.gain_db == ob.gain_db
                    &&& nb.q == ob.q
                    &&& nb.filter.a0 == ob.filter.a0 && nb.filter.a1 == ob.filter.a1
                    &&& nb.filter.a2 == ob.filter.a2 && nb.filter.b1 == ob.filter.b1
                    &&& nb.filter.b2 == ob.filter.b2
                    &&& nb.filter.x1_l == 0i64 && nb.filter.x2_l == 0i64
                    &&& nb.filter.y1_l == 0i64 && nb.filter.y2_l == 0i64
                    &&& nb.filter.x1_r == 0i64 && nb.filter.x2_r == 0i64
                    &&& nb.filter.y1_r == 0i64 && nb.filter.y2_r == 0i64
                },
            final(self).wf(),
    {
        let n: usize = self.bands.len();
        let mut k: usize = 0;
        while k < n
            invariant
                k <= n,
                n == self.bands@.len(),
                n == old(self).bands@.len(),
                self.id@ == old(self).id@,
                self.sample_rate == old(self).sample_rate,
                forall|j: int| k <= j < n ==> #[trigger] self.bands@[j] == old(self).bands@[j],
                forall|j: int| 0 <= j < n ==> band_wf(#[trigger] old(self).bands@[j]),
                forall|j: int|
                    0 <= j < k ==> {
                        let ob = old(self).bands@[j];
                        let nb = #[trigger] self.bands@[j];
                        &&& nb.frequency == ob.frequency
                        &&& nb.gain_db == ob.gain_db
                        &&& nb.q == ob.q
                        &&& nb.filter.a0 == ob.filter.a0 && nb.filter.a1 == ob.filter.a1
                        &&& nb.filter.a2 == ob.filter.a2 && nb.filter.b1 == ob.filter.b1
                        &&& nb.filter.b2 == ob.filter.b2
                        &&& nb.filter.x1_l == 0i64 && nb.filter.x2_l == 0i64
                        &&& nb.filter.y1_l == 0i64 && nb.filter.y2_l == 0i64
                        &&& nb.filter.x1_r == 0i64 && nb.filter.x2_r == 0i64
                        &&& nb.filter.y1_r == 0i64 && nb.filter.y2_r == 0i64
                        &&& band_wf(nb)
                    },
            decreases n - k,
        {
            let mut band: EQBand = self.bands.remove(k);
            band.filter.reset();
            self.bands.insert(k, band);
            k = k + 1;
        }
    }
}

/// Exec parser for composite band names; decides `band_lookup`.
fn parse_band(name: &str, n_bands: usize) -> (r: Option<(usize, BandParam)>)
    ensures
        band_lookup(name@, n_bands as int) is None ==> r is None,
        band_lookup(name@, n_bands as int) matches Some(ik) ==> r matches Some(rk) && rk.0 as int
            == ik.0 && rk.1 == ik.1,
{
    proof {
        reveal_strlit("band_");
        reveal_strlit("_gain");
        reveal_strlit("_freq");
        reveal_strlit("_q");
    }
    let len: usize = name.unicode_len();
    if len < 6 {
        return None;
    }
    if !(name.get_char(0) == 'b' && name.get_char(1) == 'a' && name.get_char(2) == 'n'
        && name.get_char(3) == 'd' && name.get_char(4) == '_') {
        proof {
            assert(name@.take(5) != "band_"@) by {
                if name@.take(5) == "band_"@ {
                    assert(name@.take(5)[0] == 'b' && name@.take(5)[1] == 'a' && name@.take(5)[2]
                        == 'n' && name@.take(5)[3] == 'd' && name@.take(5)[4] == '_');
                }
            }
        }
        return None;
    }
    proof {
        assert(name@.take(5) =~= "band_"@);
    }
    let ghost rest = name@.skip(5);
    let mut p: usize = 5;
    while p < len && name.get_char(p) != '_'
        invariant
            5 <= p <= len,
            len == name@.len(),
            len >= 6,
            name@.take(5) == "band_"@,
            forall|m: int| 5 <= m < p ==> name@[m] != '_',
        decreases len - p,
    {
        p = p + 1;
    }
    proof {
        assert(forall|m: int| 0 <= m < rest.len() ==> #[trigger] rest[m] == name@[m + 5]);
    }
    if p == len {
        proof {
            lemma_first_underscore_none(rest);
        }
        return None;
    }
    proof {
        assert(rest[p - 5] == '_');
        lemma_first_underscore_at(rest, p as int - 5);
    }
    let ghost digits = rest.take(p as int - 5);
    let ghost suffix = rest.skip(p as int - 5);
    if p == 5 {
        proof {
            assert(!canonical_digits(digits));
        }
        return None;
    }
    if p - 5 >= 2 && name.get_char(5) == '0' {
        proof {
            assert(digits[0] == '0');
            assert(!canonical_digits(digits));
        }
        return None;
    }
    let mut j: usize = 5;
    let mut acc: u128 = 0;
    while j < p
        invariant
            6 <= p,
            5 <= j <= p,
            p < len,
            len == name@.len(),
            name@.take(5) == "band_"@,
            digits == rest.take(p as int - 5),
            suffix == rest.skip(p as int - 5),
            rest == name@.skip(5),
            first_underscore(rest) == p as int - 5,
            p as int - 5 == 1 || name@[5] != '0',
            forall|m: int| 0 <= m < rest.len() ==> #[trigger] rest[m] == name@[m + 5],
            forall|m: int| 5 <= m < j ==> is_digit_char(#[trigger] name@[m]),
            acc as int == digits_val(rest.take(j as int - 5)),
            acc <= 0xffffffffffffffff,
        decreases p - j,
    {
        let c: char = name.get_char(j);
        let cv: u32 = c as u32;
        if cv < 48 || cv > 57 {
            proof {
                assert(!is_digit_char(name@[j as int]));
                assert(digits[j as int - 5] == name@[j as int]);
                assert(!all_digits(digits));
                assert(!canonical_digits(digits));
            }
            return None;
        }
        proof {
            let pre = rest.take(j as int + 1 - 5);
            assert(pre.drop_last() =~= rest.take(j as int - 5));
            assert(pre.last() == name@[j as int]);
            assert(digit_val(name@[j as int]) == cv - 48);
        }
        acc = acc * 10 + ((cv - 48) as u128);
        j = j + 1;
        proof {
            assert(acc as int == digits_val(rest.take(j as int - 5)));
        }
        if acc > 0xffffffffffffffff {
            proof {
                assert(n_bands as int <= 0xffffffffffffffff);
                if parse_band_spec(name@) is Some {
                    assert(canonical_digits(digits));
                    assert(digits.take(j as int - 5) =~= rest.take(j as int - 5));
                    lemma_digits_val_prefix_le(digits, j as int - 5);
                    assert(digits_val(digits) >= acc as int);
                }
            }
            return None;
        }
    }
    proof {
        assert(rest.take(j as int - 5) =~= digits);
        assert(forall|m: int| 0 <= m < digits.len() ==> #[trigger] digits[m] == name@[m + 5]);
        assert(all_digits(digits));
        assert(digits[0] == name@[5]);
        assert(canonical_digits(digits));
    }
    if acc >= n_bands as u128 {
        return None;
    }
    let idx: usize = acc as usize;
    let slen: usize = len - p;
    proof {
        assert(forall|m: int| 0 <= m < suffix.len() ==> #[trigger] suffix[m] == name@[m + p]);
        assert(suffix.len() == slen as int);
        assert(suffix[0] == '_');
    }
    if slen == 5 {
        if name.get_char(p + 1) == 'g' && name.get_char(p + 2) == 'a' && name.get_char(p + 3)
            == 'i' && name.get_char(p + 4) == 'n' {
            proof {
                assert(suffix =~= "_gain"@);
            }
            Some((idx, BandParam::Gain))
        } else if name.get_char(p + 1) == 'f' && name.get_char(p + 2) == 'r' && name.get_char(
            p + 3,
        ) == 'e' && name.get_char(p + 4) == 'q' {
            proof {
                assert(suffix =~= "_freq"@);
            }
            Some((idx, BandParam::Freq))
        } else {
            proof {
                assert(suffix != "_gain"@) by {
                    if suffix == "_gain"@ {
                        assert(suffix[1] == 'g' && suffix[2] == 'a' && suffix[3] == 'i'
                            && suffix[4] == 'n');
                    }
                }
                assert(suffix != "_freq"@) by {
                    if suffix == "_freq"@ {
                        assert(suffix[1] == 'f' && suffix[2] == 'r' && suffix[3] == 'e'
                            && suffix[4] == 'q');
                    }
                }
                assert(suffix != "_q"@);
            }
            None
        }
    } else if slen == 2 {
        if name.get_char(p + 1) == 'q' {
            proof {
                assert(suffix =~= "_q"@);
            }
            Some((idx, BandParam::Q))
        } else {
            proof {
                assert(suffix != "_q"@) by {
                    if suffix == "_q"@ {
                        assert(suffix[1] == 'q');
                    }
                }
            }
            None
        }
    } else {
        proof {
            assert(suffix != "_gain"@ && suffix != "_freq"@ && suffix != "_q"@);
        }
        None
    }
}

} // verus!
