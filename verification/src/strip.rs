//! A channel strip node: gain, pan, mute, and solo in one unit.

use vstd::prelude::*;
use vstd::string::StringExecFns;
use crate::buffer::AudioBuffer;
use crate::error::GraphError;
use crate::fixed::{db_to_linear, db_to_linear_spec, mul_unit_spec, muldiv, pan_gains, pan_gl_spec,
    pan_gr_spec, UNIT};
use crate::node::{clamp_spec, NodeCategory, NodeMetadata, ParameterDescriptor};
use crate::text::str_eq;

verus! {

/// What an unmuted strip does to interleaved stereo samples: gain first,
/// then the equal-power pan gain of the sample's channel; a final even
/// sample without a partner is left untouched.
pub open spec fn strip_process_spec(gain_linear: int, pan: int, s: Seq<i64>) -> Seq<i64> {
    Seq::new(
        s.len(),
        |i: int|
            if i % 2 == 0 && i + 1 < s.len() {
                mul_unit_spec(mul_unit_spec(s[i] as int, gain_linear), pan_gl_spec(pan)) as i64
            } else if i % 2 == 1 {
                mul_unit_spec(mul_unit_spec(s[i] as int, gain_linear), pan_gr_spec(pan)) as i64
            } else {
                s[i]
            },
    )
}

/// The introspection snapshot a channel strip must produce: `gain` in dB
/// over `[-60, 24]`, unit-less `pan` over `[-1, 1]`, and the `mute` and
/// `solo` switches over `[0, 1]`, every default 0.
pub open spec fn metadata_matches(n: ChannelStripNode, r: NodeMetadata) -> bool {
    &&& r.name@ == "Channel Strip"@
    &&& r.category == NodeCategory::Routing
    &&& r.input_channels == 2
    &&& r.output_channels == 2
    &&& r.plugin@ == "orquestador"@
    &&& r.parameters@.len() == 4
    &&& r.parameters@[0].name@ == "gain"@
    &&& r.parameters@[0].min == -60000000i64
    &&& r.parameters@[0].max == 24000000i64
    &&& r.parameters@[0].default == 0i64
    &&& r.parameters@[0].unit@ == "dB"@
    &&& r.parameters@[1].name@ == "pan"@
    &&& r.parameters@[1].min == -1000000i64
    &&& r.parameters@[1].max == 1000000i64
    &&& r.parameters@[1].default == 0i64
    &&& r.parameters@[1].unit@ == ""@
    &&& r.parameters@[2].name@ == "mute"@
    &&& r.parameters@[2].min == 0i64
    &&& r.parameters@[2].max == 1000000i64
    &&& r.parameters@[2].default == 0i64
    &&& r.parameters@[2].unit@ == ""@
    &&& r.parameters@[3].name@ == "solo"@
    &&& r.parameters@[3].min == 0i64
    &&& r.parameters@[3].max == 1000000i64
    &&& r.parameters@[3].default == 0i64
    &&& r.parameters@[3].unit@ == ""@
}

/// Gain, pan, mute, and solo for one channel. The solo flag is stored but
/// not enforced here: solo semantics across a strip collection belong to a
/// higher layer.
pub struct ChannelStripNode {
    /// Unique node id.
    pub id: String,
    /// Gain in millionths of a dB, clamped to `[-60 dB, +24 dB]`.
    pub gain_db: i64,
    /// Cached linear gain in millionths.
    pub gain_linear: i64,
    /// Pan position in millionths, `[-1, 1]`.
    pub pan: i64,
    /// When set, processing returns silence.
    pub mute: bool,
    /// Stored only; not enforced within a single strip.
    pub solo: bool,
}

/// The four parameter names of a channel strip are pairwise distinct.
proof fn lemma_strip_names_distinct()
    ensures
        "gain"@ != "pan"@,
        "gain"@ != "mute"@,
        "gain"@ != "solo"@,
        "pan"@ != "mute"@,
        "pan"@ != "solo"@,
        "mute"@ != "solo"@,
{
    reveal_strlit("gain");
    reveal_strlit("pan");
    reveal_strlit("mute");
    reveal_strlit("solo");
    assert("gain"@.len() == 4);
    assert("pan"@.len() == 3);
    assert("mute"@.len() == 4);
    assert("solo"@.len() == 4);
    assert("gain"@[0] == 'g');
    assert("mute"@[0] == 'm');
    assert("solo"@[0] == 's');
}

impl ChannelStripNode {
    /// Ranges hold and the cached linear gain matches the decibel value.
    pub open spec fn wf(&self) -> bool {
        &&& -60000000 <= self.gain_db <= 24000000
        &&& self.gain_linear as int == db_to_linear_spec(self.gain_db as int)
        &&& 0 <= self.gain_linear <= 20000000000000
        &&& -UNIT <= self.pan <= UNIT
    }

    /// A neutral strip: unity gain, centred, unmuted.
    pub fn new(id: String) -> (r: ChannelStripNode)
        ensures
            r.id@ == id@,
            r.gain_db == 0,
            r.gain_linear == UNIT,
            r.pan == 0,
            !r.mute,
            !r.solo,
            r.wf(),
    {
        proof {
            assert(db_to_linear_spec(0) == 1000000);
        }
        ChannelStripNode { id, gain_db: 0, gain_linear: UNIT, pan: 0, mute: false, solo: false }
    }

    /// The node's id.
    pub fn id(&self) -> (r: &str)
        ensures
            r@ == self.id@,
    {
        self.id.as_str()
    }

    /// Introspection snapshot: `gain`, `pan`, `mute`, `solo`.
    pub fn metadata(&self) -> (r: NodeMetadata)
        ensures
            metadata_matches(*self, r),
    {
        let mut parameters: Vec<ParameterDescriptor> = Vec::new();
        parameters.push(ParameterDescriptor::new("gain", -60000000, 24000000, 0, "dB", "Gain"));
        parameters.push(ParameterDescriptor::new("pan", -1000000, 1000000, 0, "", "Pan"));
        parameters.push(ParameterDescriptor::new("mute", 0, 1000000, 0, "", "Mute"));
        parameters.push(ParameterDescriptor::new("solo", 0, 1000000, 0, "", "Solo"));
        NodeMetadata {
            name: String::from_str("Channel Strip"),
            category: NodeCategory::Routing,
            input_channels: 2,
            output_channels: 2,
            parameters,
            plugin: String::from_str("orquestador"),
        }
    }

    /// When muted, a silent buffer of the input's shape; otherwise gain and
    /// pan applied per channel.
    pub fn process(&mut self, input: &AudioBuffer) -> (r: AudioBuffer)
        requires
            old(self).wf(),
        ensures
            *final(self) == *old(self),
            r.channels == input.channels,
            r.sample_rate == input.sample_rate,
            old(self).mute ==> {
                &&& r.samples@.len() == input.channels as int * input.num_frames_spec()
                &&& forall|i: int| 0 <= i < r.samples@.len() ==> r.samples@[i] == 0i64
            },
            !old(self).mute ==> r.samples@ == strip_process_spec(
                old(self).gain_linear as int,
                old(self).pan as int,
                input.samples@,
            ),
    {
        if self.mute {
            let total: usize = input.samples.len();
            proof {
                if input.channels > 0 {
                    vstd::arithmetic::div_mod::lemma_fundamental_div_mod(
                        total as int,
                        input.channels as int,
                    );
                    vstd::arithmetic::div_mod::lemma_mod_bound(total as int, input.channels as int);
                }
            }
            let frames: usize = input.num_frames();
            proof {
                assert(input.channels as int * frames as int <= total as int);
            }
            return AudioBuffer::silence(input.channels, input.sample_rate, frames);
        }
        let mut out = input.clone();
        let (gl, gr) = pan_gains(self.pan);
        let n: usize = out.samples.len();
        let mut i: usize = 0;
        while i + 1 < n
            invariant
                i % 2 == 0,
                i <= n,
                n == out.samples@.len(),
                n == input.samples@.len(),
                out.channels == input.channels,
                out.sample_rate == input.sample_rate,
                gl as int == pan_gl_spec(self.pan as int),
                gr as int == pan_gr_spec(self.pan as int),
                forall|j: int|
                    0 <= j < i ==> out.samples@[j] == strip_process_spec(
                        self.gain_linear as int,
                        self.pan as int,
                        input.samples@,
                    )[j],
                forall|j: int| i <= j < n ==> out.samples@[j] == input.samples@[j],
            decreases n - i,
        {
            let l: i64 = muldiv(out.samples[i], self.gain_linear, UNIT);
            let rr: i64 = muldiv(out.samples[i + 1], self.gain_linear, UNIT);
            let lv: i64 = muldiv(l, gl, UNIT);
            let rv: i64 = muldiv(rr, gr, UNIT);
            out.samples.set(i, lv);
            out.samples.set(i + 1, rv);
            i = i + 2;
        }
        proof {
            assert(out.samples@ =~= strip_process_spec(
                self.gain_linear as int,
                self.pan as int,
                input.samples@,
            ));
        }
        out
    }

    /// Set `gain` (dB), `pan`, `mute`, or `solo`; the boolean flags read a
    /// threshold: true exactly when the value exceeds one half. Any other
    /// name is `ParameterNotFound`.
    pub fn set_parameter(&mut self, name: &str, value: i64) -> (r: Result<(), GraphError>)
        ensures
            name@ == "gain"@ ==> {
                &&& r is Ok
                &&& final(self).gain_db as int == clamp_spec(value as int, -60000000, 24000000)
                &&& final(self).gain_linear as int == db_to_linear_spec(final(self).gain_db as int)
                &&& final(self).pan == old(self).pan
                &&& final(self).mute == old(self).mute
                &&& final(self).solo == old(self).solo
            },
            name@ == "pan"@ ==> {
                &&& r is Ok
                &&& final(self).pan as int == clamp_spec(value as int, -1000000, 1000000)
                &&& final(self).gain_db == old(self).gain_db
                &&& final(self).gain_linear == old(self).gain_linear
                &&& final(self).mute == old(self).mute
                &&& final(self).solo == old(self).solo
            },
            name@ == "mute"@ ==> {
                &&& r is Ok
                &&& final(self).mute == (value > 500000)
                &&& final(self).gain_db == old(self).gain_db
                &&& final(self).gain_linear == old(self).gain_linear
                &&& final(self).pan == old(self).pan
                &&& final(self).solo == old(self).solo
            },
            name@ == "solo"@ ==> {
                &&& r is Ok
                &&& final(self).solo == (value > 500000)
                &&& final(self).gain_db == old(self).gain_db
                &&& final(self).gain_linear == old(self).gain_linear
                &&& final(self).pan == old(self).pan
                &&& final(self).mute == old(self).mute
            },
            name@ != "gain"@ && name@ != "pan"@ && name@ != "mute"@ && name@ != "solo"@ ==> {
                &&& *final(self) == *old(self)
                &&& r matches Err(GraphError::ParameterNotFound(n)) && n@ == name@
            },
            final(self).id@ == old(self).id@,
            old(self).wf() ==> final(self).wf(),
    {
        proof {
            lemma_strip_names_distinct();
        }
        if str_eq(name, "gain") {
            self.gain_db = if value < -60000000 {
                -60000000
            } else if value > 24000000 {
                24000000
            } else {
                value
            };
            self.gain_linear = db_to_linear(self.gain_db);
            Ok(())
        } else if str_eq(name, "pan") {
            self.pan = if value < -1000000 {
                -1000000
            } else if value > 1000000 {
                1000000
            } else {
                value
            };
            Ok(())
        } else if str_eq(name, "mute") {
            self.mute = value > 500000;
            Ok(())
        } else if str_eq(name, "solo") {
            self.solo = value > 500000;
            Ok(())
        } else {
            Err(GraphError::ParameterNotFound(String::from_str(name)))
        }
    }

    /// Read a parameter; the boolean flags come back as 0 or 1 (millionths).
    pub fn get_parameter(&self, name: &str) -> (r: Option<i64>)
        ensures
            name@ == "gain"@ ==> r == Some(self.gain_db),
            name@ == "pan"@ ==> r == Some(self.pan),
            name@ == "mute"@ ==> r == Some(if self.mute { UNIT } else { 0i64 }),
            name@ == "solo"@ ==> r == Some(if self.solo { UNIT } else { 0i64 }),
            name@ != "gain"@ && name@ != "pan"@ && name@ != "mute"@ && name@ != "solo"@ ==> r
                is None,
    {
        proof {
            lemma_strip_names_distinct();
        }
        if str_eq(name, "gain") {
            Some(self.gain_db)
        } else if str_eq(name, "pan") {
            Some(self.pan)
        } else if str_eq(name, "mute") {
            Some(if self.mute { UNIT } else { 0 })
        } else if str_eq(name, "solo") {
            Some(if self.solo { UNIT } else { 0 })
        } else {
            None
        }
    }
}

} // verus!
