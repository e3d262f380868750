//! A gain node: scales every sample by a decibel-controlled linear gain.

use vstd::prelude::*;
use vstd::string::StringExecFns;
use crate::buffer::{lemma_peak_scale, peak_spec, scale_spec, AudioBuffer};
use crate::error::GraphError;
use crate::fixed::{db_to_linear, db_to_linear_spec, mul_unit_spec, UNIT};
use crate::node::{clamp_spec, NodeCategory, NodeMetadata, ParameterDescriptor};
use crate::text::str_eq;

verus! {

/// The introspection snapshot a gain node must produce: one `gain`
/// parameter in dB over `[-60, 24]` with default 0.
pub open spec fn metadata_matches(n: GainNode, r: NodeMetadata) -> bool {
    &&& r.name@ == "Gain"@
    &&& r.category == NodeCategory::Effect
    &&& r.input_channels == 2
    &&& r.output_channels == 2
    &&& r.plugin@ == "compositor"@
    &&& r.parameters@.len() == 1
    &&& r.parameters@[0].name@ == "gain"@
    &&& r.parameters@[0].min == -60000000i64
    &&& r.parameters@[0].max == 24000000i64
    &&& r.parameters@[0].default == 0i64
    &&& r.parameters@[0].unit@ == "dB"@
}

/// Volume control: one `gain` parameter in dB, applied as a cached linear
/// factor to every sample.
pub struct GainNode {
    /// Unique node id.
    pub id: String,
    /// Gain in millionths of a dB, clamped to `[-60 dB, +24 dB]`.
    pub gain_db: i64,
    /// Cached linear gain in millionths, kept equal to `10^(gain_db/20)`.
    pub gain_linear: i64,
}

impl GainNode {
    /// The cached linear gain matches the decibel value, which sits in range.
    pub open spec fn wf(&self) -> bool {
        &&& -60000000 <= self.gain_db <= 24000000
        &&& self.gain_linear as int == db_to_linear_spec(self.gain_db as int)
        &&& 0 <= self.gain_linear <= 20000000000000
    }

    /// A unity-gain node (0 dB).
    pub fn new(id: String) -> (r: GainNode)
        ensures
            r.id@ == id@,
            r.gain_db == 0,
            r.gain_linear == UNIT,
            r.wf(),
    {
        proof {
            assert(db_to_linear_spec(0) == 1000000);
        }
        GainNode { id, gain_db: 0, gain_linear: UNIT }
    }

    /// The node's id.
    pub fn id(&self) -> (r: &str)
        ensures
            r@ == self.id@,
    {
        self.id.as_str()
    }

    /// Introspection snapshot: one `gain` parameter in dB.
    pub fn metadata(&self) -> (r: NodeMetadata)
        ensures
            metadata_matches(*self, r),
    {
        let mut parameters: Vec<ParameterDescriptor> = Vec::new();
        parameters.push(ParameterDescriptor::new("gain", -60000000, 24000000, 0, "dB", "Gain"));
        NodeMetadata {
            name: String::from_str("Gain"),
            category: NodeCategory::Effect,
            input_channels: 2,
            output_channels: 2,
            parameters,
            plugin: String::from_str("compositor"),
        }
    }

    /// Scale every sample of `input` by the cached linear gain.
    pub fn process(&mut self, input: &AudioBuffer) -> (r: AudioBuffer)
        ensures
            *final(self) == *old(self),
            r.channels == input.channels,
            r.sample_rate == input.sample_rate,
            r.samples@ == scale_spec(input.samples@, old(self).gain_linear),
    {
        let mut out = input.clone();
        out.apply_gain(self.gain_linear);
        out
    }

    /// Set `gain` (dB, clamped to `[-60, 24]`), refreshing the linear gain;
    /// any other name is `ParameterNotFound`.
    pub fn set_parameter(&mut self, name: &str, value: i64) -> (r: Result<(), GraphError>)
        ensures
            name@ == "gain"@ ==> {
                &&& r is Ok
                &&& final(self).gain_db as int == clamp_spec(value as int, -60000000, 24000000)
                &&& final(self).gain_linear as int == db_to_linear_spec(final(self).gain_db as int)
                &&& final(self).id@ == old(self).id@
                &&& final(self).wf()
            },
            name@ != "gain"@ ==> {
                &&& *final(self) == *old(self)
                &&& r matches Err(GraphError::ParameterNotFound(n)) && n@ == name@
            },
    {
        if str_eq(name, "gain") {
            self.gain_db = if value < -60000000 {
                -60000000
            } else if value > 24000000 {
                24000000
            } else {
                value
            };
            self.gain_linear = db_to_linear(self.gain_db);
            Ok(())
        } else {
            Err(GraphError::ParameterNotFound(String::from_str(name)))
        }
    }

    /// Read `gain` (dB); `None` for any other name.
    pub fn get_parameter(&self, name: &str) -> (r: Option<i64>)
        ensures
            name@ == "gain"@ ==> r == Some(self.gain_db),
            name@ != "gain"@ ==> r is None,
    {
        if str_eq(name, "gain") {
            Some(self.gain_db)
        } else {
            None
        }
    }
}

/// Gain law: processing scales the peak level by exactly the linear gain,
/// `peak(out) == gain_linear * peak(in)` in fixed point.
pub proof fn lemma_gain_law(node: GainNode, input: Seq<i64>)
    requires
        node.wf(),
    ensures
        peak_spec(scale_spec(input, node.gain_linear)) == mul_unit_spec(
            peak_spec(input),
            node.gain_linear as int,
        ),
{
    lemma_peak_scale(input, node.gain_linear);
}

} // verus!
