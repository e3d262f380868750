//! A mix-bus node: a named pass-through sink for fan-in edges.

use vstd::prelude::*;
use vstd::string::StringExecFns;
use crate::buffer::AudioBuffer;
use crate::error::GraphError;
use crate::node::{NodeCategory, NodeMetadata};
use crate::text::{decimal_spec, u64_to_string};

verus! {

/// The introspection snapshot a mixer must produce: no parameters, and a
/// name carrying the declared input count.
pub open spec fn metadata_matches(n: MixerNode, r: NodeMetadata) -> bool {
    &&& r.name@ == decimal_spec(n.num_inputs as int) + "-Input Mixer"@
    &&& r.category == NodeCategory::Routing
    &&& r.input_channels == 2
    &&& r.output_channels == 2
    &&& r.plugin@ == "orquestador"@
    &&& r.parameters@.len() == 0
}

/// Pass-through node with no parameters. The graph mixes all incoming
/// edges before a node runs, so a mixer only gives that fan-in point a
/// name; `num_inputs` is metadata only.
pub struct MixerNode {
    /// Unique node id.
    pub id: String,
    /// Expected number of inputs, for display purposes.
    pub num_inputs: usize,
}

impl MixerNode {
    /// A mixer expecting `num_inputs` upstream edges.
    pub fn new(id: String, num_inputs: usize) -> (r: MixerNode)
        ensures
            r.id@ == id@,
            r.num_inputs == num_inputs,
    {
        MixerNode { id, num_inputs }
    }

    /// The node's id.
    pub fn id(&self) -> (r: &str)
        ensures
            r@ == self.id@,
    {
        self.id.as_str()
    }

    /// Introspection snapshot: no parameters; the name carries the declared
    /// input count.
    pub fn metadata(&self) -> (r: NodeMetadata)
        ensures
            metadata_matches(*self, r),
    {
        let mut name = u64_to_string(self.num_inputs as u64);
        name.append("-Input Mixer");
        NodeMetadata {
            name,
            category: NodeCategory::Routing,
            input_channels: 2,
            output_channels: 2,
            parameters: Vec::new(),
            plugin: String::from_str("orquestador"),
        }
    }

    /// Pass the (already mixed) input through unchanged.
    pub fn process(&mut self, input: &AudioBuffer) -> (r: AudioBuffer)
        ensures
            *final(self) == *old(self),
            r.channels == input.channels,
            r.sample_rate == input.sample_rate,
            r.samples@ == input.samples@,
    {
        input.clone()
    }

    /// A mixer has no parameters; every write is accepted and ignored.
    pub fn set_parameter(&mut self, name: &str, value: i64) -> (r: Result<(), GraphError>)
        ensures
            *final(self) == *old(self),
            r is Ok,
    {
        let _ = name;
        let _ = value;
        Ok(())
    }

    /// A mixer has no parameters; every read is `None`.
    pub fn get_parameter(&self, name: &str) -> (r: Option<i64>)
        ensures
            r is None,
    {
        let _ = name;
        None
    }
}

} // verus!
