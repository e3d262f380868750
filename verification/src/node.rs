//! Node introspection records: categories, parameter descriptors, metadata.

use vstd::prelude::*;
use vstd::string::StringExecFns;

verus! {

/// Category of an audio node, used for interface classification only.
#[derive(Clone, Copy, Debug, PartialEq, Eq, Structural)]
pub enum NodeCategory {
    /// Input source (microphone, file player, ...).
    Source,
    /// Audio effect (equalizer, compressor, gain, ...).
    Effect,
    /// Routing or mixing (strip, pan, mixer, ...).
    Routing,
    /// Output sink (speakers, recorder, ...).
    Sink,
}

/// Clamp `value` into `[min, max]`.
pub open spec fn clamp_spec(value: int, min: int, max: int) -> int {
    if value < min {
        min
    } else if value > max {
        max
    } else {
        value
    }
}

/// Description of one node parameter: a name, a closed range (fixed-point
/// millionths), a default, a unit label, and a display label.
#[derive(Clone, Debug)]
pub struct ParameterDescriptor {
    /// Parameter name, unique within a node.
    pub name: String,
    /// Smallest accepted value (millionths).
    pub min: i64,
    /// Largest accepted value (millionths).
    pub max: i64,
    /// Default value (millionths).
    pub default: i64,
    /// Unit of measurement, such as "dB" or "Hz".
    pub unit: String,
    /// Human-readable label.
    pub label: String,
}

impl ParameterDescriptor {
    /// The descriptor's range contains its default.
    pub open spec fn wf(&self) -> bool {
        self.min <= self.default <= self.max
    }

    /// Build a descriptor from its six fields.
    pub fn new(name: &str, min: i64, max: i64, default: i64, unit: &str, label: &str) -> (r:
        ParameterDescriptor)
        ensures
            r.name@ == name@,
            r.min == min,
            r.max == max,
            r.default == default,
            r.unit@ == unit@,
            r.label@ == label@,
    {
        ParameterDescriptor {
            name: String::from_str(name),
            min,
            max,
            default,
            unit: String::from_str(unit),
            label: String::from_str(label),
        }
    }

    /// Clamp a value into this descriptor's range.
    pub fn clamp(&self, value: i64) -> (r: i64)
        ensures
            r as int == clamp_spec(value as int, self.min as int, self.max as int),
    {
        if value < self.min {
            self.min
        } else if value > self.max {
            self.max
        } else {
            value
        }
    }
}

/// A clamped value always lies in the descriptor's range, and values already
/// in range pass through unchanged.
pub proof fn lemma_clamp_range(value: int, min: int, max: int)
    requires
        min <= max,
    ensures
        min <= clamp_spec(value, min, max) <= max,
        min <= value <= max ==> clamp_spec(value, min, max) == value,
{
}

/// Snapshot of a node's capabilities.
#[derive(Clone, Debug)]
pub struct NodeMetadata {
    /// Human-readable name.
    pub name: String,
    /// Node category.
    pub category: NodeCategory,
    /// Declared input channel count.
    pub input_channels: usize,
    /// Declared output channel count.
    pub output_channels: usize,
    /// Available parameters.
    pub parameters: Vec<ParameterDescriptor>,
    /// Plugin that provides the node.
    pub plugin: String,
}

} // verus!
