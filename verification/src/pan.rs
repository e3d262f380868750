//! A stereo pan node with the equal-power law.

use vstd::prelude::*;
use vstd::string::StringExecFns;
use crate::buffer::AudioBuffer;
use crate::error::GraphError;
use crate::fixed::{mul_unit_spec, muldiv, pan_gains, pan_gl_spec, pan_gr_spec, UNIT};
use crate::node::{clamp_spec, NodeCategory, NodeMetadata, ParameterDescriptor};
use crate::text::str_eq;

verus! {

/// What panning does to interleaved stereo samples: even indices (left) are
/// scaled by the left gain, odd indices (right) by the right gain; a final
/// even sample without a partner is left untouched.
pub open spec fn pan_process_spec(pan: int, s: Seq<i64>) -> Seq<i64> {
    Seq::new(
        s.len(),
        |i: int|
            if i % 2 == 0 && i + 1 < s.len() {
                mul_unit_spec(s[i] as int, pan_gl_spec(pan)) as i64
            } else if i % 2 == 1 {
                mul_unit_spec(s[i] as int, pan_gr_spec(pan)) as i64
            } else {
                s[i]
            },
    )
}

/// The introspection snapshot a pan node must produce: one unit-less
/// `pan` parameter over `[-1, 1]` with default 0.
pub open spec fn metadata_matches(n: PanNode, r: NodeMetadata) -> bool {
    &&& r.name@ == "Pan"@
    &&& r.category == NodeCategory::Routing
    &&& r.input_channels == 2
    &&& r.output_channels == 2
    &&& r.plugin@ == "orquestador"@
    &&& r.parameters@.len() == 1
    &&& r.parameters@[0].name@ == "pan"@
    &&& r.parameters@[0].min == -1000000i64
    &&& r.parameters@[0].max == 1000000i64
    &&& r.parameters@[0].default == 0i64
    &&& r.parameters@[0].unit@ == ""@
}

/// Constant-power stereo panning: one `pan` parameter in `[-1, 1]`
/// (fixed-point millionths), centre 0.
pub struct PanNode {
    /// Unique node id.
    pub id: String,
    /// Pan position in millionths: `-UNIT` full left, `UNIT` full right.
    pub pan: i64,
}

impl PanNode {
    /// The pan position lies in `[-1, 1]`.
    pub open spec fn wf(&self) -> bool {
        -UNIT <= self.pan <= UNIT
    }

    /// A centred pan node.
    pub fn new(id: String) -> (r: PanNode)
        ensures
            r.id@ == id@,
            r.pan == 0,
            r.wf(),
    {
        PanNode { id, pan: 0 }
    }

    /// The node's id.
    pub fn id(&self) -> (r: &str)
        ensures
            r@ == self.id@,
    {
        self.id.as_str()
    }

    /// Introspection snapshot: one unit-less `pan` parameter.
    pub fn metadata(&self) -> (r: NodeMetadata)
        ensures
            metadata_matches(*self, r),
    {
        let mut parameters: Vec<ParameterDescriptor> = Vec::new();
        parameters.push(ParameterDescriptor::new("pan", -1000000, 1000000, 0, "", "Pan"));
        NodeMetadata {
            name: String::from_str("Pan"),
            category: NodeCategory::Routing,
            input_channels: 2,
            output_channels: 2,
            parameters,
            plugin: String::from_str("orquestador"),
        }
    }

    /// Apply the equal-power pan gains to the interleaved stereo input.
    pub fn process(&mut self, input: &AudioBuffer) -> (r: AudioBuffer)
        requires
            old(self).wf(),
        ensures
            *final(self) == *old(self),
            r.channels == input.channels,
            r.sample_rate == input.sample_rate,
            r.samples@ == pan_process_spec(old(self).pan as int, input.samples@),
    {
        let mut out = input.clone();
        let (gl, gr) = pan_gains(self.pan);
        let n: usize = out.samples.len();
        let mut i: usize = 0;
        while i + 1 < n
            invariant
                i % 2 == 0,
                i <= n,
                n == out.samples@.len(),
                n == input.samples@.len(),
                out.channels == input.channels,
                out.sample_rate == input.sample_rate,
                gl as int == pan_gl_spec(self.pan as int),
                gr as int == pan_gr_spec(self.pan as int),
                forall|j: int|
                    0 <= j < i ==> out.samples@[j] == pan_process_spec(
                        self.pan as int,
                        input.samples@,
                    )[j],
                forall|j: int| i <= j < n ==> out.samples@[j] == input.samples@[j],
            decreases n - i,
        {
            let l: i64 = out.samples[i];
            let rr: i64 = out.samples[i + 1];
            let lv: i64 = muldiv(l, gl, UNIT);
            let rv: i64 = muldiv(rr, gr, UNIT);
            out.samples.set(i, lv);
            out.samples.set(i + 1, rv);
            i = i + 2;
        }
        proof {
            assert(out.samples@ =~= pan_process_spec(self.pan as int, input.samples@));
        }
        out
    }

    /// Set `pan` (clamped to `[-1, 1]`); any other name is `ParameterNotFound`.
    pub fn set_parameter(&mut self, name: &str, value: i64) -> (r: Result<(), GraphError>)
        ensures
            name@ == "pan"@ ==> {
                &&& r is Ok
                &&& final(self).pan as int == clamp_spec(value as int, -1000000, 1000000)
                &&& final(self).id@ == old(self).id@
                &&& final(self).wf()
            },
            name@ != "pan"@ ==> {
                &&& *final(self) == *old(self)
                &&& r matches Err(GraphError::ParameterNotFound(n)) && n@ == name@
            },
    {
        if str_eq(name, "pan") {
            self.pan = if value < -1000000 {
                -1000000
            } else if value > 1000000 {
                1000000
            } else {
                value
            };
            Ok(())
        } else {
            Err(GraphError::ParameterNotFound(String::from_str(name)))
        }
    }

    /// Read `pan`; `None` for any other name.
    pub fn get_parameter(&self, name: &str) -> (r: Option<i64>)
        ensures
            name@ == "pan"@ ==> r == Some(self.pan),
            name@ != "pan"@ ==> r is None,
    {
        if str_eq(name, "pan") {
            Some(self.pan)
        } else {
            None
        }
    }
}

/// Pan symmetry: at centre, the left and right gains coincide, so any input
/// with equal samples in a frame keeps them equal after panning.
pub proof fn lemma_pan_center_symmetry(s: Seq<i64>)
    requires
        forall|i: int| 0 <= i && i % 2 == 0 && i + 1 < s.len() ==> #[trigger] s[i] == s[i + 1],
    ensures
        forall|i: int|
            0 <= i && i % 2 == 0 && i + 1 < s.len() ==> #[trigger] pan_process_spec(0, s)[i]
                == pan_process_spec(0, s)[i + 1],
{
    assert(pan_gl_spec(0) == pan_gr_spec(0));
}

} // verus!
