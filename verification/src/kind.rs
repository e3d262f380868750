//! The closed set of node types and their uniform dispatch.
//!
//! The graph stores nodes as a tagged union with an exhaustive dispatcher,
//! so one match per block replaces virtual calls. `BufView` is the
//! mathematical shape of a buffer; `node_out_view` says what each node
//! emits and `node_post_rel` how its private state advances.

use vstd::prelude::*;
use crate::buffer::{mix_spec, scale_spec, AudioBuffer};
use crate::compressor::{comp_seq_spec, is_comp_param, unchanged_but_attack, unchanged_but_makeup,
    unchanged_but_ratio, unchanged_but_release, unchanged_but_threshold, CompressorNode};
use crate::eq::{band_lookup, eq_process_spec, BandParam, EqualizerNode};
use crate::error::GraphError;
use crate::fixed::{db_to_linear_spec, UNIT};
use crate::gain::GainNode;
use crate::mixer::MixerNode;
use crate::biquad::peaking_coeffs_spec;
use crate::node::{clamp_spec, NodeMetadata};
use crate::pan::{pan_process_spec, PanNode};
use crate::strip::{strip_process_spec, ChannelStripNode};

verus! {

/// The mathematical shape of an audio buffer.
#[verifier::ext_equal]
pub struct BufView {
    /// Channel count.
    pub channels: int,
    /// Sample rate in hertz.
    pub sample_rate: int,
    /// The samples, in millionths.
    pub samples: Seq<i64>,
}

/// The shape of an `AudioBuffer` value.
pub open spec fn buf_view(b: AudioBuffer) -> BufView {
    BufView {
        channels: b.channels as int,
        sample_rate: b.sample_rate as int,
        samples: b.samples@,
    }
}

/// A silent stereo view: all zeros.
pub open spec fn silence_view(channels: int, sample_rate: int, frames: int) -> BufView {
    BufView {
        channels: channels,
        sample_rate: sample_rate,
        samples: Seq::new((channels * frames) as nat, |i: int| 0i64),
    }
}

/// Any node of the closed node set.
pub enum NodeKind {
    /// Volume control.
    Gain(GainNode),
    /// N-band parametric equalizer.
    Equalizer(EqualizerNode),
    /// Dynamic range compressor.
    Compressor(CompressorNode),
    /// Equal-power stereo pan.
    Pan(PanNode),
    /// Gain, pan, mute, and solo in one unit.
    ChannelStrip(ChannelStripNode),
    /// Named pass-through mix bus.
    Mixer(MixerNode),
}

/// Whether a node accepts a write to the parameter of this name.
pub open spec fn set_param_ok(n: NodeKind, name: Seq<char>) -> bool {
    match n {
        NodeKind::Gain(_) => name == "gain"@,
        NodeKind::Pan(_) => name == "pan"@,
        NodeKind::ChannelStrip(_) => name == "gain"@ || name == "pan"@ || name == "mute"@ || name
            == "solo"@,
        NodeKind::Mixer(_) => true,
        NodeKind::Compressor(_) => is_comp_param(name),
        NodeKind::Equalizer(e) => band_lookup(name, e.bands@.len() as int) is Some,
    }
}

/// How an accepted parameter write changes the node: the named field takes
/// the clamped value, cached gains are refreshed, the equalizer re-derives
/// every band's coefficients, and everything else is unchanged. A write the
/// node does not accept leaves it as it was.
pub open spec fn set_param_rel(n: NodeKind, name: Seq<char>, value: i64, post: NodeKind) -> bool {
    match n {
        NodeKind::Gain(g) => if name == "gain"@ {
            &&& post matches NodeKind::Gain(g2)
            &&& g2.id@ == g.id@
            &&& g2.gain_db as int == clamp_spec(value as int, -60000000, 24000000)
            &&& g2.gain_linear as int == db_to_linear_spec(g2.gain_db as int)
        } else {
            post == n
        },
        NodeKind::Pan(p) => if name == "pan"@ {
            &&& post matches NodeKind::Pan(p2)
            &&& p2.id@ == p.id@
            &&& p2.pan as int == clamp_spec(value as int, -1000000, 1000000)
        } else {
            post == n
        },
        NodeKind::ChannelStrip(st) => if name == "gain"@ {
            &&& post matches NodeKind::ChannelStrip(s2)
            &&& s2.id@ == st.id@
            &&& s2.gain_db as int == clamp_spec(value as int, -60000000, 24000000)
            &&& s2.gain_linear as int == db_to_linear_spec(s2.gain_db as int)
            &&& s2.pan == st.pan && s2.mute == st.mute && s2.solo == st.solo
        } else if name == "pan"@ {
            &&& post matches NodeKind::ChannelStrip(s2)
            &&& s2.id@ == st.id@
            &&& s2.pan as int == clamp_spec(value as int, -1000000, 1000000)
            &&& s2.gain_db == st.gain_db && s2.gain_linear == st.gain_linear
            &&& s2.mute == st.mute && s2.solo == st.solo
        } else if name == "mute"@ {
            &&& post matches NodeKind::ChannelStrip(s2)
            &&& s2.id@ == st.id@
            &&& s2.mute == (value > 500000)
            &&& s2.gain_db == st.gain_db && s2.gain_linear == st.gain_linear
            &&& s2.pan == st.pan && s2.solo == st.solo
        } else if name == "solo"@ {
            &&& post matches NodeKind::ChannelStrip(s2)
            &&& s2.id@ == st.id@
            &&& s2.solo == (value > 500000)
            &&& s2.gain_db == st.gain_db && s2.gain_linear == st.gain_linear
            &&& s2.pan == st.pan && s2.mute == st.mute
        } else {
            post == n
        },
        NodeKind::Mixer(_) => post == n,
        NodeKind::Compressor(c) => if name == "threshold"@ {
            &&& post matches NodeKind::Compressor(c2)
            &&& c2.threshold_db as int == clamp_spec(value as int, -60000000, 0)
            &&& unchanged_but_threshold(c, c2)
        } else if name == "ratio"@ {
            &&& post matches NodeKind::Compressor(c2)
            &&& c2.ratio as int == clamp_spec(value as int, 1000000, 20000000)
            &&& unchanged_but_ratio(c, c2)
        } else if name == "attack"@ {
            &&& post matches NodeKind::Compressor(c2)
            &&& c2.attack_ms as int == clamp_spec(value as int, 100000, 100000000)
            &&& unchanged_but_attack(c, c2)
        } else if name == "release"@ {
            &&& post matches NodeKind::Compressor(c2)
            &&& c2.release_ms as int == clamp_spec(value as int, 10000000, 1000000000)
            &&& unchanged_but_release(c, c2)
        } else if name == "makeup"@ {
            &&& post matches NodeKind::Compressor(c2)
            &&& c2.makeup_db as int == clamp_spec(value as int, 0, 24000000)
            &&& unchanged_but_makeup(c, c2)
        } else {
            post == n
        },
        NodeKind::Equalizer(e) => match band_lookup(name, e.bands@.len() as int) {
            Some(ik) => {
                &&& post matches NodeKind::Equalizer(m)
                &&& m.id@ == e.id@
                &&& m.sample_rate == e.sample_rate
                &&& m.bands@.len() == e.bands@.len()
                &&& (ik.1 == BandParam::Gain ==> m.bands@[ik.0].gain_db as int == clamp_spec(
                    value as int,
                    -24000000,
                    24000000,
                ) && m.bands@[ik.0].frequency == e.bands@[ik.0].frequency && m.bands@[ik.0].q
                    == e.bands@[ik.0].q)
                &&& (ik.1 == BandParam::Freq ==> m.bands@[ik.0].frequency as int == clamp_spec(
                    value as int,
                    20000000,
                    20000000000,
                ) && m.bands@[ik.0].gain_db == e.bands@[ik.0].gain_db && m.bands@[ik.0].q
                    == e.bands@[ik.0].q)
                &&& (ik.1 == BandParam::Q ==> m.bands@[ik.0].q as int == clamp_spec(
                    value as int,
                    100000,
                    10000000,
                ) && m.bands@[ik.0].gain_db == e.bands@[ik.0].gain_db && m.bands@[ik.0].frequency
                    == e.bands@[ik.0].frequency)
                &&& forall|j: int|
                    0 <= j < m.bands@.len() && j != ik.0 ==> {
                        let ob = e.bands@[j];
                        let nb = #[trigger] m.bands@[j];
                        nb.frequency == ob.frequency && nb.gain_db == ob.gain_db && nb.q == ob.q
                    }
                &&& forall|j: int|
                    0 <= j < m.bands@.len() ==> {
                        let ob = e.bands@[j];
                        let nb = #[trigger] m.bands@[j];
                        let c = peaking_coeffs_spec(
                            nb.frequency as int,
                            nb.gain_db as int,
                            nb.q as int,
                        );
                        &&& nb.filter.a0 as int == c.0
                        &&& nb.filter.a1 as int == c.1
                        &&& nb.filter.a2 as int == c.2
                        &&& nb.filter.b1 as int == c.3
                        &&& nb.filter.b2 as int == c.4
                        &&& nb.filter.x1_l == ob.filter.x1_l && nb.filter.x2_l == ob.filter.x2_l
                        &&& nb.filter.y1_l == ob.filter.y1_l && nb.filter.y2_l == ob.filter.y2_l
                        &&& nb.filter.x1_r == ob.filter.x1_r && nb.filter.x2_r == ob.filter.x2_r
                        &&& nb.filter.y1_r == ob.filter.y1_r && nb.filter.y2_r == ob.filter.y2_r
                    }
            },
            None => post == n,
        },
    }
}

/// What reading a parameter returns: the named field's current value, with
/// the strip's switches encoded as 0 or 1; `None` for unknown names.
pub open spec fn get_param_spec(n: NodeKind, name: Seq<char>) -> Option<i64> {
    match n {
        NodeKind::Gain(g) => if name == "gain"@ {
            Some(g.gain_db)
        } else {
            None
        },
        NodeKind::Pan(p) => if name == "pan"@ {
            Some(p.pan)
        } else {
            None
        },
        NodeKind::ChannelStrip(st) => if name == "gain"@ {
            Some(st.gain_db)
        } else if name == "pan"@ {
            Some(st.pan)
        } else if name == "mute"@ {
            Some(
                if st.mute {
                    UNIT
                } else {
                    0i64
                },
            )
        } else if name == "solo"@ {
            Some(
                if st.solo {
                    UNIT
                } else {
                    0i64
                },
            )
        } else {
            None
        },
        NodeKind::Mixer(_) => None,
        NodeKind::Compressor(c) => if name == "threshold"@ {
            Some(c.threshold_db)
        } else if name == "ratio"@ {
            Some(c.ratio)
        } else if name == "attack"@ {
            Some(c.attack_ms)
        } else if name == "release"@ {
            Some(c.release_ms)
        } else if name == "makeup"@ {
            Some(c.makeup_db)
        } else {
            None
        },
        NodeKind::Equalizer(e) => match band_lookup(name, e.bands@.len() as int) {
            Some(ik) => Some(
                match ik.1 {
                    BandParam::Gain => e.bands@[ik.0].gain_db,
                    BandParam::Freq => e.bands@[ik.0].frequency,
                    BandParam::Q => e.bands@[ik.0].q,
                },
            ),
            None => None,
        },
    }
}

impl NodeKind {
    /// The node's id.
    pub open spec fn id_spec(&self) -> Seq<char> {
        match self {
            NodeKind::Gain(n) => n.id@,
            NodeKind::Equalizer(n) => n.id@,
            NodeKind::Compressor(n) => n.id@,
            NodeKind::Pan(n) => n.id@,
            NodeKind::ChannelStrip(n) => n.id@,
            NodeKind::Mixer(n) => n.id@,
        }
    }

    /// The node's internal invariant.
    pub open spec fn wf(&self) -> bool {
        match self {
            NodeKind::Gain(n) => n.wf(),
            NodeKind::Equalizer(n) => n.wf(),
            NodeKind::Compressor(n) => n.wf(),
            NodeKind::Pan(n) => n.wf(),
            NodeKind::ChannelStrip(n) => n.wf(),
            NodeKind::Mixer(n) => true,
        }
    }

    /// What the node emits for a given input, over buffer shapes.
    pub open spec fn out_view(&self, input: BufView) -> BufView {
        match self {
            NodeKind::Gain(n) => BufView {
                samples: scale_spec(input.samples, n.gain_linear),
                ..input
            },
            NodeKind::Equalizer(n) => BufView {
                samples: eq_process_spec(n.bands@, input.samples).0,
                ..input
            },
            NodeKind::Compressor(n) => BufView {
                samples: comp_seq_spec(n.params_spec(), n.envelope as int, input.samples).0,
                ..input
            },
            NodeKind::Pan(n) => BufView {
                samples: pan_process_spec(n.pan as int, input.samples),
                ..input
            },
            NodeKind::ChannelStrip(n) => if n.mute {
                silence_view(
                    input.channels,
                    input.sample_rate,
                    if input.channels == 0 {
                        0
                    } else {
                        input.samples.len() as int / input.channels
                    },
                )
            } else {
                BufView {
                    samples: strip_process_spec(n.gain_linear as int, n.pan as int, input.samples),
                    ..input
                }
            },
            NodeKind::Mixer(n) => input,
        }
    }

    /// How the node's private state advances when it processes `input`:
    /// only the compressor's envelope and the equalizer's filter histories
    /// move; everything else is unchanged.
    pub open spec fn post_rel(&self, input: BufView, post: NodeKind) -> bool {
        match self {
            NodeKind::Gain(n) => post == *self,
            NodeKind::Pan(n) => post == *self,
            NodeKind::ChannelStrip(n) => post == *self,
            NodeKind::Mixer(n) => post == *self,
            NodeKind::Compressor(n) => post matches NodeKind::Compressor(m) && m.id@ == n.id@
                && m.threshold_db == n.threshold_db && m.ratio == n.ratio && m.attack_ms
                == n.attack_ms && m.release_ms == n.release_ms && m.makeup_db == n.makeup_db
                && m.sample_rate == n.sample_rate && m.envelope as int == comp_seq_spec(
                n.params_spec(),
                n.envelope as int,
                input.samples,
            ).1,
            NodeKind::Equalizer(n) => post matches NodeKind::Equalizer(m) && m.id@ == n.id@
                && m.sample_rate == n.sample_rate && m.bands@ == eq_process_spec(
                n.bands@,
                input.samples,
            ).1,
        }
    }

    /// The node's id as a string slice.
    pub fn id(&self) -> (r: &str)
        ensures
            r@ == self.id_spec(),
    {
        match self {
            NodeKind::Gain(n) => n.id(),
            NodeKind::Equalizer(n) => n.id(),
            NodeKind::Compressor(n) => n.id(),
            NodeKind::Pan(n) => n.id(),
            NodeKind::ChannelStrip(n) => n.id(),
            NodeKind::Mixer(n) => n.id(),
        }
    }

    /// The node's metadata snapshot, exactly as the node type describes it.
    pub fn metadata(&self) -> (r: NodeMetadata)
        requires
            self.wf(),
        ensures
            (*self) matches NodeKind::Gain(n) ==> crate::gain::metadata_matches(n, r),
            (*self) matches NodeKind::Equalizer(n) ==> crate::eq::metadata_matches(n, r),
            (*self) matches NodeKind::Compressor(n) ==> crate::compressor::metadata_matches(n, r),
            (*self) matches NodeKind::Pan(n) ==> crate::pan::metadata_matches(n, r),
            (*self) matches NodeKind::ChannelStrip(n) ==> crate::strip::metadata_matches(n, r),
            (*self) matches NodeKind::Mixer(n) ==> crate::mixer::metadata_matches(n, r),
    {
        match self {
            NodeKind::Gain(n) => n.metadata(),
            NodeKind::Equalizer(n) => n.metadata(),
            NodeKind::Compressor(n) => n.metadata(),
            NodeKind::Pan(n) => n.metadata(),
            NodeKind::ChannelStrip(n) => n.metadata(),
            NodeKind::Mixer(n) => n.metadata(),
        }
    }

    /// Process one buffer: the output follows `out_view`, the state change
    /// `post_rel`, and the id and invariant are preserved.
    pub fn process(&mut self, input: &AudioBuffer) -> (r: AudioBuffer)
        requires
            old(self).wf(),
        ensures
            final(self).wf(),
            final(self).id_spec() == old(self).id_spec(),
            buf_view(r) == old(self).out_view(buf_view(*input)),
            old(self).post_rel(buf_view(*input), *final(self)),
    {
        match self {
            NodeKind::Gain(n) => {
                let r = n.process(input);
                proof {
                    assert(buf_view(r) =~= old(self).out_view(buf_view(*input)));
                }
                r
            },
            NodeKind::Equalizer(n) => {
                let r = n.process(input);
                proof {
                    assert(buf_view(r) =~= old(self).out_view(buf_view(*input)));
                }
                r
            },
            NodeKind::Compressor(n) => {
                let r = n.process(input);
                proof {
                    assert(buf_view(r) =~= old(self).out_view(buf_view(*input)));
                }
                r
            },
            NodeKind::Pan(n) => {
                let r = n.process(input);
                proof {
                    assert(buf_view(r) =~= old(self).out_view(buf_view(*input)));
                }
                r
            },
            NodeKind::ChannelStrip(n) => {
                let r = n.process(input);
                proof {
                    if old(self)->ChannelStrip_0.mute {
                        assert(buf_view(r).samples =~= old(self).out_view(
                            buf_view(*input),
                        ).samples);
                    }
                    assert(buf_view(r) =~= old(self).out_view(buf_view(*input)));
                }
                r
            },
            NodeKind::Mixer(n) => {
                let r = n.process(input);
                proof {
                    assert(buf_view(r) =~= old(self).out_view(buf_view(*input)));
                }
                r
            },
        }
    }

    /// Forward a parameter write to the node, which clamps the value into
    /// the parameter's range as `set_param_rel` describes; unknown names
    /// are `ParameterNotFound` and change nothing.
    pub fn set_parameter(&mut self, name: &str, value: i64) -> (r: Result<(), GraphError>)
        requires
            old(self).wf(),
        ensures
            final(self).wf(),
            final(self).id_spec() == old(self).id_spec(),
            set_param_ok(*old(self), name@) ==> r is Ok && set_param_rel(
                *old(self),
                name@,
                value,
                *final(self),
            ),
            !set_param_ok(*old(self), name@) ==> ({
                &&& r matches Err(GraphError::ParameterNotFound(x)) && x@ == name@
                &&& *final(self) == *old(self)
            }),
    {
        match self {
            NodeKind::Gain(n) => n.set_parameter(name, value),
            NodeKind::Equalizer(n) => n.set_parameter(name, value),
            NodeKind::Compressor(n) => n.set_parameter(name, value),
            NodeKind::Pan(n) => n.set_parameter(name, value),
            NodeKind::ChannelStrip(n) => n.set_parameter(name, value),
            NodeKind::Mixer(n) => n.set_parameter(name, value),
        }
    }

    /// Latency introduced by the node, in frames; every node of this set
    /// processes without lookahead.
    pub fn latency(&self) -> (r: usize)
        ensures
            r == 0,
    {
        0
    }

    /// Reset the node's processing state: the compressor's envelope and the
    /// equalizer's filter histories return to zero; stateless nodes are
    /// unchanged.
    pub fn reset(&mut self)
        requires
            old(self).wf(),
        ensures
            final(self).wf(),
            final(self).id_spec() == old(self).id_spec(),
            (*old(self)) matches NodeKind::Gain(_) ==> *final(self) == *old(self),
            (*old(self)) matches NodeKind::Pan(_) ==> *final(self) == *old(self),
            (*old(self)) matches NodeKind::ChannelStrip(_) ==> *final(self) == *old(self),
            (*old(self)) matches NodeKind::Mixer(_) ==> *final(self) == *old(self),
            (*old(self)) matches NodeKind::Compressor(c) ==> ({
                &&& (*final(self)) matches NodeKind::Compressor(c2)
                &&& c2.envelope == 0i64
                &&& crate::compressor::unchanged_but_envelope(c, c2)
            }),
            (*old(self)) matches NodeKind::Equalizer(e) ==> ({
                &&& (*final(self)) matches NodeKind::Equalizer(e2)
                &&& e2.bands@.len() == e.bands@.len()
                &&& forall|j: int|
                    0 <= j < e2.bands@.len() ==> {
                        let ob = e.bands@[j];
                        let nb = #[trigger] e2.bands@[j];
                        &&& nb.frequency == ob.frequency
                        &&& nb.gain_db == ob.gain_db
                        &&& nb.q == ob.q
                        &&& nb.filter.x1_l == 0i64 && nb.filter.x2_l == 0i64
                        &&& nb.filter.y1_l == 0i64 && nb.filter.y2_l == 0i64
                        &&& nb.filter.x1_r == 0i64 && nb.filter.x2_r == 0i64
                        &&& nb.filter.y1_r == 0i64 && nb.filter.y2_r == 0i64
                    }
            }),
    {
        match self {
            NodeKind::Gain(_) => (),
            NodeKind::Pan(_) => (),
            NodeKind::ChannelStrip(_) => (),
            NodeKind::Mixer(_) => (),
            NodeKind::Compressor(n) => n.reset(),
            NodeKind::Equalizer(n) => n.reset(),
        }
    }

    /// Read a parameter; unknown names are `None`.
    pub fn get_parameter(&self, name: &str) -> (r: Option<i64>)
        ensures
            r == get_param_spec(*self, name@),
    {
        match self {
            NodeKind::Gain(n) => n.get_parameter(name),
            NodeKind::Equalizer(n) => n.get_parameter(name),
            NodeKind::Compressor(n) => n.get_parameter(name),
            NodeKind::Pan(n) => n.get_parameter(name),
            NodeKind::ChannelStrip(n) => n.get_parameter(name),
            NodeKind::Mixer(n) => n.get_parameter(name),
        }
    }
}

} // verus!
