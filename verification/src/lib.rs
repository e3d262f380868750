//! A verified audio processing graph: a directed acyclic graph of typed audio
//! nodes that transform buffers of interleaved samples.
//!
//! Samples and parameter values are fixed-point integers in millionths
//! (`fixed::UNIT` is one), so every transformation in the library is exact
//! integer arithmetic with stated contracts: the graph kernel maintains a
//! topological execution order, rejects cycles with no state change, mixes
//! fan-in edges, and routes parameters to nodes by identifier.

pub mod biquad;
pub mod buffer;
pub mod compressor;
pub mod connection;
pub mod eq;
pub mod error;
pub mod fixed;
pub mod gain;
pub mod graph;
pub mod kind;
pub mod mixer;
pub mod node;
pub mod pan;
pub mod scan;
pub mod security;
pub mod strip;
pub mod text;

pub use biquad::BiquadFilter;
pub use buffer::AudioBuffer;
pub use compressor::CompressorNode;
pub use connection::Connection;
pub use eq::EqualizerNode;
pub use error::GraphError;
pub use fixed::UNIT;
pub use gain::GainNode;
pub use graph::AudioGraph;
pub use kind::NodeKind;
pub use mixer::MixerNode;
pub use node::{NodeCategory, NodeMetadata, ParameterDescriptor};
pub use pan::PanNode;
pub use scan::{AudioDevice, FileScanner, MetadataExtractor, ScanProgress};
pub use security::SecurityValidator;
pub use strip::ChannelStripNode;
