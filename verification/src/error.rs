//! Failure taxonomy of the graph and its nodes.

use vstd::prelude::*;

verus! {

/// Everything that a graph or node operation can report.
#[derive(Clone, Debug, PartialEq, Eq)]
pub enum GraphError {
    /// A node with this id is already present in the graph.
    NodeAlreadyExists(String),
    /// No node with this id is present in the graph.
    NodeNotFound(String),
    /// The requested connection would close a directed cycle.
    CycleDetected,
    /// Reserved for future port checks.
    InvalidConnection(String),
    /// The node has no parameter of this name.
    ParameterNotFound(String),
    /// Reserved: parameter values are clamped, never rejected.
    InvalidParameterValue(String),
    /// A processing sweep could not produce an output.
    ProcessingError(String),
    /// Reserved for future buffer size checks.
    BufferSizeMismatch { expected: usize, actual: usize },
    /// Reserved for future channel checks.
    ChannelMismatch { expected: usize, actual: usize },
}

} // verus!
