//! Directed edges of the audio graph.

use vstd::prelude::*;

verus! {

/// An edge from one node's output port to another node's input port.
/// Identity is the full 4-tuple; several edges may join the same pair of
/// nodes on distinct ports.
#[derive(Clone, Debug, PartialEq, Eq)]
pub struct Connection {
    /// Source node id.
    pub from_node: String,
    /// Source output index (0-based).
    pub from_output: usize,
    /// Destination node id.
    pub to_node: String,
    /// Destination input index (0-based).
    pub to_input: usize,
}

impl Connection {
    /// A connection with explicit port indices.
    pub fn new(from_node: String, from_output: usize, to_node: String, to_input: usize) -> (r:
        Connection)
        ensures
            r.from_node@ == from_node@,
            r.from_output == from_output,
            r.to_node@ == to_node@,
            r.to_input == to_input,
    {
        Connection { from_node, from_output, to_node, to_input }
    }

    /// An identical copy of this connection, usable where verified code
    /// needs the copy's contents known.
    pub fn clone_conn(&self) -> (r: Connection)
        ensures
            r == *self,
    {
        Connection {
            from_node: self.from_node.clone(),
            from_output: self.from_output,
            to_node: self.to_node.clone(),
            to_input: self.to_input,
        }
    }

    /// A connection from output 0 to input 0.
    pub fn simple(from_node: String, to_node: String) -> (r: Connection)
        ensures
            r.from_node@ == from_node@,
            r.from_output == 0,
            r.to_node@ == to_node@,
            r.to_input == 0,
    {
        Connection::new(from_node, 0, to_node, 0)
    }
}

} // verus!
