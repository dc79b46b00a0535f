//! The [`Edge`] type: a connection from an output of one node to an input of another.

use vstd::prelude::*;

verus! {

/// Represents a connection between an output and an input of two nodes.
#[derive(Debug)]
pub struct Edge {
    /// The output index of the source node.
    pub source_output: u32,
    /// The input index of the target node.
    pub target_input: u32,
    /// The name of the source output, if known.
    pub source_output_name: Option<String>,
    /// The name of the target input, if known.
    pub target_input_name: Option<String>,
}

impl Edge {
    /// Creates an edge between the given output and input indices.
    pub fn new(source_output: u32, target_input: u32) -> (r: Edge)
        ensures
            r.source_output == source_output,
            r.target_input == target_input,
            r.source_output_name is None,
            r.target_input_name is None,
    {
        Edge { source_output, target_input, source_output_name: None, target_input_name: None }
    }
}

} // verus!
