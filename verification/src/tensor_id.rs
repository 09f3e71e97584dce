//! The identity of a node of a graph.

use vstd::prelude::*;

verus! {

/// The identity of a node: its place in the graph that holds it. Two nodes
/// of one graph are the same node exactly where their identities are equal.
#[derive(Clone, Copy, Debug, PartialEq, Eq, Structural, Hash)]
pub struct TensorId {
    pub index: usize,
}

} // verus!
