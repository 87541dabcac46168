//! What can go wrong while a graph is built or a change is propagated.

use vstd::prelude::*;
use crate::descriptor::NodeId;
use crate::report::Settlement;

verus! {

/// Why a set of descriptors is not a graph. No partial graph is ever returned.
#[derive(Clone, Debug, PartialEq, Eq)]
pub enum GraphError {
    /// The identifier occurs twice: as the identity of two descriptors, or
    /// twice among the dependencies of one descriptor.
    DuplicateId(NodeId),
    /// Descriptor `from` names the dependency `to`, which no descriptor declares.
    UnknownDependency { from: NodeId, to: NodeId },
    /// The members of a dependency cycle, in the order the traversal met
    /// them: each depends on the next, the last on the first.
    Cycle(Vec<NodeId>),
}

/// Why a propagation round did not settle every affected component.
#[derive(Debug, PartialEq, Eq)]
pub enum PropagationError<E> {
    /// The origin of the round is not an input component of the graph.
    NotAnInput(NodeId),
    /// The computation of `node` failed with `cause`; the round stopped
    /// there. The components in `settled` had settled before and keep
    /// their new values.
    NodeComputationFailed { node: NodeId, cause: E, settled: Vec<Settlement<E>> },
}

} // verus!
