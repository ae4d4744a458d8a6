//! The health record that the load balancer keeps for each node.
use vstd::prelude::*;

verus! {

/// State of a node: the latest block height it reported and whether its
/// last health check succeeded.
///
/// States are ordered by height first and health second (an unhealthy node
/// comes before a healthy one of the same height); `state_le` is that order.
#[derive(Clone, Copy, Debug, PartialOrd, PartialEq, Eq, Ord, Structural)]
pub struct NodeState {
    pub height: u32,
    pub healthy: bool,
}

/// The state given to every node that has not been checked yet.
pub open spec fn initial_node_state() -> NodeState {
    NodeState { height: 0, healthy: true }
}

/// `a` is not greater than `b` in the order of node states: height first,
/// then health, with `false` before `true`.
pub open spec fn state_le(a: NodeState, b: NodeState) -> bool {
    a.height < b.height || (a.height == b.height && (a.healthy ==> b.healthy))
}

impl Default for NodeState {
    fn default() -> (r: Self)
        ensures
            r == initial_node_state(),
    {
        NodeState { height: 0, healthy: true }
    }
}

/// Decides `state_le(*a, *b)`.
pub(crate) fn node_state_le(a: &NodeState, b: &NodeState) -> (r: bool)
    ensures
        r == state_le(*a, *b),
{
    a.height < b.height || (a.height == b.height && (!a.healthy || b.healthy))
}

/// The order of node states is total: of any two states one is not greater
/// than the other.
pub proof fn lemma_state_le_total(a: NodeState, b: NodeState)
    ensures
        state_le(a, b) || state_le(b, a),
{
}

/// The order of node states is transitive.
pub proof fn lemma_state_le_transitive(a: NodeState, b: NodeState, c: NodeState)
    requires
        state_le(a, b),
        state_le(b, c),
    ensures
        state_le(a, c),
{
}

/// The order of node states is antisymmetric: two states that are each not
/// greater than the other are equal.
pub proof fn lemma_state_le_antisymmetric(a: NodeState, b: NodeState)
    requires
        state_le(a, b),
        state_le(b, a),
    ensures
        a == b,
{
}

/// Node states are ordered by block height first: a lower height is
/// strictly below a higher one whatever the health, and at equal heights an
/// unhealthy node is below a healthy one.
pub proof fn lemma_state_le_height_first(a: NodeState, b: NodeState)
    ensures
        a.height < b.height ==> state_le(a, b) && !state_le(b, a),
        a.height == b.height ==> (state_le(a, b) <==> (a.healthy ==> b.healthy)),
        state_le(a, b) ==> a.height <= b.height,
{
}

} // verus!
