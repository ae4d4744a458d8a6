//! How the load balancer picks a target.
use vstd::prelude::*;

verus! {

/// Load balancing strategy.
#[derive(Clone, Copy, Debug, PartialEq, Eq, Structural)]
pub enum Strategy {
    /// Any target, picked at random.
    Random,
    /// The target whose state is greatest (highest block height, healthy
    /// before unhealthy); among equals, the one registered last.
    GreatestHeight,
}

} // verus!
