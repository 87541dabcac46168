//! What a round tells its caller: which components settled, and what
//! their subscribers made of the values.

use vstd::prelude::*;
use crate::descriptor::NodeId;
use crate::registry::SubscriptionId;

verus! {

/// What one subscriber made of one settled value.
#[derive(Debug, PartialEq, Eq)]
pub struct Delivery<E> {
    pub subscription: SubscriptionId,
    pub outcome: Result<(), E>,
}

/// One component that settled in a round, with the deliveries of its value
/// in registration order.
#[derive(Debug, PartialEq, Eq)]
pub struct Settlement<E> {
    pub node: NodeId,
    pub deliveries: Vec<Delivery<E>>,
}

/// What happened in a round that settled every affected component: the
/// components in the order in which they settled.
#[derive(Debug, PartialEq, Eq)]
pub struct RoundReport<E> {
    pub settled: Vec<Settlement<E>>,
}

} // verus!
