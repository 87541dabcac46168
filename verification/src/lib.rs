//! A declarative dependency graph of components.
//!
//! A set of component descriptors is resolved once into a validated
//! [`ComponentGraph`]; afterwards every change of an input component is
//! propagated to its dependents in rounds, each affected component settling
//! exactly once and in an order consistent with the dependencies.

pub mod builder;
pub mod descriptor;
pub mod engine;
pub mod error;
pub mod graph;
pub mod input;
pub mod laws;
pub mod propagation;
pub mod registry;
pub mod report;
pub mod resolve;
pub mod round;
pub mod routing;
pub mod schedule;
pub mod serving;
pub mod state;
pub mod traversal;
pub mod validate;

pub use builder::build;
pub use descriptor::{Component, ComponentDescriptor, NodeId, NodeKind};
pub use engine::PropagationEngine;
pub use error::{GraphError, PropagationError};
pub use graph::{ComponentGraph, GraphView};
pub use input::{Input, InputMarker, StoredInput};
pub use registry::{Subscription, SubscriptionId, SubscriptionRegistry};
pub use report::{Delivery, RoundReport, Settlement};
pub use round::{deliver, gather, notify, PropagationRound};
pub use routing::{find_route, RouteKey};
pub use serving::{InternalServerError, IntoNonGenericHandler, Json};
pub use state::{State, StateMap};
