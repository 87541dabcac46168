//! Identities and static declarations of components.

use vstd::prelude::*;

verus! {

/// Stable identifier of a component, unique within one graph.
#[derive(Clone, Copy, Debug, PartialEq, Eq, Structural, Hash)]
pub struct NodeId(pub u64);

/// Whether a component is fed from outside or computed from other components.
#[derive(Clone, Copy, Debug, PartialEq, Eq, Structural)]
pub enum NodeKind {
    /// A component without dependencies, the only legal target of an update.
    Input,
    /// A component computed from its dependencies.
    Derived,
}

/// The kind that goes with a given number of declared dependencies.
pub open spec fn kind_of(dependency_count: nat) -> NodeKind {
    if dependency_count == 0 {
        NodeKind::Input
    } else {
        NodeKind::Derived
    }
}

/// Static declaration of one component: its identity and the identities of
/// the components it depends on, in declaration order.
#[derive(Clone, Debug)]
pub struct ComponentDescriptor {
    pub id: NodeId,
    pub dependency_ids: Vec<NodeId>,
}

impl ComponentDescriptor {
    /// Declares a component with the given dependencies.
    pub fn new(id: NodeId, dependency_ids: Vec<NodeId>) -> (d: Self)
        ensures
            d.id == id,
            d.dependency_ids == dependency_ids,
    {
        ComponentDescriptor { id, dependency_ids }
    }

    /// Declares an input component.
    pub fn input(id: NodeId) -> (d: Self)
        ensures
            d.id == id,
            d.dependency_ids@ == Seq::<NodeId>::empty(),
    {
        ComponentDescriptor { id, dependency_ids: Vec::new() }
    }

    /// The kind that the declared dependencies give the component.
    pub open spec fn spec_kind(&self) -> NodeKind {
        kind_of(self.dependency_ids@.len())
    }

    /// Input when nothing is depended on, derived otherwise.
    #[verifier::when_used_as_spec(spec_kind)]
    pub fn kind(&self) -> (k: NodeKind)
        ensures
            k == self.spec_kind(),
    {
        if self.dependency_ids.len() == 0 {
            NodeKind::Input
        } else {
            NodeKind::Derived
        }
    }

    /// The descriptor declares no dependencies.
    pub open spec fn spec_is_input(&self) -> bool {
        self.dependency_ids@.len() == 0
    }

    /// A descriptor declares an input exactly when it names no dependency.
    #[verifier::when_used_as_spec(spec_is_input)]
    pub fn is_input(&self) -> (b: bool)
        ensures
            b == self.spec_is_input(),
    {
        self.dependency_ids.len() == 0
    }
}

/// One resolved component of a graph: its identity, the components it
/// depends on and the components that depend on it.
#[derive(Clone, Debug)]
pub struct Component {
    pub id: NodeId,
    pub dependencies: Vec<NodeId>,
    pub subscribers: Vec<NodeId>,
}

impl Component {
    /// A component without edges.
    pub fn new(id: NodeId) -> (c: Self)
        ensures
            c.id == id,
            c.dependencies@ == Seq::<NodeId>::empty(),
            c.subscribers@ == Seq::<NodeId>::empty(),
    {
        Component { id, dependencies: Vec::new(), subscribers: Vec::new() }
    }

    /// The component depends on nothing.
    pub open spec fn spec_is_input(&self) -> bool {
        self.dependencies@.len() == 0
    }

    /// A component is an input exactly when it depends on nothing.
    #[verifier::when_used_as_spec(spec_is_input)]
    pub fn is_input(&self) -> (b: bool)
        ensures
            b == self.spec_is_input(),
    {
        self.dependencies.len() == 0
    }

    /// The kind that the dependencies give the component.
    pub open spec fn spec_kind(&self) -> NodeKind {
        kind_of(self.dependencies@.len())
    }

    /// Input when nothing is depended on, derived otherwise.
    #[verifier::when_used_as_spec(spec_kind)]
    pub fn kind(&self) -> (k: NodeKind)
        ensures
            k == self.spec_kind(),
    {
        if self.dependencies.len() == 0 {
            NodeKind::Input
        } else {
            NodeKind::Derived
        }
    }

    /// Appends one dependency.
    pub fn add_dependency(&mut self, dependency: NodeId)
        ensures
            final(self).dependencies@ == old(self).dependencies@.push(dependency),
            final(self).subscribers == old(self).subscribers,
            final(self).id == old(self).id,
    {
        self.dependencies.push(dependency);
    }

    /// Appends one subscriber.
    pub fn add_subscriber(&mut self, subscriber: NodeId)
        ensures
            final(self).subscribers@ == old(self).subscribers@.push(subscriber),
            final(self).dependencies == old(self).dependencies,
            final(self).id == old(self).id,
    {
        self.subscribers.push(subscriber);
    }
}

} // verus!
