use salus::{build, ComponentDescriptor, ComponentGraph, GraphError, NodeId, NodeKind};

const A: NodeId = NodeId(1);
const B: NodeId = NodeId(2);
const C: NodeId = NodeId(3);
const D: NodeId = NodeId(4);

fn diamond() -> Vec<ComponentDescriptor> {
    vec![
        ComponentDescriptor::input(A),
        ComponentDescriptor::new(B, vec![A]),
        ComponentDescriptor::new(C, vec![A]),
        ComponentDescriptor::new(D, vec![B, C]),
    ]
}

#[test]
fn empty_set_builds_the_empty_graph() {
    let graph = build(&Vec::new()).unwrap();
    assert_eq!(graph.len(), 0);
    assert!(!graph.contains(A));
    assert_eq!(ComponentGraph::new().len(), 0);
}

#[test]
fn diamond_levels_follow_the_rule() {
    let graph = build(&diamond()).unwrap();
    assert_eq!(graph.len(), 4);
    assert_eq!(graph.topo_level(A), Some(0));
    assert_eq!(graph.topo_level(B), Some(1));
    assert_eq!(graph.topo_level(C), Some(1));
    assert_eq!(graph.topo_level(D), Some(2));
    assert_eq!(graph.topo_level(NodeId(9)), None);
}

#[test]
fn level_is_one_above_the_highest_dependency() {
    // E depends on the input A (level 0) and on D (level 2).
    let mut ds = diamond();
    ds.push(ComponentDescriptor::new(NodeId(5), vec![A, D]));
    let graph = build(&ds).unwrap();
    assert_eq!(graph.topo_level(NodeId(5)), Some(3));
}

#[test]
fn every_edge_climbs_a_level() {
    let ds = vec![
        ComponentDescriptor::new(NodeId(10), vec![NodeId(30), NodeId(20)]),
        ComponentDescriptor::new(NodeId(20), vec![NodeId(30)]),
        ComponentDescriptor::input(NodeId(30)),
        ComponentDescriptor::new(NodeId(40), vec![NodeId(10)]),
    ];
    let graph = build(&ds).unwrap();
    for d in ds.iter() {
        let level = graph.topo_level(d.id).unwrap();
        for dep in d.dependency_ids.iter() {
            assert!(graph.topo_level(*dep).unwrap() < level);
        }
    }
    assert_eq!(graph.topo_level(NodeId(30)), Some(0));
    assert_eq!(graph.topo_level(NodeId(20)), Some(1));
    assert_eq!(graph.topo_level(NodeId(10)), Some(2));
    assert_eq!(graph.topo_level(NodeId(40)), Some(3));
}

#[test]
fn subscribers_are_the_inverse_of_dependencies() {
    let graph = build(&diamond()).unwrap();
    let a = graph.component(A).unwrap();
    assert_eq!(a.id, A);
    assert!(a.is_input());
    assert_eq!(a.dependencies, Vec::<NodeId>::new());
    assert_eq!(a.subscribers, vec![B, C]);
    let d = graph.component(D).unwrap();
    assert!(!d.is_input());
    assert_eq!(d.dependencies, vec![B, C]);
    assert_eq!(d.subscribers, Vec::<NodeId>::new());
    assert_eq!(graph.component(B).unwrap().subscribers, vec![D]);
    assert!(graph.component(NodeId(9)).is_none());
}

#[test]
fn kinds_follow_the_dependencies() {
    let graph = build(&diamond()).unwrap();
    assert!(graph.is_input(A));
    assert!(!graph.is_input(D));
    assert!(!graph.is_input(NodeId(9)));
    assert_eq!(graph.kind(A), Some(NodeKind::Input));
    assert_eq!(graph.kind(D), Some(NodeKind::Derived));
    assert_eq!(graph.kind(NodeId(9)), None);
    assert_eq!(ComponentDescriptor::input(A).kind(), NodeKind::Input);
    assert_eq!(ComponentDescriptor::new(B, vec![A]).kind(), NodeKind::Derived);
    assert!(ComponentDescriptor::input(A).is_input());
    assert!(!ComponentDescriptor::new(B, vec![A]).is_input());
}

#[test]
fn positions_follow_the_declaration_order() {
    let graph = build(&diamond()).unwrap();
    assert_eq!(graph.index_of(A), Some(0));
    assert_eq!(graph.index_of(D), Some(3));
    assert_eq!(graph.index_of(NodeId(9)), None);
    assert_eq!(graph.id_at(2), C);
    assert_eq!(graph.dependencies_at(3), &vec![1, 2]);
    assert_eq!(graph.subscribers_at(0), &vec![1, 2]);
    assert_eq!(graph.level_at(3), 2);
}

#[test]
fn settling_order_goes_by_level_then_declaration() {
    let ds = vec![
        ComponentDescriptor::new(D, vec![B, C]),
        ComponentDescriptor::new(C, vec![A]),
        ComponentDescriptor::new(B, vec![A]),
        ComponentDescriptor::input(A),
    ];
    let graph = build(&ds).unwrap();
    assert_eq!(graph.settling_order(), &vec![3, 1, 2, 0]);
}

#[test]
fn unknown_dependency_names_both_endpoints() {
    let ds = vec![ComponentDescriptor::input(A), ComponentDescriptor::new(B, vec![A, NodeId(77)])];
    assert_eq!(
        build(&ds).err(),
        Some(GraphError::UnknownDependency { from: B, to: NodeId(77) })
    );
}

#[test]
fn first_unknown_dependency_is_reported() {
    let ds = vec![
        ComponentDescriptor::new(B, vec![A, NodeId(70), NodeId(71)]),
        ComponentDescriptor::new(A, vec![NodeId(72)]),
    ];
    assert_eq!(
        build(&ds).err(),
        Some(GraphError::UnknownDependency { from: B, to: NodeId(70) })
    );
}

#[test]
fn repeated_identity_is_rejected() {
    let ds = vec![
        ComponentDescriptor::input(A),
        ComponentDescriptor::input(B),
        ComponentDescriptor::new(A, vec![B]),
    ];
    assert_eq!(build(&ds).err(), Some(GraphError::DuplicateId(A)));
}

#[test]
fn repeated_dependency_is_rejected() {
    let ds = vec![ComponentDescriptor::input(A), ComponentDescriptor::new(B, vec![A, A])];
    assert_eq!(build(&ds).err(), Some(GraphError::DuplicateId(A)));
}

#[test]
fn self_dependency_is_a_cycle_of_one() {
    let ds = vec![ComponentDescriptor::new(A, vec![A])];
    assert_eq!(build(&ds).err(), Some(GraphError::Cycle(vec![A])));
}

#[test]
fn cycle_lists_its_members_in_traversal_order() {
    let ds = vec![
        ComponentDescriptor::input(D),
        ComponentDescriptor::new(A, vec![D, B]),
        ComponentDescriptor::new(B, vec![C]),
        ComponentDescriptor::new(C, vec![A]),
    ];
    assert_eq!(build(&ds).err(), Some(GraphError::Cycle(vec![A, B, C])));
}

#[test]
fn cycle_leaves_out_what_only_leads_into_it() {
    // A depends on B, and B and C depend on each other.
    let ds = vec![
        ComponentDescriptor::new(A, vec![B]),
        ComponentDescriptor::new(B, vec![C]),
        ComponentDescriptor::new(C, vec![B]),
    ];
    assert_eq!(build(&ds).err(), Some(GraphError::Cycle(vec![B, C])));
}

#[test]
fn cycle_never_returns_a_graph() {
    let ds = vec![ComponentDescriptor::new(A, vec![B]), ComponentDescriptor::new(B, vec![A])];
    let r = build(&ds);
    assert!(r.is_err());
    assert!(matches!(r, Err(GraphError::Cycle(_))));
}

#[test]
fn earlier_kinds_of_error_win() {
    // A repeated identity, an unknown dependency and a cycle at once.
    let ds = vec![
        ComponentDescriptor::new(A, vec![A]),
        ComponentDescriptor::new(B, vec![NodeId(99)]),
        ComponentDescriptor::input(B),
    ];
    assert_eq!(build(&ds).err(), Some(GraphError::DuplicateId(B)));
    // An unknown dependency and a cycle.
    let ds = vec![ComponentDescriptor::new(A, vec![A]), ComponentDescriptor::new(B, vec![NodeId(99)])];
    assert_eq!(
        build(&ds).err(),
        Some(GraphError::UnknownDependency { from: B, to: NodeId(99) })
    );
}

#[test]
fn from_fields_builds_the_same_graph() {
    let graph = ComponentGraph::from_fields(&diamond()).unwrap();
    assert_eq!(graph.topo_level(D), Some(2));
    assert_eq!(graph.component(A).unwrap().subscribers, vec![B, C]);
    let ds = vec![ComponentDescriptor::new(A, vec![B])];
    assert_eq!(
        ComponentGraph::from_fields(&ds).err(),
        Some(GraphError::UnknownDependency { from: A, to: B })
    );
}

#[test]
fn component_edges_are_appended() {
    let mut c = salus::Component::new(A);
    assert!(c.is_input());
    assert_eq!(c.kind(), NodeKind::Input);
    c.add_dependency(B);
    c.add_dependency(C);
    c.add_subscriber(D);
    assert!(!c.is_input());
    assert_eq!(c.kind(), NodeKind::Derived);
    assert_eq!(c.dependencies, vec![B, C]);
    assert_eq!(c.subscribers, vec![D]);
    assert_eq!(c.id, A);
}
