use salus::propagation::plan;
use salus::registry::Subscription;
use salus::resolve::{invert, resolve};
use salus::round::settlement_of;
use salus::schedule::schedule;
use salus::traversal::assign_levels;
use salus::validate::{find_repeated_dependency, find_repeated_id, position_of};
use salus::{
    build, deliver, find_route, gather, ComponentDescriptor, NodeId, PropagationRound, RouteKey,
    SubscriptionId, SubscriptionRegistry,
};

fn descriptors(spec: &[(u64, &[u64])]) -> Vec<ComponentDescriptor> {
    spec.iter()
        .map(|(id, deps)| ComponentDescriptor::new(NodeId(*id), deps.iter().map(|d| NodeId(*d)).collect()))
        .collect()
}

#[test]
fn first_repeated_identity_is_found() {
    assert_eq!(find_repeated_id(&descriptors(&[(1, &[]), (2, &[]), (3, &[])])), None);
    assert_eq!(find_repeated_id(&descriptors(&[(1, &[]), (2, &[]), (1, &[]), (2, &[])])), Some(2));
    assert_eq!(find_repeated_id(&Vec::new()), None);
}

#[test]
fn first_repeated_dependency_is_found() {
    assert_eq!(find_repeated_dependency(&descriptors(&[(1, &[2, 3]), (2, &[3, 1])])), None);
    assert_eq!(
        find_repeated_dependency(&descriptors(&[(1, &[2, 3]), (2, &[3, 1, 3, 1]), (3, &[9, 9])])),
        Some((1, 2))
    );
}

#[test]
fn identities_are_looked_up_by_position() {
    let ds = descriptors(&[(5, &[]), (7, &[]), (5, &[])]);
    assert_eq!(position_of(&ds, NodeId(7)), Some(1));
    assert_eq!(position_of(&ds, NodeId(5)), Some(0));
    assert_eq!(position_of(&ds, NodeId(6)), None);
}

#[test]
fn dependencies_resolve_to_positions() {
    let ds = descriptors(&[(10, &[30, 20]), (20, &[30]), (30, &[])]);
    assert_eq!(resolve(&ds), Ok(vec![vec![2, 1], vec![2], vec![]]));
    let ds = descriptors(&[(10, &[30]), (20, &[10, 40, 50]), (30, &[60])]);
    assert_eq!(resolve(&ds), Err((1, 1)));
}

#[test]
fn inverted_rows_list_subscribers_in_ascending_order() {
    let deps = vec![vec![2, 1], vec![2], vec![], vec![0, 2]];
    assert_eq!(invert(&deps), vec![vec![3], vec![0], vec![0, 1, 3], vec![]]);
    assert_eq!(invert(&Vec::new()), Vec::<Vec<usize>>::new());
}

#[test]
fn levels_are_one_above_the_highest_dependency() {
    let deps = vec![vec![2, 1], vec![2], vec![], vec![0, 2], vec![]];
    assert_eq!(assign_levels(&deps), Ok(vec![2, 1, 0, 3, 0]));
}

#[test]
fn traversal_returns_the_cycle_it_runs_into() {
    // 0 -> 1 -> 2 -> 3 -> 1
    let deps = vec![vec![1], vec![2], vec![3], vec![1]];
    assert_eq!(assign_levels(&deps), Err(vec![1, 2, 3]));
    assert_eq!(assign_levels(&vec![vec![], vec![1]]), Err(vec![1]));
}

#[test]
fn schedule_sorts_by_level_then_position() {
    assert_eq!(schedule(&vec![2, 1, 0, 3, 0, 1]), vec![2, 4, 1, 5, 0, 3]);
    assert_eq!(schedule(&Vec::new()), Vec::<usize>::new());
    assert_eq!(schedule(&vec![0, 0, 0]), vec![0, 1, 2]);
}

#[test]
fn plan_holds_what_the_origin_reaches_in_settling_order() {
    // 0 and 1 are inputs; 2 depends on 0; 3 on 1; 4 on 2 and 3; 5 on 4 and 0.
    let graph = build(&descriptors(&[
        (0, &[]),
        (1, &[]),
        (2, &[0]),
        (3, &[1]),
        (4, &[2, 3]),
        (5, &[4, 0]),
    ]))
    .unwrap();
    assert_eq!(plan(&graph, 0), vec![0, 2, 4, 5]);
    assert_eq!(plan(&graph, 1), vec![1, 3, 4, 5]);
    assert_eq!(plan(&graph, 4), vec![4, 5]);
    assert_eq!(plan(&graph, 5), vec![5]);
}

#[test]
fn round_is_driven_step_by_step() {
    let graph = build(&descriptors(&[(1, &[]), (2, &[1]), (3, &[2, 1])])).unwrap();
    assert!(PropagationRound::begin(&graph, NodeId(2)).is_none());
    assert!(PropagationRound::begin(&graph, NodeId(9)).is_none());
    let mut round = PropagationRound::begin(&graph, NodeId(1)).unwrap();
    let mut values: Vec<Option<i32>> = vec![None, Some(70), None];
    assert_eq!(round.len(), 3);
    assert_eq!(round.settled_count(), 0);
    assert_eq!(round.next(), Some(0));
    round.settle(&mut values, 5);
    assert_eq!(values, vec![Some(5), Some(70), None]);
    assert_eq!(round.next(), Some(1));
    round.settle(&mut values, 6);
    assert_eq!(round.next(), Some(2));
    assert_eq!(round.settled_count(), 2);
    assert_eq!(gather(&values, graph.dependencies_at(2)), vec![Some(&6), Some(&5)]);
    round.settle(&mut values, 11);
    assert_eq!(round.next(), None);
    assert_eq!(values, vec![Some(5), Some(6), Some(11)]);
}

#[test]
fn gather_borrows_the_listed_values() {
    let values = vec![Some(10), None, Some(30)];
    assert_eq!(gather(&values, &vec![2, 0, 1, 2]), vec![Some(&30), Some(&10), None, Some(&30)]);
    assert_eq!(gather(&values, &Vec::new()), Vec::<Option<&i32>>::new());
}

#[test]
fn deliver_calls_the_subscribers_of_the_node_only() {
    let callback = |node: NodeId, x: &i32| if *x > 0 && node.0 > 0 { Ok(()) } else { Err(*x) };
    let es = vec![
        Subscription { id: SubscriptionId(4), node: NodeId(1), callback },
        Subscription { id: SubscriptionId(5), node: NodeId(2), callback },
        Subscription { id: SubscriptionId(6), node: NodeId(1), callback },
    ];
    let ds = deliver(&es, NodeId(1), &-3);
    assert_eq!(ds.len(), 2);
    assert_eq!((ds[0].subscription, ds[0].outcome), (SubscriptionId(4), Err(-3)));
    assert_eq!((ds[1].subscription, ds[1].outcome), (SubscriptionId(6), Err(-3)));
    let ds = deliver(&es, NodeId(2), &3);
    assert_eq!(ds.len(), 1);
    assert_eq!((ds[0].subscription, ds[0].outcome), (SubscriptionId(5), Ok(())));
    assert!(deliver(&es, NodeId(3), &3).is_empty());
}

#[test]
fn settlement_names_the_node_and_its_deliveries() {
    let mut registry = SubscriptionRegistry::new();
    let s = registry.subscribe(NodeId(8), |_n: NodeId, x: &u8| if *x == 1 { Ok(()) } else { Err(()) });
    let values = vec![None, Some(1u8)];
    let entry = settlement_of(&registry, NodeId(8), &values, 1);
    assert_eq!(entry.node, NodeId(8));
    assert_eq!(entry.deliveries.len(), 1);
    assert_eq!(entry.deliveries[0].subscription, s);
    assert_eq!(entry.deliveries[0].outcome, Ok(()));
}

#[test]
fn first_matching_route_answers() {
    let keys = vec![
        RouteKey::new("/".to_string(), "GET".to_string()),
        RouteKey::new("/users".to_string(), "GET".to_string()),
        RouteKey::new("/users".to_string(), "POST".to_string()),
        RouteKey::new("/users".to_string(), "GET".to_string()),
    ];
    assert_eq!(find_route(&keys, &"/users".to_string(), &"GET".to_string()), Some(1));
    assert_eq!(find_route(&keys, &"/users".to_string(), &"POST".to_string()), Some(2));
    assert_eq!(find_route(&keys, &"/".to_string(), &"POST".to_string()), None);
    assert_eq!(find_route(&keys, &"/user".to_string(), &"GET".to_string()), None);
    assert_eq!(find_route(&Vec::new(), &"/".to_string(), &"GET".to_string()), None);
}

#[test]
fn batches_follow_the_levels() {
    // 1 is the input; 2 and 3 depend on it; 4 depends on 2 and 3; 5 on 1.
    let graph = build(&descriptors(&[(1, &[]), (2, &[1]), (3, &[1]), (4, &[2, 3]), (5, &[1])])).unwrap();
    let mut round = PropagationRound::begin(&graph, NodeId(1)).unwrap();
    let mut values: Vec<Option<u8>> = vec![None; 5];
    assert_eq!(round.batch(&graph), vec![0]);
    round.settle(&mut values, 1);
    assert_eq!(round.batch(&graph), vec![1, 2, 4]);
    round.settle(&mut values, 2);
    assert_eq!(round.batch(&graph), vec![2, 4]);
    round.settle(&mut values, 3);
    round.settle(&mut values, 5);
    assert_eq!(round.batch(&graph), vec![3]);
    round.settle(&mut values, 4);
    assert_eq!(round.batch(&graph), Vec::<usize>::new());
    assert_eq!(values, vec![Some(1), Some(2), Some(3), Some(4), Some(5)]);
}
