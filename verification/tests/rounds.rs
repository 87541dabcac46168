use salus::{
    build, notify, ComponentDescriptor, ComponentGraph, Delivery, NodeId, PropagationEngine,
    PropagationError, Settlement, SubscriptionRegistry,
};
use std::cell::RefCell;
use std::rc::Rc;

const A: NodeId = NodeId(1);
const B: NodeId = NodeId(2);
const C: NodeId = NodeId(3);
const D: NodeId = NodeId(4);
const E: NodeId = NodeId(5);
const F: NodeId = NodeId(6);
const X: NodeId = NodeId(7);

type Callback = Box<dyn Fn(NodeId, &i64) -> Result<(), String>>;

type Calls = Rc<RefCell<Vec<(NodeId, Vec<Option<i64>>)>>>;

type Heard = Rc<RefCell<Vec<(u32, NodeId, i64)>>>;

fn diamond() -> ComponentGraph {
    build(&vec![
        ComponentDescriptor::input(A),
        ComponentDescriptor::new(B, vec![A]),
        ComponentDescriptor::new(C, vec![A]),
        ComponentDescriptor::new(D, vec![B, C]),
    ])
    .unwrap()
}

/// B is its input plus 1, C is its input times 2, everything else is the
/// sum of what its dependencies hold; `failing` fails.
fn summing(
    calls: Calls,
    failing: Option<NodeId>,
) -> impl Fn(NodeId, Vec<Option<&i64>>) -> Result<i64, String> {
    move |node: NodeId, inputs: Vec<Option<&i64>>| {
        calls.borrow_mut().push((node, inputs.iter().map(|i| i.map(|x| *x)).collect()));
        if Some(node) == failing {
            return Err(format!("node {} is out of order", node.0));
        }
        let sum: i64 = inputs.iter().map(|i| i.map(|x| *x).unwrap_or(0)).sum();
        Ok(if node == B {
            sum + 1
        } else if node == C {
            sum * 2
        } else {
            sum
        })
    }
}

fn listener(tag: u32, heard: Heard) -> Callback {
    Box::new(move |node: NodeId, x: &i64| {
        heard.borrow_mut().push((tag, node, *x));
        Ok(())
    })
}

fn settled_nodes(report: &salus::RoundReport<String>) -> Vec<NodeId> {
    report.settled.iter().map(|s| s.node).collect()
}

#[test]
fn diamond_computes_the_join_once_with_both_branches_settled() {
    let calls: Calls = Rc::new(RefCell::new(Vec::new()));
    let mut engine: PropagationEngine<i64, _, Callback> =
        PropagationEngine::new(diamond(), summing(calls.clone(), None));
    let report = engine.update(A, 10).unwrap();
    assert_eq!(settled_nodes(&report), vec![A, B, C, D]);
    let calls = calls.borrow();
    let of_d: Vec<_> = calls.iter().filter(|c| c.0 == D).collect();
    assert_eq!(of_d.len(), 1);
    assert_eq!(of_d[0].1, vec![Some(11), Some(20)]);
    assert_eq!(
        *calls,
        vec![
            (B, vec![Some(10)]),
            (C, vec![Some(10)]),
            (D, vec![Some(11), Some(20)]),
        ]
    );
}

#[test]
fn fan_out_fires_every_callback_once() {
    let graph = build(&vec![
        ComponentDescriptor::input(A),
        ComponentDescriptor::new(B, vec![A]),
        ComponentDescriptor::new(C, vec![A]),
        ComponentDescriptor::new(D, vec![A]),
    ])
    .unwrap();
    let calls: Calls = Rc::new(RefCell::new(Vec::new()));
    let heard: Heard = Rc::new(RefCell::new(Vec::new()));
    let mut engine: PropagationEngine<i64, _, Callback> =
        PropagationEngine::new(graph, summing(calls, None));
    let sb = engine.subscribe(B, listener(1, heard.clone()));
    let sc = engine.subscribe(C, listener(2, heard.clone()));
    let sd = engine.subscribe(D, listener(3, heard.clone()));
    let report = engine.update(A, 5).unwrap();
    assert_eq!(settled_nodes(&report), vec![A, B, C, D]);
    assert_eq!(*heard.borrow(), vec![(1, B, 6), (2, C, 10), (3, D, 5)]);
    assert_eq!(report.settled[0].deliveries.len(), 0);
    for (i, s) in [sb, sc, sd].iter().enumerate() {
        assert_eq!(report.settled[i + 1].deliveries.len(), 1);
        assert_eq!(report.settled[i + 1].deliveries[0].subscription, *s);
        assert_eq!(report.settled[i + 1].deliveries[0].outcome, Ok(()));
    }
}

#[test]
fn identical_updates_settle_on_identical_values() {
    let run = || {
        let heard: Heard = Rc::new(RefCell::new(Vec::new()));
        let calls: Calls = Rc::new(RefCell::new(Vec::new()));
        let mut engine: PropagationEngine<i64, _, Callback> =
            PropagationEngine::new(diamond(), summing(calls, None));
        for n in [A, B, C, D] {
            engine.subscribe(n, listener(0, heard.clone()));
        }
        for v in [3, -4, 3, 100] {
            engine.update(A, v).unwrap();
        }
        let heard = heard.borrow().clone();
        heard
    };
    let first = run();
    assert_eq!(first, run());
    assert_eq!(first.len(), 16);
    assert_eq!(&first[12..], &[(0, A, 100), (0, B, 101), (0, C, 200), (0, D, 301)]);
}

#[test]
fn update_of_a_derived_or_unknown_component_is_refused() {
    let calls: Calls = Rc::new(RefCell::new(Vec::new()));
    let heard: Heard = Rc::new(RefCell::new(Vec::new()));
    let mut engine: PropagationEngine<i64, _, Callback> =
        PropagationEngine::new(diamond(), summing(calls.clone(), None));
    engine.subscribe(D, listener(0, heard.clone()));
    assert_eq!(engine.update(D, 1).err(), Some(PropagationError::NotAnInput(D)));
    assert_eq!(engine.update(NodeId(99), 1).err(), Some(PropagationError::NotAnInput(NodeId(99))));
    assert!(calls.borrow().is_empty());
    assert!(heard.borrow().is_empty());
}

/// A feeds B and D; E depends on B, F on D; all of B, D sit at level 1.
fn two_branches() -> ComponentGraph {
    build(&vec![
        ComponentDescriptor::input(A),
        ComponentDescriptor::new(E, vec![A]),
        ComponentDescriptor::new(D, vec![A]),
        ComponentDescriptor::new(F, vec![D]),
        ComponentDescriptor::new(C, vec![E]),
    ])
    .unwrap()
}

#[test]
fn failure_keeps_what_settled_and_skips_what_depends_on_it() {
    let calls: Calls = Rc::new(RefCell::new(Vec::new()));
    let heard: Heard = Rc::new(RefCell::new(Vec::new()));
    let mut engine: PropagationEngine<i64, _, Callback> =
        PropagationEngine::new(two_branches(), summing(calls.clone(), Some(D)));
    for n in [A, E, D, F, C] {
        engine.subscribe(n, listener(0, heard.clone()));
    }
    match engine.update(A, 7) {
        Err(PropagationError::NodeComputationFailed { node, cause, settled }) => {
            assert_eq!(node, D);
            assert_eq!(cause, "node 4 is out of order");
            let names: Vec<NodeId> = settled.iter().map(|s| s.node).collect();
            assert_eq!(names, vec![A, E]);
        }
        other => panic!("the round should have stopped at D: {:?}", other),
    }
    // E, a sibling of D that came first, has settled; F was never invoked,
    // nor was anything else of a later level.
    assert_eq!(*calls.borrow(), vec![(E, vec![Some(7)]), (D, vec![Some(7)])]);
    assert_eq!(*heard.borrow(), vec![(0, A, 7), (0, E, 7)]);
}

#[test]
fn values_settled_before_a_failure_feed_the_next_round() {
    let graph = build(&vec![
        ComponentDescriptor::input(A),
        ComponentDescriptor::input(X),
        ComponentDescriptor::new(B, vec![A]),
        ComponentDescriptor::new(D, vec![A]),
        ComponentDescriptor::new(F, vec![B, X]),
    ])
    .unwrap();
    let calls: Calls = Rc::new(RefCell::new(Vec::new()));
    let mut engine: PropagationEngine<i64, _, Callback> =
        PropagationEngine::new(graph, summing(calls.clone(), Some(D)));
    assert!(engine.update(A, 7).is_err());
    // B settled on 8 before D failed; F was never computed.
    assert_eq!(*calls.borrow(), vec![(B, vec![Some(7)]), (D, vec![Some(7)])]);
    calls.borrow_mut().clear();
    let report = engine.update(X, 1).unwrap();
    assert_eq!(settled_nodes(&report), vec![X, F]);
    assert_eq!(*calls.borrow(), vec![(F, vec![Some(8), Some(1)])]);
}

#[test]
fn dependency_that_never_settled_has_no_value() {
    let graph = build(&vec![
        ComponentDescriptor::input(A),
        ComponentDescriptor::input(X),
        ComponentDescriptor::new(D, vec![X, A]),
    ])
    .unwrap();
    let calls: Calls = Rc::new(RefCell::new(Vec::new()));
    let mut engine: PropagationEngine<i64, _, Callback> =
        PropagationEngine::new(graph, summing(calls.clone(), None));
    let report = engine.update(A, 4).unwrap();
    assert_eq!(settled_nodes(&report), vec![A, D]);
    engine.update(X, 6).unwrap();
    assert_eq!(
        *calls.borrow(),
        vec![(D, vec![None, Some(4)]), (D, vec![Some(6), Some(4)])]
    );
}

#[test]
fn round_touches_only_what_the_origin_reaches() {
    let graph = build(&vec![
        ComponentDescriptor::input(A),
        ComponentDescriptor::input(X),
        ComponentDescriptor::new(B, vec![A]),
        ComponentDescriptor::new(C, vec![X]),
    ])
    .unwrap();
    let calls: Calls = Rc::new(RefCell::new(Vec::new()));
    let heard: Heard = Rc::new(RefCell::new(Vec::new()));
    let mut engine: PropagationEngine<i64, _, Callback> =
        PropagationEngine::new(graph, summing(calls.clone(), None));
    for n in [A, X, B, C] {
        engine.subscribe(n, listener(0, heard.clone()));
    }
    let report = engine.update(X, 2).unwrap();
    assert_eq!(settled_nodes(&report), vec![X, C]);
    assert_eq!(*heard.borrow(), vec![(0, X, 2), (0, C, 4)]);
}

#[test]
fn levels_decide_the_order_not_the_declaration() {
    let graph = build(&vec![
        ComponentDescriptor::new(D, vec![C, A]),
        ComponentDescriptor::new(C, vec![B]),
        ComponentDescriptor::new(B, vec![A]),
        ComponentDescriptor::input(A),
    ])
    .unwrap();
    let calls: Calls = Rc::new(RefCell::new(Vec::new()));
    let mut engine: PropagationEngine<i64, _, Callback> =
        PropagationEngine::new(graph, summing(calls.clone(), None));
    let report = engine.update(A, 1).unwrap();
    assert_eq!(settled_nodes(&report), vec![A, B, C, D]);
    assert_eq!(
        *calls.borrow(),
        vec![(B, vec![Some(1)]), (C, vec![Some(2)]), (D, vec![Some(4), Some(1)])]
    );
}

#[test]
fn callbacks_fire_in_registration_order_after_settlement() {
    let calls: Calls = Rc::new(RefCell::new(Vec::new()));
    let heard: Heard = Rc::new(RefCell::new(Vec::new()));
    let mut engine: PropagationEngine<i64, _, Callback> =
        PropagationEngine::new(diamond(), summing(calls, None));
    engine.subscribe(D, listener(1, heard.clone()));
    engine.subscribe(B, listener(2, heard.clone()));
    engine.subscribe(D, listener(3, heard.clone()));
    engine.update(A, 1).unwrap();
    assert_eq!(*heard.borrow(), vec![(2, B, 2), (1, D, 4), (3, D, 4)]);
}

#[test]
fn callback_failure_is_reported_and_changes_nothing() {
    let calls: Calls = Rc::new(RefCell::new(Vec::new()));
    let heard: Heard = Rc::new(RefCell::new(Vec::new()));
    let mut engine: PropagationEngine<i64, _, Callback> =
        PropagationEngine::new(diamond(), summing(calls.clone(), None));
    let bad = engine.subscribe(B, Box::new(|_n: NodeId, _x: &i64| Err("deaf".to_string())));
    let good = engine.subscribe(B, listener(1, heard.clone()));
    let report = engine.update(A, 1).unwrap();
    assert_eq!(settled_nodes(&report), vec![A, B, C, D]);
    let of_b = &report.settled[1];
    assert_eq!(of_b.node, B);
    assert_eq!(of_b.deliveries.len(), 2);
    assert_eq!(of_b.deliveries[0].subscription, bad);
    assert_eq!(of_b.deliveries[0].outcome, Err("deaf".to_string()));
    assert_eq!(of_b.deliveries[1].subscription, good);
    assert_eq!(of_b.deliveries[1].outcome, Ok(()));
    assert_eq!(*heard.borrow(), vec![(1, B, 2)]);
    assert_eq!(calls.borrow().last().unwrap(), &(D, vec![Some(2), Some(2)]));
}

#[test]
fn unsubscribe_is_idempotent() {
    let calls: Calls = Rc::new(RefCell::new(Vec::new()));
    let heard: Heard = Rc::new(RefCell::new(Vec::new()));
    let mut engine: PropagationEngine<i64, _, Callback> =
        PropagationEngine::new(diamond(), summing(calls, None));
    let first = engine.subscribe(B, listener(1, heard.clone()));
    let second = engine.subscribe(B, listener(2, heard.clone()));
    assert!(engine.unsubscribe(first));
    assert!(!engine.unsubscribe(first));
    assert!(!engine.unsubscribe(salus::SubscriptionId(55)));
    engine.update(A, 1).unwrap();
    assert_eq!(*heard.borrow(), vec![(2, B, 2)]);
    assert!(engine.unsubscribe(second));
    engine.update(A, 2).unwrap();
    assert_eq!(heard.borrow().len(), 1);
}

#[test]
fn registry_keeps_registration_order() {
    let mut registry: SubscriptionRegistry<u8> = SubscriptionRegistry::new();
    assert_eq!(registry.len(), 0);
    let a = registry.subscribe(A, 10);
    let b = registry.subscribe(B, 20);
    let c = registry.subscribe(A, 30);
    assert_eq!((a.0, b.0, c.0), (0, 1, 2));
    assert!(registry.unsubscribe(b));
    assert!(!registry.unsubscribe(b));
    let left: Vec<(u64, NodeId, u8)> =
        registry.entries().iter().map(|e| (e.id.0, e.node, e.callback)).collect();
    assert_eq!(left, vec![(0, A, 10), (2, A, 30)]);
    let d = registry.subscribe(C, 40);
    assert_eq!(d.0, 3);
    assert_eq!(registry.len(), 3);
}

#[test]
fn notify_works_on_values_the_caller_holds() {
    let graph = diamond();
    let calls: Calls = Rc::new(RefCell::new(Vec::new()));
    let compute = summing(calls, None);
    let registry: SubscriptionRegistry<Callback> = SubscriptionRegistry::new();
    let mut values: Vec<Option<i64>> = vec![None, None, None, None];
    let report = notify(&graph, &compute, &registry, &mut values, A, 10).unwrap();
    assert_eq!(settled_nodes(&report), vec![A, B, C, D]);
    assert_eq!(values, vec![Some(10), Some(11), Some(20), Some(31)]);
    let r = notify(&graph, &compute, &registry, &mut values, B, 0);
    assert_eq!(r.err(), Some(PropagationError::NotAnInput(B)));
    assert_eq!(values, vec![Some(10), Some(11), Some(20), Some(31)]);
}

#[test]
fn engine_hands_out_its_graph() {
    let calls: Calls = Rc::new(RefCell::new(Vec::new()));
    let engine: PropagationEngine<i64, _, Callback> =
        PropagationEngine::new(diamond(), summing(calls, None));
    assert_eq!(engine.component_graph().topo_level(D), Some(2));
}

#[test]
fn replaying_an_update_changes_nothing() {
    let graph = diamond();
    let calls: Calls = Rc::new(RefCell::new(Vec::new()));
    let compute = summing(calls, None);
    let registry: SubscriptionRegistry<Callback> = SubscriptionRegistry::new();
    let mut values: Vec<Option<i64>> = vec![None, Some(1), None, Some(1)];
    notify(&graph, &compute, &registry, &mut values, A, 3).unwrap();
    let first = values.clone();
    assert_eq!(first, vec![Some(3), Some(4), Some(6), Some(10)]);
    notify(&graph, &compute, &registry, &mut values, A, 3).unwrap();
    assert_eq!(values, first);
}

#[test]
fn failing_rounds_are_deterministic_too() {
    let run = || {
        let calls: Calls = Rc::new(RefCell::new(Vec::new()));
        let compute = summing(calls.clone(), Some(C));
        let registry: SubscriptionRegistry<Callback> = SubscriptionRegistry::new();
        let mut values: Vec<Option<i64>> = vec![None, None, Some(9), Some(9)];
        let r = notify(&diamond(), &compute, &registry, &mut values, A, 2);
        let calls = calls.borrow().clone();
        (r, values, calls)
    };
    let (r, values, calls) = run();
    assert_eq!(
        r,
        Err(PropagationError::NodeComputationFailed {
            node: C,
            cause: "node 3 is out of order".to_string(),
            settled: vec![
                Settlement { node: A, deliveries: vec![] },
                Settlement { node: B, deliveries: vec![] },
            ],
        })
    );
    // A and B hold their new values; C, which failed, and D, which depends
    // on it, hold what they held before.
    assert_eq!(values, vec![Some(2), Some(3), Some(9), Some(9)]);
    assert_eq!(calls, vec![(B, vec![Some(2)]), (C, vec![Some(2)])]);
    assert_eq!(run(), (r, values, calls));
}

#[test]
fn deliveries_made_before_a_failure_are_still_reported() {
    let calls: Calls = Rc::new(RefCell::new(Vec::new()));
    let heard: Heard = Rc::new(RefCell::new(Vec::new()));
    let mut engine: PropagationEngine<i64, _, Callback> =
        PropagationEngine::new(diamond(), summing(calls, Some(D)));
    let deaf = engine.subscribe(B, Box::new(|_n: NodeId, _x: &i64| Err("deaf".to_string())));
    let fine = engine.subscribe(C, listener(1, heard.clone()));
    let never = engine.subscribe(D, listener(2, heard.clone()));
    assert_eq!(never.0, 2);
    let r = engine.update(A, 1);
    assert_eq!(
        r,
        Err(PropagationError::NodeComputationFailed {
            node: D,
            cause: "node 4 is out of order".to_string(),
            settled: vec![
                Settlement { node: A, deliveries: vec![] },
                Settlement {
                    node: B,
                    deliveries: vec![Delivery { subscription: deaf, outcome: Err("deaf".to_string()) }],
                },
                Settlement {
                    node: C,
                    deliveries: vec![Delivery { subscription: fine, outcome: Ok(()) }],
                },
            ],
        })
    );
    assert_eq!(*heard.borrow(), vec![(1, C, 2)]);
}
