//! Which components a change of an input reaches, and in what order they
//! settle.

use vstd::prelude::*;
use crate::graph::{ints, precedes, ComponentGraph, GraphView};

verus! {

/// A chain of subscriber edges: every member is a component of the graph
/// and subscribes to the member before it.
pub open spec fn is_flow(v: GraphView, p: Seq<int>) -> bool {
    &&& p.len() > 0
    &&& forall|i: int| 0 <= i < p.len() ==> v.is_node(#[trigger] p[i])
    &&& forall|i: int| 0 <= i < p.len() - 1 ==> v.subs[#[trigger] p[i]].contains(p[i + 1])
}

/// Component `b` is `a` itself or lies downstream of it.
pub open spec fn reaches(v: GraphView, a: int, b: int) -> bool {
    exists|p: Seq<int>| #[trigger] is_flow(v, p) && p[0] == a && p[p.len() - 1] == b
}

/// `plan` is the settling plan of a round that starts at `origin`: it
/// holds exactly the components that `origin` reaches, each once, by
/// ascending level and, within a level, in declaration order.
pub open spec fn is_plan(v: GraphView, origin: int, plan: Seq<int>) -> bool {
    &&& forall|k: int| #[trigger] plan.contains(k) <==> reaches(v, origin, k)
    &&& forall|s: int, t: int|
        0 <= s < t < plan.len() ==> precedes(v.levels, #[trigger] plan[s], #[trigger] plan[t])
}

/// Every component reaches itself.
pub proof fn lemma_reaches_itself(v: GraphView, a: int)
    requires
        v.is_node(a),
    ensures
        reaches(v, a, a),
{
    let p = seq![a];
    assert(is_flow(v, p) && p[0] == a && p[p.len() - 1] == a);
}

/// What reaches a component reaches its subscribers too.
pub proof fn lemma_reaches_onward(v: GraphView, a: int, b: int, c: int)
    requires
        reaches(v, a, b),
        v.is_node(c),
        v.subs[b].contains(c),
    ensures
        reaches(v, a, c),
{
    let p = choose|p: Seq<int>| #[trigger] is_flow(v, p) && p[0] == a && p[p.len() - 1] == b;
    let q = p.push(c);
    assert(is_flow(v, q) && q[0] == a && q[q.len() - 1] == c);
}

/// Whatever is reached, but for the start itself, is reached through one
/// of its dependencies.
pub proof fn lemma_reaches_through(v: GraphView, a: int, c: int) -> (b: int)
    requires
        reaches(v, a, c),
        a != c,
    ensures
        reaches(v, a, b),
        v.is_node(b),
        v.is_node(c),
        v.subs[b].contains(c),
{
    let p = choose|p: Seq<int>| #[trigger] is_flow(v, p) && p[0] == a && p[p.len() - 1] == c;
    let q = p.drop_last();
    let b = p[p.len() - 2];
    assert(is_flow(v, q) && q[0] == a && q[q.len() - 1] == b);
    b
}

/// A component of lower level stands earlier in the settling order.
pub proof fn lemma_scheduled_before(v: GraphView, d: int, t: int) -> (s: int)
    requires
        v.wf(),
        v.is_node(d),
        0 <= t < v.order.len(),
        v.levels[d] < v.levels[v.order[t]],
    ensures
        0 <= s < t,
        v.order[s] == d,
{
    assert(v.order.contains(d));
    let s = choose|s: int| 0 <= s < v.order.len() && v.order[s] == d;
    s
}

/// What the pass over the settling order knows after `t` steps: the flags
/// of the components passed tell whether the origin reaches them, and no
/// other flag is set.
pub open spec fn flagged(v: GraphView, origin: int, flags: Seq<bool>, t: int) -> bool {
    &&& flags.len() == v.ids.len()
    &&& forall|s: int|
        0 <= s < t ==> (flags[#[trigger] v.order[s]] <==> reaches(v, origin, v.order[s]))
    &&& forall|k: int|
        0 <= k < flags.len() && #[trigger] flags[k] ==> exists|s: int|
            0 <= s < t && #[trigger] v.order[s] == k
}

/// The component at step `t` is reached exactly when it is the origin or
/// one of its dependencies carries a flag.
proof fn lemma_flag(v: GraphView, origin: int, flags: Seq<bool>, t: int)
    requires
        v.wf(),
        v.is_node(origin),
        0 <= t < v.order.len(),
        flagged(v, origin, flags, t),
    ensures
        reaches(v, origin, v.order[t]) <==> (v.order[t] == origin || exists|c: int|
            0 <= c < v.deps[v.order[t]].len() && flags[#[trigger] v.deps[v.order[t]][c]]),
        !flags[v.order[t]],
{
    let k = v.order[t];
    if reaches(v, origin, k) && k != origin {
        let q = lemma_reaches_through(v, origin, k);
        assert(v.deps[k].contains(q));
        assert(v.level_rule(k));
        let s = lemma_scheduled_before(v, q, t);
    }
    if k == origin {
        lemma_reaches_itself(v, origin);
    }
    if exists|c: int| 0 <= c < v.deps[k].len() && flags[#[trigger] v.deps[k][c]] {
        let c = choose|c: int| 0 <= c < v.deps[k].len() && flags[#[trigger] v.deps[k][c]];
        let d = v.deps[k][c];
        assert(v.deps[k].contains(d));
        lemma_reaches_onward(v, origin, d, k);
    }
}

/// The components that a change of `origin` reaches, in settling order.
pub fn plan(graph: &ComponentGraph, origin: usize) -> (r: Vec<usize>)
    requires
        graph.wf(),
        graph@.is_node(origin as int),
    ensures
        is_plan(graph@, origin as int, ints(r@)),
        forall|i: int| 0 <= i < r@.len() ==> graph@.is_node(#[trigger] r@[i] as int),
{
    let n = graph.len();
    let order = graph.settling_order();
    let mut flags: Vec<bool> = Vec::new();
    let mut i: usize = 0;
    while i < n
        invariant
            i <= n,
            flags@.len() == i,
            forall|j: int| 0 <= j < i ==> !#[trigger] flags@[j],
        decreases n - i,
    {
        flags.push(false);
        i = i + 1;
    }
    let mut out: Vec<usize> = Vec::new();
    let mut t: usize = 0;
    while t < order.len()
        invariant
            graph.wf(),
            graph@.is_node(origin as int),
            n == graph@.len(),
            ints(order@) == graph@.order,
            t <= order@.len(),
            flagged(graph@, origin as int, flags@, t as int),
            forall|k: int| 0 <= k < n ==> (#[trigger] ints(out@).contains(k) <==> flags@[k]),
            forall|i: int| 0 <= i < out@.len() ==> 0 <= #[trigger] ints(out@)[i] < n,
            forall|a: int, b: int|
                0 <= a < b < out@.len() ==> precedes(
                    graph@.levels,
                    #[trigger] ints(out@)[a],
                    #[trigger] ints(out@)[b],
                ),
        decreases order@.len() - t,
    {
        let k = order[t];
        assert(graph@.order[t as int] == k as int);
        let deps = graph.dependencies_at(k);
        let mut hit = k == origin;
        let mut b: usize = 0;
        while b < deps.len()
            invariant
                b <= deps@.len(),
                deps@.len() == graph@.deps[k as int].len(),
                flags@.len() == n,
                n == graph@.len(),
                graph.wf(),
                graph@.is_node(k as int),
                forall|c: int|
                    0 <= c < deps@.len() ==> (#[trigger] deps@[c]) as int == graph@.deps[k as int][c],
                hit <==> (k == origin || exists|c: int|
                    0 <= c < b && flags@[#[trigger] graph@.deps[k as int][c]]),
            decreases deps@.len() - b,
        {
            let d = deps[b];
            if flags[d] {
                hit = true;
            }
            b = b + 1;
        }
        proof {
            lemma_flag(graph@, origin as int, flags@, t as int);
        }
        if hit {
            let ghost before = ints(out@);
            flags.set(k, true);
            out.push(k);
            proof {
                let after = ints(out@);
                assert(after =~= before.push(k as int));
                assert forall|j: int| 0 <= j < n implies (#[trigger] after.contains(j)
                    <==> flags@[j]) by {
                    if before.contains(j) {
                        let i = choose|i: int| 0 <= i < before.len() && before[i] == j;
                        assert(after[i] == j);
                    }
                    if j == k {
                        assert(after[before.len() as int] == j);
                    }
                }
                assert forall|a: int, b: int| 0 <= a < b < after.len() implies precedes(
                    graph@.levels,
                    #[trigger] after[a],
                    #[trigger] after[b],
                ) by {
                    if b >= before.len() {
                        let j = before[a];
                        assert(before.contains(j));
                    }
                }
            }
        }
        t = t + 1;
    }
    proof {
        let v = graph@;
        let r = ints(out@);
        assert forall|k: int| #[trigger] r.contains(k) <==> reaches(v, origin as int, k) by {
            if reaches(v, origin as int, k) {
                assert(v.order.contains(k));
            }
        }
        assert forall|i: int| 0 <= i < out@.len() implies graph@.is_node(
            #[trigger] out@[i] as int,
        ) by {
            assert(0 <= r[i] < n);
        }
    }
    out
}

/// The settling plan of a round that starts at `origin`.
pub open spec fn settling_plan(v: GraphView, origin: int) -> Seq<int> {
    choose|p: Seq<int>| is_plan(v, origin, p)
}

/// Two plans of one round agree up to any position that both have.
proof fn lemma_plans_agree(v: GraphView, origin: int, p: Seq<int>, q: Seq<int>, i: int)
    requires
        is_plan(v, origin, p),
        is_plan(v, origin, q),
        0 <= i <= p.len(),
        i <= q.len(),
    ensures
        forall|j: int| 0 <= j < i ==> p[j] == q[j],
    decreases i,
{
    if i > 0 {
        lemma_plans_agree(v, origin, p, q, i - 1);
        let a = p[i - 1];
        let b = q[i - 1];
        assert(p.contains(a));
        assert(q.contains(a));
        assert(q.contains(b));
        assert(p.contains(b));
    }
}

/// A round has one plan only.
pub proof fn lemma_plan_unique(v: GraphView, origin: int, p: Seq<int>, q: Seq<int>)
    requires
        is_plan(v, origin, p),
        is_plan(v, origin, q),
    ensures
        p == q,
{
    if p.len() <= q.len() {
        lemma_plans_agree(v, origin, p, q, p.len() as int);
        if p.len() < q.len() {
            let a = q[p.len() as int];
            assert(q.contains(a));
            assert(p.contains(a));
        }
    } else {
        lemma_plans_agree(v, origin, p, q, q.len() as int);
        let a = p[q.len() as int];
        assert(p.contains(a));
        assert(q.contains(a));
    }
}

/// Every member of a plan is a component of the graph.
pub proof fn lemma_plan_members(v: GraphView, origin: int, p: Seq<int>, i: int)
    requires
        is_plan(v, origin, p),
        0 <= i < p.len(),
    ensures
        v.is_node(p[i]),
        reaches(v, origin, p[i]),
{
    assert(p.contains(p[i]));
}

/// No dependency of a member of the plan settles at the same position or
/// later.
pub proof fn lemma_dependencies_earlier(v: GraphView, origin: int, p: Seq<int>, i: int, j: int, c: int)
    requires
        v.wf(),
        is_plan(v, origin, p),
        0 <= i <= j < p.len(),
        0 <= c < v.deps[p[i]].len(),
    ensures
        v.deps[p[i]][c] != p[j],
{
    lemma_plan_members(v, origin, p, i);
    assert(v.level_rule(p[i]));
}

/// Along a chain of subscriber edges the level rises with every step.
proof fn lemma_flow_climbs(v: GraphView, p: Seq<int>, i: int)
    requires
        v.wf(),
        is_flow(v, p),
        0 <= i < p.len(),
    ensures
        v.levels[p[0]] + i <= v.levels[p[i]],
    decreases i,
{
    if i > 0 {
        lemma_flow_climbs(v, p, i - 1);
        let a = p[i - 1];
        let b = p[i];
        assert(v.deps[b].contains(a));
        assert(v.level_rule(b));
    }
}

/// Whatever lies downstream of a component sits at a higher level.
pub proof fn law_downstream_is_higher(v: GraphView, a: int, b: int)
    requires
        v.wf(),
        reaches(v, a, b),
        a != b,
    ensures
        v.levels[a] < v.levels[b],
{
    let p = choose|p: Seq<int>| #[trigger] is_flow(v, p) && p[0] == a && p[p.len() - 1] == b;
    lemma_flow_climbs(v, p, p.len() - 1);
}

/// A round that starts at an input settles the input first.
pub proof fn law_origin_settles_first(v: GraphView, origin: int, p: Seq<int>)
    requires
        v.wf(),
        v.is_node(origin),
        v.is_input_at(origin),
        is_plan(v, origin, p),
    ensures
        p.len() > 0,
        p[0] == origin,
{
    lemma_reaches_itself(v, origin);
    assert(p.contains(origin));
    let i = choose|i: int| 0 <= i < p.len() && p[i] == origin;
    if i > 0 {
        lemma_plan_members(v, origin, p, 0);
        law_downstream_is_higher(v, origin, p[0]);
    }
}

} // verus!
