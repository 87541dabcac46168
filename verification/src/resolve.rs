//! From identities to positions: the edges of a graph in both directions.

use vstd::prelude::*;
use crate::descriptor::ComponentDescriptor;
use crate::graph::{rows, rows_within};
use crate::validate::{
    declares, dep_unknown_at, deps_of, first_unknown_dependency, has_unknown_dependency, is_slot,
    position_of,
};

verus! {

/// `deps` lists, for every dependency slot, the position of the descriptor
/// that declares the dependency named there.
pub open spec fn resolves(ds: Seq<ComponentDescriptor>, deps: Seq<Seq<int>>) -> bool {
    &&& deps.len() == ds.len()
    &&& forall|k: int| 0 <= k < ds.len() ==> (#[trigger] deps[k]).len() == deps_of(ds, k).len()
    &&& forall|k: int, b: int|
        is_slot(ds, k, b) ==> 0 <= #[trigger] deps[k][b] < ds.len() && ds[deps[k][b]].id
            == deps_of(ds, k)[b]
}

/// Strictly increasing rows.
pub open spec fn rows_ascending(r: Seq<Seq<int>>) -> bool {
    forall|d: int, a: int, b: int|
        0 <= d < r.len() && 0 <= a < b < r[d].len() ==> #[trigger] r[d][a] < #[trigger] r[d][b]
}

/// Rows without repeated entries.
pub open spec fn rows_distinct(r: Seq<Seq<int>>) -> bool {
    forall|k: int| 0 <= k < r.len() ==> (#[trigger] r[k]).no_duplicates()
}

/// `subs` holds `k` in row `d` exactly when `deps` holds `d` in row `k`.
pub open spec fn rows_inverse(deps: Seq<Seq<int>>, subs: Seq<Seq<int>>) -> bool {
    forall|k: int, d: int|
        0 <= k < deps.len() && 0 <= d < deps.len() ==> (#[trigger] deps[k].contains(d)
            <==> #[trigger] subs[d].contains(k))
}

/// Looks every dependency up among the descriptors. Fails at the first slot,
/// in declaration order, whose dependency nobody declares.
pub fn resolve(ds: &Vec<ComponentDescriptor>) -> (r: Result<Vec<Vec<usize>>, (usize, usize)>)
    ensures
        match r {
            Ok(deps) => !has_unknown_dependency(ds@) && resolves(ds@, rows(deps@)),
            Err((k, b)) => first_unknown_dependency(ds@, k as int, b as int),
        },
{
    let mut out: Vec<Vec<usize>> = Vec::new();
    let mut k: usize = 0;
    while k < ds.len()
        invariant
            k <= ds@.len(),
            out@.len() == k,
            forall|k2: int|
                0 <= k2 < k ==> (#[trigger] out@[k2])@.len() == deps_of(ds@, k2).len(),
            forall|k2: int, b2: int|
                is_slot(ds@, k2, b2) && k2 < k ==> (#[trigger] out@[k2]@[b2]) < ds@.len()
                    && ds@[out@[k2]@[b2] as int].id == deps_of(ds@, k2)[b2],
            forall|k2: int, b2: int|
                is_slot(ds@, k2, b2) && k2 < k ==> !#[trigger] dep_unknown_at(ds@, k2, b2),
        decreases ds@.len() - k,
    {
        let deps = &ds[k].dependency_ids;
        let mut row: Vec<usize> = Vec::new();
        let mut b: usize = 0;
        while b < deps.len()
            invariant
                k < ds@.len(),
                deps@ == deps_of(ds@, k as int),
                b <= deps@.len(),
                row@.len() == b,
                forall|b2: int|
                    0 <= b2 < b ==> (#[trigger] row@[b2]) < ds@.len() && ds@[row@[b2] as int].id
                        == deps@[b2],
                forall|k2: int, b2: int|
                    is_slot(ds@, k2, b2) && k2 < k ==> !#[trigger] dep_unknown_at(ds@, k2, b2),
                forall|b2: int| 0 <= b2 < b ==> !#[trigger] dep_unknown_at(ds@, k as int, b2),
            decreases deps@.len() - b,
        {
            match position_of(ds, deps[b]) {
                Some(p) => {
                    row.push(p);
                },
                None => {
                    return Err((k, b));
                },
            }
            b = b + 1;
        }
        out.push(row);
        k = k + 1;
    }
    Ok(out)
}

/// Turns the dependency rows around: row `d` of the result lists, in
/// increasing order, every `k` whose row holds `d`.
pub fn invert(deps: &Vec<Vec<usize>>) -> (subs: Vec<Vec<usize>>)
    requires
        rows_within(rows(deps@), deps@.len() as int),
        rows_distinct(rows(deps@)),
    ensures
        subs@.len() == deps@.len(),
        rows_within(rows(subs@), deps@.len() as int),
        rows_ascending(rows(subs@)),
        rows_inverse(rows(deps@), rows(subs@)),
{
    let n = deps.len();
    let mut subs: Vec<Vec<usize>> = Vec::new();
    let mut i: usize = 0;
    while i < n
        invariant
            i <= n,
            subs@.len() == i,
            forall|d: int| 0 <= d < i ==> (#[trigger] subs@[d])@.len() == 0,
        decreases n - i,
    {
        subs.push(Vec::new());
        i = i + 1;
    }
    let mut k: usize = 0;
    while k < n
        invariant
            n == deps@.len(),
            k <= n,
            rows_within(rows(deps@), n as int),
            rows_distinct(rows(deps@)),
            fed(rows(deps@), rows(subs@), k as int, 0),
        decreases n - k,
    {
        let row = &deps[k];
        let mut b: usize = 0;
        while b < row.len()
            invariant
                n == deps@.len(),
                k < n,
                row@ == deps@[k as int]@,
                b <= row@.len(),
                rows_within(rows(deps@), n as int),
                rows_distinct(rows(deps@)),
                fed(rows(deps@), rows(subs@), k as int, b as int),
            decreases row@.len() - b,
        {
            let d = row[b];
            let ghost before = rows(subs@);
            assert(rows(deps@)[k as int][b as int] == d as int);
            subs[d].push(k);
            proof {
                assert(rows(subs@) =~~= before.update(d as int, before[d as int].push(k as int)));
                lemma_feed(rows(deps@), before, k as int, b as int);
            }
            b = b + 1;
        }
        k = k + 1;
    }
    subs
}

/// The state of the subscriber rows once every dependency row before `k`
/// and the first `b` entries of row `k` have been turned around.
pub open spec fn fed(deps: Seq<Seq<int>>, subs: Seq<Seq<int>>, k: int, b: int) -> bool {
    &&& subs.len() == deps.len()
    &&& rows_ascending(subs)
    &&& forall|d: int, a: int|
        0 <= d < subs.len() && 0 <= a < subs[d].len() ==> {
            let j = #[trigger] subs[d][a];
            &&& 0 <= j <= k
            &&& j < deps.len()
            &&& deps[j].contains(d)
            &&& j == k ==> exists|c: int| 0 <= c < b && c < deps[k].len() && #[trigger] deps[k][c] == d
        }
    &&& forall|j: int, c: int|
        0 <= j < k && j < deps.len() && 0 <= c < deps[j].len() ==> subs[#[trigger] deps[j][c]].contains(j)
    &&& forall|c: int|
        0 <= c < b && 0 <= k < deps.len() && c < deps[k].len() ==> subs[#[trigger] deps[k][c]].contains(k)
}

/// Turning one more dependency around carries the state one slot on.
proof fn lemma_feed(deps: Seq<Seq<int>>, subs: Seq<Seq<int>>, k: int, b: int)
    requires
        rows_within(deps, deps.len() as int),
        rows_distinct(deps),
        0 <= k < deps.len(),
        0 <= b < deps[k].len(),
        fed(deps, subs, k, b),
    ensures
        fed(deps, subs.update(deps[k][b], subs[deps[k][b]].push(k)), k, b + 1),
{
    let d0 = deps[k][b];
    let after = subs.update(d0, subs[d0].push(k));
    assert forall|j: int, c: int|
        0 <= j < k && j < deps.len() && 0 <= c < deps[j].len() implies after[#[trigger] deps[j][c]].contains(j) by {
        let d = deps[j][c];
        lemma_push_keeps(subs, d0, k, d, j);
    }
    assert forall|c: int|
        0 <= c < b + 1 && 0 <= k < deps.len() && c < deps[k].len() implies after[#[trigger] deps[k][c]].contains(k) by {
        if c >= b {
            assert(after[d0][subs[d0].len() as int] == k);
        }
    }
}

/// What a row holds it still holds after something is appended to a row.
proof fn lemma_push_keeps(subs: Seq<Seq<int>>, d0: int, k: int, d: int, j: int)
    requires
        0 <= d0 < subs.len(),
        0 <= d < subs.len(),
        subs[d].contains(j),
    ensures
        subs.update(d0, subs[d0].push(k))[d].contains(j),
{
    let a = choose|a: int| 0 <= a < subs[d].len() && subs[d][a] == j;
    let after = subs.update(d0, subs[d0].push(k));
    assert(after[d][a] == j);
}

} // verus!
