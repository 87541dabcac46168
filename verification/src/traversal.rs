//! Depth-first traversal of the dependency edges with three-state marking.
//! It either meets a component that is still in progress, which closes a
//! cycle, or gives every component its level.

use vstd::prelude::*;
use crate::graph::{ints, level_rule, naturals, rows, rows_within};

verus! {

/// How far the traversal has come with a component.
#[derive(Clone, Copy, Debug, PartialEq, Eq, Structural)]
pub enum Mark {
    Unvisited,
    InProgress,
    Done,
}

/// How many components carry mark `m`.
pub open spec fn count(marks: Seq<Mark>, m: Mark) -> nat
    decreases marks.len(),
{
    if marks.len() == 0 {
        0
    } else {
        count(marks.drop_last(), m) + if marks.last() == m {
            1nat
        } else {
            0nat
        }
    }
}

/// No count exceeds the number of components.
pub proof fn lemma_count_bound(marks: Seq<Mark>, m: Mark)
    ensures
        count(marks, m) <= marks.len(),
    decreases marks.len(),
{
    if marks.len() > 0 {
        lemma_count_bound(marks.drop_last(), m);
    }
}

/// Changing one mark moves one unit between two counts.
pub proof fn lemma_count_update(marks: Seq<Mark>, k: int, to: Mark, m: Mark)
    requires
        0 <= k < marks.len(),
    ensures
        count(marks.update(k, to), m) + (if marks[k] == m {
            1nat
        } else {
            0nat
        }) == count(marks, m) + (if to == m {
            1nat
        } else {
            0nat
        }),
    decreases marks.len(),
{
    let after = marks.update(k, to);
    if k == marks.len() - 1 {
        assert(after.drop_last() =~= marks.drop_last());
    } else {
        assert(after.drop_last() =~= marks.drop_last().update(k, to));
        lemma_count_update(marks.drop_last(), k, to, m);
    }
}

/// `c` is a cycle of dependency edges between positions: every member's row
/// holds the next member, the last member's row holds the first, and no
/// member occurs twice.
pub open spec fn is_row_cycle(deps: Seq<Seq<int>>, c: Seq<int>) -> bool {
    &&& c.len() > 0
    &&& forall|i: int| 0 <= i < c.len() ==> 0 <= #[trigger] c[i] < deps.len()
    &&& forall|i: int| 0 <= i < c.len() - 1 ==> deps[#[trigger] c[i]].contains(c[i + 1])
    &&& deps[c[c.len() - 1]].contains(c[0])
    &&& c.no_duplicates()
}

/// A chain of dependency edges.
pub open spec fn is_chain(deps: Seq<Seq<int>>, s: Seq<int>) -> bool {
    forall|i: int| 0 <= i < s.len() - 1 ==> deps[#[trigger] s[i]].contains(s[i + 1])
}

/// What is known of a component that is done: its dependencies are done,
/// and its level follows the rule and stays below the number of done
/// components.
pub open spec fn settled(deps: Seq<Seq<int>>, marks: Seq<Mark>, levels: Seq<nat>, k: int) -> bool {
    &&& forall|b: int| 0 <= b < deps[k].len() ==> marks[#[trigger] deps[k][b]] == Mark::Done
    &&& level_rule(deps, levels, k)
    &&& levels[k] < count(marks, Mark::Done)
}

/// The invariant of the traversal: the components in progress are exactly
/// those on the stack, which is a chain of edges, and every done component
/// is settled.
pub open spec fn traversal_inv(
    deps: Seq<Seq<int>>,
    marks: Seq<Mark>,
    levels: Seq<nat>,
    stack: Seq<int>,
) -> bool {
    &&& marks.len() == deps.len()
    &&& levels.len() == deps.len()
    &&& rows_within(deps, deps.len() as int)
    &&& forall|i: int|
        0 <= i < stack.len() ==> 0 <= #[trigger] stack[i] < deps.len() && marks[stack[i]]
            == Mark::InProgress
    &&& is_chain(deps, stack)
    &&& stack.no_duplicates()
    &&& forall|k: int|
        0 <= k < deps.len() && #[trigger] marks[k] == Mark::InProgress ==> stack.contains(k)
    &&& forall|k: int|
        0 <= k < deps.len() && marks[k] == Mark::Done ==> #[trigger] settled(deps, marks, levels, k)
}

/// Marks only move forward, and what is done keeps its level.
pub open spec fn kept(
    marks0: Seq<Mark>,
    levels0: Seq<nat>,
    marks1: Seq<Mark>,
    levels1: Seq<nat>,
    but: int,
) -> bool {
    &&& marks1.len() == marks0.len()
    &&& levels1.len() == levels0.len()
    &&& forall|j: int|
        0 <= j < marks0.len() && j != but && marks0[j] != Mark::Unvisited ==> #[trigger] marks1[j]
            == marks0[j]
    &&& forall|j: int|
        0 <= j < marks0.len() && j != but && marks0[j] == Mark::Done ==> #[trigger] levels1[j]
            == levels0[j]
}

/// The part of the stack from the first occurrence of `d` on.
fn stack_from(stack: &Vec<usize>, d: usize) -> (c: Vec<usize>)
    requires
        stack@.contains(d),
    ensures
        exists|p: int|
            0 <= p < stack@.len() && stack@[p] == d && c@ == #[trigger] stack@.subrange(
                p,
                stack@.len() as int,
            ),
{
    let ghost w = choose|w: int| 0 <= w < stack@.len() && stack@[w] == d;
    let mut pos: usize = 0;
    while stack[pos] != d
        invariant
            0 <= pos <= w < stack.len(),
            stack@[w] == d,
        decreases stack@.len() - pos,
    {
        pos = pos + 1;
    }
    let mut c: Vec<usize> = Vec::new();
    let mut i: usize = pos;
    while i < stack.len()
        invariant
            pos <= i <= stack@.len(),
            c@ == stack@.subrange(pos as int, i as int),
        decreases stack@.len() - i,
    {
        c.push(stack[i]);
        i = i + 1;
    }
    c
}

/// Entering a component: it goes from unvisited to in progress and onto
/// the stack.
proof fn lemma_enter(
    deps: Seq<Seq<int>>,
    marks: Seq<Mark>,
    levels: Seq<nat>,
    stack: Seq<int>,
    k: int,
)
    requires
        traversal_inv(deps, marks, levels, stack),
        0 <= k < deps.len(),
        marks[k] == Mark::Unvisited,
        stack.len() > 0 ==> deps[stack[stack.len() - 1]].contains(k),
    ensures
        traversal_inv(deps, marks.update(k, Mark::InProgress), levels, stack.push(k)),
        count(marks.update(k, Mark::InProgress), Mark::Unvisited) + 1 == count(
            marks,
            Mark::Unvisited,
        ),
        count(marks.update(k, Mark::InProgress), Mark::Done) == count(marks, Mark::Done),
{
    let marks1 = marks.update(k, Mark::InProgress);
    let stack1 = stack.push(k);
    lemma_count_update(marks, k, Mark::InProgress, Mark::Unvisited);
    lemma_count_update(marks, k, Mark::InProgress, Mark::Done);
    assert forall|j: int|
        0 <= j < deps.len() && #[trigger] marks1[j] == Mark::InProgress implies stack1.contains(
        j,
    ) by {
        if j == k {
            assert(stack1[stack.len() as int] == k);
        } else {
            let i = choose|i: int| 0 <= i < stack.len() && stack[i] == j;
            assert(stack1[i] == j);
        }
    }
    assert forall|j: int| 0 <= j < deps.len() && marks1[j] == Mark::Done implies #[trigger] settled(
        deps,
        marks1,
        levels,
        j,
    ) by {
        assert(settled(deps, marks, levels, j));
        assert forall|b: int| 0 <= b < deps[j].len() implies marks1[#[trigger] deps[j][b]]
            == Mark::Done by {}
    }
}

/// Leaving a component whose dependencies are all done: it comes off the
/// stack, is done itself and gets the level `best`.
proof fn lemma_leave(
    deps: Seq<Seq<int>>,
    marks: Seq<Mark>,
    levels: Seq<nat>,
    stack: Seq<int>,
    k: int,
    best: nat,
)
    requires
        traversal_inv(deps, marks, levels, stack.push(k)),
        0 <= k < deps.len(),
        marks[k] == Mark::InProgress,
        forall|b: int|
            0 <= b < deps[k].len() ==> marks[#[trigger] deps[k][b]] == Mark::Done
                && levels[deps[k][b]] < best,
        deps[k].len() == 0 ==> best == 0,
        deps[k].len() > 0 ==> exists|b: int|
            0 <= b < deps[k].len() && levels[#[trigger] deps[k][b]] + 1 == best,
        best <= count(marks, Mark::Done),
    ensures
        traversal_inv(deps, marks.update(k, Mark::Done), levels.update(k, best), stack),
        count(marks.update(k, Mark::Done), Mark::Unvisited) == count(marks, Mark::Unvisited),
        count(marks.update(k, Mark::Done), Mark::Done) == count(marks, Mark::Done) + 1,
{
    let marks1 = marks.update(k, Mark::Done);
    let levels1 = levels.update(k, best);
    let stack1 = stack.push(k);
    lemma_count_update(marks, k, Mark::Done, Mark::Unvisited);
    lemma_count_update(marks, k, Mark::Done, Mark::Done);
    assert forall|i: int| 0 <= i < stack.len() implies 0 <= #[trigger] stack[i] < deps.len()
        && marks1[stack[i]] == Mark::InProgress by {
        assert(stack1[i] == stack[i]);
    }
    assert(stack.no_duplicates()) by {
        assert forall|i: int, j: int|
            0 <= i < stack.len() && 0 <= j < stack.len() && i != j implies stack[i]
            != stack[j] by {
            assert(stack1[i] != stack1[j]);
        }
    }
    assert forall|j: int| 0 <= j < deps.len() && marks1[j] == Mark::Done implies #[trigger] settled(
        deps,
        marks1,
        levels1,
        j,
    ) by {
        if j == k {
            assert forall|b: int| 0 <= b < deps[k].len() implies levels1[#[trigger] deps[k][b]]
                < levels1[k] by {}
        } else {
            assert(settled(deps, marks, levels, j));
            assert forall|b: int| 0 <= b < deps[j].len() implies marks1[#[trigger] deps[j][b]]
                == Mark::Done && levels1[deps[j][b]] < levels1[j] by {}
        }
    }
}

/// Visits `k` and, before it, everything `k` depends on that has not been
/// visited. Returns the cycle that the traversal ran into, if it did.
fn visit(
    deps: &Vec<Vec<usize>>,
    k: usize,
    marks: &mut Vec<Mark>,
    levels: &mut Vec<usize>,
    stack: &mut Vec<usize>,
) -> (r: Option<Vec<usize>>)
    requires
        traversal_inv(rows(deps@), old(marks)@, naturals(old(levels)@), ints(old(stack)@)),
        k < deps@.len(),
        old(marks)@[k as int] == Mark::Unvisited,
        old(stack)@.len() > 0 ==> rows(deps@)[old(stack)@[old(stack)@.len() - 1] as int].contains(
            k as int,
        ),
    ensures
        match r {
            Some(c) => is_row_cycle(rows(deps@), ints(c@)),
            None => {
                &&& traversal_inv(
                    rows(deps@),
                    final(marks)@,
                    naturals(final(levels)@),
                    ints(final(stack)@),
                )
                &&& final(stack)@ == old(stack)@
                &&& final(marks)@[k as int] == Mark::Done
                &&& kept(
                    old(marks)@,
                    naturals(old(levels)@),
                    final(marks)@,
                    naturals(final(levels)@),
                    k as int,
                )
                &&& count(final(marks)@, Mark::Unvisited) < count(old(marks)@, Mark::Unvisited)
                &&& count(final(marks)@, Mark::Done) >= count(old(marks)@, Mark::Done)
            },
        },
    decreases count(old(marks)@, Mark::Unvisited),
{
    let ghost g = rows(deps@);
    let ghost marks0 = marks@;
    let ghost levels0 = naturals(levels@);
    let ghost stack0 = stack@;
    marks.set(k, Mark::InProgress);
    stack.push(k);
    proof {
        lemma_enter(g, marks0, levels0, ints(stack0), k as int);
        assert(ints(stack@) =~= ints(stack0).push(k as int));
    }
    let row = &deps[k];
    let mut best: usize = 0;
    let mut b: usize = 0;
    while b < row.len()
        invariant
            g == rows(deps@),
            k < deps@.len(),
            row@ == deps@[k as int]@,
            b <= row@.len(),
            traversal_inv(g, marks@, naturals(levels@), ints(stack@)),
            marks0 == old(marks)@,
            stack@ == stack0.push(k),
            marks@[k as int] == Mark::InProgress,
            marks0[k as int] == Mark::Unvisited,
            kept(marks0, levels0, marks@, naturals(levels@), k as int),
            count(marks@, Mark::Unvisited) < count(marks0, Mark::Unvisited),
            count(marks@, Mark::Done) >= count(marks0, Mark::Done),
            forall|b2: int|
                0 <= b2 < b ==> marks@[#[trigger] g[k as int][b2]] == Mark::Done && naturals(
                    levels@,
                )[g[k as int][b2]] < best,
            b == 0 ==> best == 0,
            b > 0 ==> exists|b2: int|
                0 <= b2 < b && naturals(levels@)[#[trigger] g[k as int][b2]] + 1 == best,
            best <= count(marks@, Mark::Done),
        decreases row@.len() - b,
    {
        let d = row[b];
        assert(g[k as int][b as int] == d as int);
        let m = marks[d];
        match m {
            Mark::InProgress => {
                let c = stack_from(stack, d);
                proof {
                    let s = ints(stack@);
                    let p = choose|p: int|
                        0 <= p < stack@.len() && stack@[p] == d && c@ == #[trigger] stack@.subrange(
                            p,
                            stack@.len() as int,
                        );
                    assert(ints(c@) =~= s.subrange(p, s.len() as int));
                }
                return Some(c);
            },
            Mark::Unvisited => {
                match visit(deps, d, marks, levels, stack) {
                    Some(c) => {
                        return Some(c);
                    },
                    None => {},
                }
            },
            Mark::Done => {},
        }
        proof {
            assert(settled(g, marks@, naturals(levels@), d as int));
            lemma_count_bound(marks@, Mark::Done);
            assert(levels@[d as int] < deps.len());
        }
        let level = levels[d];
        if level >= best {
            best = level + 1;
        }
        b = b + 1;
    }
    let ghost marks2 = marks@;
    let ghost levels2 = naturals(levels@);
    stack.pop();
    marks.set(k, Mark::Done);
    levels.set(k, best);
    proof {
        assert(stack@ =~= stack0);
        assert(naturals(levels@) =~= levels2.update(k as int, best as nat));
        lemma_leave(g, marks2, levels2, ints(stack0), k as int, best as nat);
    }
    None
}

/// Gives every component its level, or finds a dependency cycle.
pub fn assign_levels(deps: &Vec<Vec<usize>>) -> (r: Result<Vec<usize>, Vec<usize>>)
    requires
        rows_within(rows(deps@), deps@.len() as int),
    ensures
        match r {
            Ok(levels) => levels@.len() == deps@.len() && (forall|k: int|
                0 <= k < deps@.len() ==> #[trigger] level_rule(rows(deps@), naturals(levels@), k))
                && (forall|k: int| 0 <= k < deps@.len() ==> (#[trigger] levels@[k]) < deps@.len()),
            Err(c) => is_row_cycle(rows(deps@), ints(c@)),
        },
{
    let n = deps.len();
    let mut marks: Vec<Mark> = Vec::new();
    let mut levels: Vec<usize> = Vec::new();
    let mut i: usize = 0;
    while i < n
        invariant
            i <= n,
            marks@.len() == i,
            levels@.len() == i,
            forall|j: int| 0 <= j < i ==> #[trigger] marks@[j] == Mark::Unvisited,
        decreases n - i,
    {
        marks.push(Mark::Unvisited);
        levels.push(0);
        i = i + 1;
    }
    let mut stack: Vec<usize> = Vec::new();
    let mut k: usize = 0;
    while k < n
        invariant
            n == deps@.len(),
            k <= n,
            stack@.len() == 0,
            traversal_inv(rows(deps@), marks@, naturals(levels@), ints(stack@)),
            forall|j: int| 0 <= j < k ==> #[trigger] marks@[j] == Mark::Done,
        decreases n - k,
    {
        if marks[k] == Mark::Unvisited {
            match visit(deps, k, &mut marks, &mut levels, &mut stack) {
                Some(c) => {
                    return Err(c);
                },
                None => {},
            }
        }
        k = k + 1;
    }
    proof {
        assert forall|j: int| 0 <= j < deps@.len() implies #[trigger] level_rule(
            rows(deps@),
            naturals(levels@),
            j,
        ) by {
            assert(settled(rows(deps@), marks@, naturals(levels@), j));
        }
        assert forall|j: int| 0 <= j < deps@.len() implies (#[trigger] levels@[j]) < deps@.len() by {
            assert(settled(rows(deps@), marks@, naturals(levels@), j));
            lemma_count_bound(marks@, Mark::Done);
        }
    }
    Ok(levels)
}

} // verus!
