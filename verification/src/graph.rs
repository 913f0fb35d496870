//! The step graph: entry points, and which steps can reach the end.
//!
//! Conditions play no part here: an edge is an edge whatever guards it.

use crate::error::ValidationError;
use crate::plan::{graph, row, PlanStep, Target};
use vstd::prelude::*;

verus! {

/// Whether one of a step's transitions leads to step `j`.
pub open spec fn hits(row: Seq<Target>, j: int) -> bool {
    exists|k: int| 0 <= k < row.len() && #[trigger] row[k] == Target::Step(j as usize)
}

/// Whether one of a step's transitions leads to the end.
pub open spec fn exits(row: Seq<Target>) -> bool {
    exists|k: int| 0 <= k < row.len() && #[trigger] row[k] == Target::Terminal
}

/// Whether some transition of the graph leads to step `j`.
pub open spec fn has_incoming(g: Seq<Seq<Target>>, j: int) -> bool {
    exists|i: int| 0 <= i < g.len() && hits(#[trigger] g[i], j)
}

/// An entry point is a step that no transition leads to.
pub open spec fn is_entry(g: Seq<Seq<Target>>, j: int) -> bool {
    0 <= j < g.len() && !has_incoming(g, j)
}

/// The graph has no entry point.
pub open spec fn no_entry(g: Seq<Seq<Target>>) -> bool {
    forall|j: int| 0 <= j < g.len() ==> has_incoming(g, j)
}

/// The graph has two entry points or more.
pub open spec fn many_entries(g: Seq<Seq<Target>>) -> bool {
    exists|a: int, b: int|
        0 <= a < b < g.len() && !#[trigger] has_incoming(g, a) && !#[trigger] has_incoming(g, b)
}

/// A path of steps, each leading to the next, the last one to the end.
pub open spec fn is_path(g: Seq<Seq<Target>>, p: Seq<int>) -> bool {
    &&& p.len() > 0
    &&& forall|m: int| 0 <= m < p.len() ==> 0 <= #[trigger] p[m] < g.len()
    &&& forall|m: int| 0 <= m < p.len() - 1 ==> hits(g[#[trigger] p[m]], p[m + 1])
    &&& exits(g[p.last()])
}

/// Whether the end can be reached from step `i`.
pub open spec fn can_finish(g: Seq<Seq<Target>>, i: int) -> bool {
    exists|p: Seq<int>| #[trigger] is_path(g, p) && p[0] == i
}

/// Whether a transition leads to the end or to a marked step.
pub open spec fn arm_ok(t: Target, marks: Seq<bool>) -> bool {
    match t {
        Target::Terminal => true,
        Target::Step(j) => j < marks.len() && marks[j as int],
    }
}

/// Whether one of a step's transitions leads to the end or to a marked step.
pub open spec fn advances(row: Seq<Target>, marks: Seq<bool>) -> bool {
    exists|k: int| 0 <= k < row.len() && arm_ok(#[trigger] row[k], marks)
}

/// How many marks are set.
pub open spec fn count_true(marks: Seq<bool>) -> nat
    decreases marks.len(),
{
    if marks.len() == 0 {
        0
    } else {
        count_true(marks.drop_last()) + if marks.last() {
            1nat
        } else {
            0nat
        }
    }
}

proof fn lemma_count_bound(marks: Seq<bool>)
    ensures
        count_true(marks) <= marks.len(),
    decreases marks.len(),
{
    if marks.len() > 0 {
        lemma_count_bound(marks.drop_last());
    }
}

proof fn lemma_count_set(marks: Seq<bool>, i: int)
    requires
        0 <= i < marks.len(),
        !marks[i],
    ensures
        count_true(marks.update(i, true)) == count_true(marks) + 1,
    decreases marks.len(),
{
    if i == marks.len() - 1 {
        assert(marks.update(i, true).drop_last() =~= marks.drop_last());
    } else {
        assert(marks.update(i, true).drop_last() =~= marks.drop_last().update(i, true));
        lemma_count_set(marks.drop_last(), i);
    }
}

proof fn lemma_exit_finishes(g: Seq<Seq<Target>>, i: int)
    requires
        0 <= i < g.len(),
        exits(g[i]),
    ensures
        can_finish(g, i),
{
    let p = seq![i];
    assert(is_path(g, p));
    assert(p[0] == i);
}

proof fn lemma_edge_finishes(g: Seq<Seq<Target>>, i: int, j: int)
    requires
        0 <= i < g.len(),
        hits(g[i], j),
        can_finish(g, j),
    ensures
        can_finish(g, i),
{
    let p = choose|p: Seq<int>| #[trigger] is_path(g, p) && p[0] == j;
    let q = seq![i] + p;
    assert forall|m: int| 0 <= m < q.len() implies 0 <= #[trigger] q[m] < g.len() by {
        if m > 0 {
            assert(q[m] == p[m - 1]);
        }
    }
    assert forall|m: int| 0 <= m < q.len() - 1 implies hits(g[#[trigger] q[m]], q[m + 1]) by {
        if m > 0 {
            assert(q[m] == p[m - 1]);
            assert(q[m + 1] == p[m]);
        } else {
            assert(q[1] == p[0]);
        }
    }
    assert(q.last() == p.last());
    assert(is_path(g, q));
    assert(q[0] == i);
}

/// Marks that are closed under "leads to the end or to a marked step" hold
/// every step from which a path leads to the end.
proof fn lemma_closed_marks(g: Seq<Seq<Target>>, marks: Seq<bool>, p: Seq<int>)
    requires
        marks.len() == g.len(),
        g.len() <= usize::MAX,
        forall|i: int| 0 <= i < g.len() && advances(#[trigger] g[i], marks) ==> marks[i],
        is_path(g, p),
    ensures
        marks[p[0]],
    decreases p.len(),
{
    let i = p[0];
    if p.len() == 1 {
        let k = choose|k: int| 0 <= k < g[i].len() && #[trigger] g[i][k] == Target::Terminal;
        assert(arm_ok(g[i][k], marks));
    } else {
        let q = p.skip(1);
        assert forall|m: int| 0 <= m < q.len() - 1 implies hits(g[#[trigger] q[m]], q[m + 1]) by {
            assert(q[m] == p[m + 1]);
        }
        assert(q.last() == p.last());
        assert(is_path(g, q));
        lemma_closed_marks(g, marks, q);
        assert(q[0] == p[1]);
        let j = p[1];
        let k = choose|k: int| 0 <= k < g[i].len() && #[trigger] g[i][k] == Target::Step(j as usize);
        assert(arm_ok(g[i][k], marks));
    }
}

fn row_hits(step: &PlanStep, j: usize) -> (r: bool)
    ensures
        r == hits(row(*step), j as int),
{
    let mut k: usize = 0;
    while k < step.arms.len()
        invariant
            k <= step.arms@.len(),
            forall|m: int| 0 <= m < k ==> #[trigger] row(*step)[m] != Target::Step(j),
        decreases step.arms@.len() - k,
    {
        if let Target::Step(t) = step.arms[k].target {
            if t == j {
                assert(row(*step)[k as int] == Target::Step(j as int as usize));
                return true;
            }
        }
        k += 1;
    }
    false
}

fn has_incoming_edge(steps: &Vec<PlanStep>, j: usize) -> (r: bool)
    ensures
        r == has_incoming(graph(steps@), j as int),
{
    let ghost g = graph(steps@);
    let mut i: usize = 0;
    while i < steps.len()
        invariant
            i <= steps@.len(),
            g == graph(steps@),
            forall|m: int| 0 <= m < i ==> !hits(#[trigger] g[m], j as int),
        decreases steps@.len() - i,
    {
        if row_hits(&steps[i], j) {
            assert(hits(g[i as int], j as int));
            return true;
        }
        i += 1;
    }
    false
}

/// Finds the entry point of the graph, which has to be the only one.
pub fn find_entry(steps: &Vec<PlanStep>) -> (r: Result<usize, ValidationError>)
    ensures
        match r {
            Ok(e) => is_entry(graph(steps@), e as int) && !no_entry(graph(steps@))
                && !many_entries(graph(steps@)),
            Err(e) => if no_entry(graph(steps@)) {
                e == ValidationError::NoEntryPoint
            } else {
                e == ValidationError::MultipleEntryPoints && many_entries(graph(steps@))
            },
        },
{
    let ghost g = graph(steps@);
    let mut first: Option<usize> = None;
    let mut j: usize = 0;
    while j < steps.len()
        invariant
            j <= steps@.len(),
            g == graph(steps@),
            match first {
                None => forall|m: int| 0 <= m < j ==> has_incoming(g, m),
                Some(a) => a < j && !has_incoming(g, a as int) && forall|m: int|
                    0 <= m < j && m != a ==> has_incoming(g, m),
            },
        decreases steps@.len() - j,
    {
        if !has_incoming_edge(steps, j) {
            match first {
                None => {
                    first = Some(j);
                },
                Some(a) => {
                    assert(!has_incoming(g, a as int) && !has_incoming(g, j as int));
                    return Err(ValidationError::MultipleEntryPoints);
                },
            }
        }
        j += 1;
    }
    match first {
        None => Err(ValidationError::NoEntryPoint),
        Some(a) => Ok(a),
    }
}

fn can_advance(step: &PlanStep, marks: &Vec<bool>) -> (r: bool)
    ensures
        r == advances(row(*step), marks@),
{
    let mut k: usize = 0;
    while k < step.arms.len()
        invariant
            k <= step.arms@.len(),
            forall|m: int| 0 <= m < k ==> !arm_ok(#[trigger] row(*step)[m], marks@),
        decreases step.arms@.len() - k,
    {
        match step.arms[k].target {
            Target::Terminal => {
                assert(arm_ok(row(*step)[k as int], marks@));
                return true;
            },
            Target::Step(j) => {
                if j < marks.len() && marks[j] {
                    assert(arm_ok(row(*step)[k as int], marks@));
                    return true;
                }
            },
        }
        k += 1;
    }
    false
}

/// Marks the steps from which the end can be reached.
pub fn finishing(steps: &Vec<PlanStep>) -> (marks: Vec<bool>)
    ensures
        marks@.len() == steps@.len(),
        forall|i: int|
            0 <= i < steps@.len() ==> marks@[i] == can_finish(graph(steps@), i),
{
    let n = steps.len();
    let ghost g = graph(steps@);
    let mut marks: Vec<bool> = Vec::new();
    while marks.len() < n
        invariant
            marks@.len() <= n,
            forall|i: int| 0 <= i < marks@.len() ==> !marks@[i],
        decreases n - marks@.len(),
    {
        marks.push(false);
    }
    loop
        invariant
            n == steps@.len(),
            g == graph(steps@),
            marks@.len() == n,
            forall|i: int| 0 <= i < n && marks@[i] ==> can_finish(g, i),
        ensures
            marks@.len() == n,
            forall|i: int| 0 <= i < n && marks@[i] ==> can_finish(g, i),
            forall|i: int| 0 <= i < n && advances(#[trigger] g[i], marks@) ==> marks@[i],
        decreases n - count_true(marks@),
    {
        let ghost start = marks@;
        let mut changed = false;
        let mut i: usize = 0;
        while i < n
            invariant
                i <= n,
                n == steps@.len(),
                g == graph(steps@),
                marks@.len() == n,
                start.len() == n,
                forall|m: int| 0 <= m < n && marks@[m] ==> can_finish(g, m),
                !changed ==> marks@ == start,
                !changed ==> forall|m: int|
                    0 <= m < i && advances(#[trigger] g[m], marks@) ==> marks@[m],
                changed ==> count_true(marks@) > count_true(start),
            decreases n - i,
        {
            if !marks[i] && can_advance(&steps[i], &marks) {
                proof {
                    let k = choose|k: int|
                        0 <= k < g[i as int].len() && arm_ok(#[trigger] g[i as int][k], marks@);
                    match g[i as int][k] {
                        Target::Terminal => {
                            lemma_exit_finishes(g, i as int);
                        },
                        Target::Step(j) => {
                            assert(g[i as int][k] == Target::Step(j as int as usize));
                            lemma_edge_finishes(g, i as int, j as int);
                        },
                    }
                    lemma_count_set(marks@, i as int);
                }
                marks.set(i, true);
                changed = true;
            }
            i += 1;
        }
        if !changed {
            break ;
        }
        proof {
            lemma_count_bound(marks@);
        }
    }
    proof {
        assert forall|i: int| 0 <= i < n && can_finish(g, i) implies marks@[i] by {
            let p = choose|p: Seq<int>| #[trigger] is_path(g, p) && p[0] == i;
            lemma_closed_marks(g, marks@, p);
        }
    }
    marks
}

} // verus!
