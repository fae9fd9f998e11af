//! Courses of action: sequences of positions in a catalogue of actions,
//! what they lead to, what they cost, and the order in which the planner
//! prefers them.

use vstd::prelude::*;
use crate::action::ActionView;
use crate::localstate::Facts;
use crate::requirement::{all_hold, Requirement};

verus! {

/// A course of action: for each step, the position of its action in the
/// catalogue.
pub type Path = Seq<usize>;

/// The cost of the action at `position`; a position outside the catalogue
/// costs nothing.
pub open spec fn step_cost(actions: Seq<ActionView>, position: usize) -> nat {
    if position < actions.len() {
        actions[position as int].cost
    } else {
        0
    }
}

/// The sum of the costs of the steps of `path`.
pub open spec fn path_cost(actions: Seq<ActionView>, path: Path) -> nat
    decreases path.len(),
{
    if path.len() == 0 {
        0
    } else {
        path_cost(actions, path.drop_last()) + step_cost(actions, path.last())
    }
}

/// The facts after the steps of `path` were taken in order from `start`.
pub open spec fn run(actions: Seq<ActionView>, start: Facts, path: Path) -> Facts
    decreases path.len(),
{
    if path.len() == 0 {
        start
    } else {
        actions[path.last() as int].result(run(actions, start, path.drop_last()))
    }
}

/// Whether each step of `path` is an action of the catalogue whose
/// preconditions hold when it is taken.
pub open spec fn feasible(actions: Seq<ActionView>, start: Facts, path: Path) -> bool
    decreases path.len(),
{
    path.len() == 0 || {
        &&& feasible(actions, start, path.drop_last())
        &&& path.last() < actions.len()
        &&& actions[path.last() as int].applicable(run(actions, start, path.drop_last()))
    }
}

/// Whether `path` can be followed from `start` and ends in facts that
/// satisfy `goal`.
pub open spec fn reaches(
    actions: Seq<ActionView>,
    start: Facts,
    goal: Seq<Requirement>,
    path: Path,
) -> bool {
    feasible(actions, start, path) && all_hold(run(actions, start, path), goal)
}

/// Whether `p` and `q` have the same first `n` steps.
pub open spec fn agree_before(p: Path, q: Path, n: int) -> bool {
    forall|j: int| 0 <= j < n ==> p[j] == q[j]
}

/// Whether, at the first step in which `p` and `q` differ, `p` takes the
/// action that stands earlier in the catalogue.
pub open spec fn earlier_at_first_difference(p: Path, q: Path) -> bool {
    exists|i: int|
        0 <= i < p.len() && i < q.len() && #[trigger] agree_before(p, q, i) && p[i] < q[i]
}

/// The planner's preference: `p` comes before `q` if it costs less; at
/// equal cost, if it has fewer steps; at equal cost and length, if it takes
/// the action that stands earlier in the catalogue at the first step in
/// which the two differ.
pub open spec fn precedes(actions: Seq<ActionView>, p: Path, q: Path) -> bool {
    let cp = path_cost(actions, p);
    let cq = path_cost(actions, q);
    cp < cq || (cp == cq && (p.len() < q.len() || (p.len() == q.len()
        && earlier_at_first_difference(p, q))))
}

/// `p` is `q` or comes before it.
pub open spec fn at_most(actions: Seq<ActionView>, p: Path, q: Path) -> bool {
    p == q || precedes(actions, p, q)
}

/// Whether `path` reaches the goal and comes before every other path that
/// does.
pub open spec fn is_best(
    actions: Seq<ActionView>,
    start: Facts,
    goal: Seq<Requirement>,
    path: Path,
) -> bool {
    &&& reaches(actions, start, goal, path)
    &&& forall|q: Path| #[trigger] reaches(actions, start, goal, q) ==> at_most(actions, path, q)
}

/// What one more step adds to the cost, the facts and the feasibility of a
/// path.
pub proof fn lemma_push(actions: Seq<ActionView>, start: Facts, path: Path, position: usize)
    ensures
        path_cost(actions, path.push(position)) == path_cost(actions, path) + step_cost(
            actions,
            position,
        ),
        run(actions, start, path.push(position)) == actions[position as int].result(
            run(actions, start, path),
        ),
        feasible(actions, start, path.push(position)) == (feasible(actions, start, path)
            && position < actions.len() && actions[position as int].applicable(
            run(actions, start, path),
        )),
{
    let longer = path.push(position);
    assert(longer.drop_last() =~= path);
    assert(longer.last() == position);
}

/// Of two different paths of one length, one takes the earlier action at
/// their first difference.
pub proof fn lemma_first_difference(p: Path, q: Path)
    requires
        p.len() == q.len(),
        p != q,
    ensures
        earlier_at_first_difference(p, q) || earlier_at_first_difference(q, p),
    decreases p.len(),
{
    if p.len() == 0 {
        assert(p =~= q);
    } else {
        let pf = p.drop_last();
        let qf = q.drop_last();
        if pf == qf {
            let i = p.len() - 1;
            assert(p[i] != q[i]) by {
                if p[i] == q[i] {
                    assert(p =~= pf.push(p[i]));
                    assert(q =~= qf.push(q[i]));
                }
            }
            assert(agree_before(p, q, i)) by {
                assert forall|j: int| 0 <= j < i implies p[j] == q[j] by {
                    assert(p[j] == pf[j]);
                    assert(q[j] == qf[j]);
                }
            }
            assert(agree_before(q, p, i));
        } else {
            lemma_first_difference(pf, qf);
            if earlier_at_first_difference(pf, qf) {
                let i = choose|i: int|
                    0 <= i < pf.len() && i < qf.len() && #[trigger] agree_before(pf, qf, i) && pf[i]
                        < qf[i];
                assert(agree_before(p, q, i)) by {
                    assert forall|j: int| 0 <= j < i implies p[j] == q[j] by {
                        assert(pf[j] == qf[j]);
                    }
                }
                assert(p[i] == pf[i] && q[i] == qf[i]);
            } else {
                let i = choose|i: int|
                    0 <= i < qf.len() && i < pf.len() && #[trigger] agree_before(qf, pf, i) && qf[i]
                        < pf[i];
                assert(agree_before(q, p, i)) by {
                    assert forall|j: int| 0 <= j < i implies q[j] == p[j] by {
                        assert(qf[j] == pf[j]);
                    }
                }
                assert(p[i] == pf[i] && q[i] == qf[i]);
            }
        }
    }
}

/// Of two different paths, one comes before the other.
pub proof fn lemma_precedes_total(actions: Seq<ActionView>, p: Path, q: Path)
    requires
        p != q,
    ensures
        precedes(actions, p, q) || precedes(actions, q, p),
{
    if path_cost(actions, p) == path_cost(actions, q) && p.len() == q.len() {
        lemma_first_difference(p, q);
    }
}

/// No path comes before itself, and of two paths at most one comes before
/// the other.
pub proof fn lemma_precedes_asymmetric(actions: Seq<ActionView>, p: Path, q: Path)
    ensures
        !(precedes(actions, p, q) && precedes(actions, q, p)),
        !precedes(actions, p, p),
{
    if earlier_at_first_difference(p, q) && earlier_at_first_difference(q, p) {
        let i = choose|i: int|
            0 <= i < p.len() && i < q.len() && #[trigger] agree_before(p, q, i) && p[i] < q[i];
        let j = choose|j: int|
            0 <= j < q.len() && j < p.len() && #[trigger] agree_before(q, p, j) && q[j] < p[j];
        if i < j {
            assert(q[i] == p[i]);
        } else if j < i {
            assert(p[j] == q[j]);
        }
    }
    if earlier_at_first_difference(p, p) {
        let i = choose|i: int|
            0 <= i < p.len() && i < p.len() && #[trigger] agree_before(p, p, i) && p[i] < p[i];
    }
}

/// The preference is transitive.
pub proof fn lemma_precedes_transitive(actions: Seq<ActionView>, p: Path, q: Path, r: Path)
    requires
        precedes(actions, p, q),
        precedes(actions, q, r),
    ensures
        precedes(actions, p, r),
{
    if path_cost(actions, p) == path_cost(actions, q) && path_cost(actions, q) == path_cost(
        actions,
        r,
    ) && p.len() == q.len() && q.len() == r.len() {
        let i = choose|i: int|
            0 <= i < p.len() && i < q.len() && #[trigger] agree_before(p, q, i) && p[i] < q[i];
        let j = choose|j: int|
            0 <= j < q.len() && j < r.len() && #[trigger] agree_before(q, r, j) && q[j] < r[j];
        let m = if i < j {
            i
        } else {
            j
        };
        assert(agree_before(p, r, m)) by {
            assert forall|x: int| 0 <= x < m implies p[x] == r[x] by {
                assert(p[x] == q[x]);
                assert(q[x] == r[x]);
            }
        }
        if i < j {
            assert(q[i] == r[i]);
        } else if j < i {
            assert(p[j] == q[j]);
        }
        assert(p[m] < r[m]);
    }
}

/// `at_most` is transitive.
pub proof fn lemma_at_most_transitive(actions: Seq<ActionView>, p: Path, q: Path, r: Path)
    requires
        at_most(actions, p, q),
        at_most(actions, q, r),
    ensures
        at_most(actions, p, r),
{
    if p != q && q != r {
        lemma_precedes_transitive(actions, p, q, r);
    }
}

/// A path comes before each of its extensions by one step.
pub proof fn lemma_precedes_extension(actions: Seq<ActionView>, p: Path, position: usize)
    ensures
        precedes(actions, p, p.push(position)),
{
    let longer = p.push(position);
    assert(longer.drop_last() =~= p);
}

/// The preference is kept when both paths are extended by the same step.
pub proof fn lemma_precedes_congruent(actions: Seq<ActionView>, p: Path, q: Path, position: usize)
    requires
        precedes(actions, p, q),
    ensures
        precedes(actions, p.push(position), q.push(position)),
{
    let pl = p.push(position);
    let ql = q.push(position);
    assert(pl.drop_last() =~= p);
    assert(ql.drop_last() =~= q);
    if path_cost(actions, p) == path_cost(actions, q) && p.len() == q.len() {
        let i = choose|i: int|
            0 <= i < p.len() && i < q.len() && #[trigger] agree_before(p, q, i) && p[i] < q[i];
        assert(agree_before(pl, ql, i)) by {
            assert forall|j: int| 0 <= j < i implies pl[j] == ql[j] by {
                assert(p[j] == q[j]);
            }
        }
        assert(pl[i] < ql[i]);
    }
}

/// No path comes before the path without steps.
pub proof fn lemma_nothing_precedes_empty(actions: Seq<ActionView>, p: Path)
    ensures
        !precedes(actions, p, Seq::<usize>::empty()),
{
    let none = Seq::<usize>::empty();
    if earlier_at_first_difference(p, none) {
        let i = choose|i: int|
            0 <= i < p.len() && i < none.len() && #[trigger] agree_before(p, none, i) && p[i]
                < none[i];
    }
}

/// Where the facts to start from satisfy the goal, the path without steps,
/// which costs nothing, is the best.
pub proof fn lemma_satisfied_start(actions: Seq<ActionView>, start: Facts, goal: Seq<Requirement>)
    requires
        all_hold(start, goal),
    ensures
        is_best(actions, start, goal, Seq::<usize>::empty()),
        path_cost(actions, Seq::<usize>::empty()) == 0,
{
    let none = Seq::<usize>::empty();
    assert forall|q: Path| #[trigger] reaches(actions, start, goal, q) implies at_most(
        actions,
        none,
        q,
    ) by {
        if q.len() == 0 {
            assert(q =~= none);
        }
    }
}

/// The best path costs no more than any path to the goal.
pub proof fn lemma_best_costs_least(
    actions: Seq<ActionView>,
    start: Facts,
    goal: Seq<Requirement>,
    best: Path,
    q: Path,
)
    requires
        is_best(actions, start, goal, best),
        reaches(actions, start, goal, q),
    ensures
        path_cost(actions, best) <= path_cost(actions, q),
{
    assert(at_most(actions, best, q));
}

/// At most one path is the best.
pub proof fn lemma_best_is_unique(
    actions: Seq<ActionView>,
    start: Facts,
    goal: Seq<Requirement>,
    p: Path,
    q: Path,
)
    requires
        is_best(actions, start, goal, p),
        is_best(actions, start, goal, q),
    ensures
        p == q,
{
    assert(at_most(actions, p, q));
    assert(at_most(actions, q, p));
    lemma_precedes_asymmetric(actions, p, q);
}

} // verus!
