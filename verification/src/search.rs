//! The search: best-first over the states that the actions lead to, from
//! the cheapest path on, never expanding a state twice and never more
//! states than a given number.

use vstd::prelude::*;
use crate::action::{action_views, Action, ActionView};
use crate::goal::Goal;
use crate::localstate::{Facts, LocalState};
use crate::path::{
    agree_before, at_most, earlier_at_first_difference, feasible, is_best, lemma_at_most_transitive,
    lemma_best_is_unique, lemma_nothing_precedes_empty, lemma_precedes_asymmetric,
    lemma_precedes_congruent, lemma_precedes_extension, lemma_precedes_total,
    lemma_precedes_transitive, lemma_push, lemma_satisfied_start, path_cost, precedes, reaches, run,
    Path,
};
use crate::requirement::{all_hold, Requirement};
use crate::typing::{
    lemma_typed_mutators_apply, lemma_typed_requirements_fit, typed_by, types_actions, types_facts,
    well_typed, Signature,
};

verus! {

/// How a search ended.
#[derive(Debug)]
pub enum SearchOutcome {
    /// The best path to the goal, as positions in the catalogue in the order
    /// in which the actions are to be taken, and what it costs.
    Found { path: Vec<usize>, cost: usize },
    /// No path of a cost that a `usize` can hold leads to the goal.
    Unreachable,
    /// The search would have had to expand more states than it was allowed.
    Exhausted,
}

/// Whether `path` leads, at a cost that a `usize` can hold, to a state that
/// does not satisfy the goal, and comes before every path to the goal.
pub open spec fn stands_before_goal(
    actions: Seq<ActionView>,
    start: Facts,
    goal: Seq<Requirement>,
    path: Path,
) -> bool {
    &&& feasible(actions, start, path)
    &&& !all_hold(run(actions, start, path), goal)
    &&& path_cost(actions, path) <= usize::MAX
    &&& forall|q: Path| #[trigger] reaches(actions, start, goal, q) ==> precedes(actions, path, q)
}

/// Whether the paths of `crowd` lead to different states and each of them
/// stands before the goal.
pub open spec fn stand_before_goal(
    actions: Seq<ActionView>,
    start: Facts,
    goal: Seq<Requirement>,
    crowd: Seq<Path>,
) -> bool {
    &&& forall|i: int|
        0 <= i < crowd.len() ==> stands_before_goal(actions, start, goal, #[trigger] crowd[i])
    &&& forall|i: int, j: int|
        0 <= i < j < crowd.len() ==> run(actions, start, #[trigger] crowd[i]) != run(
            actions,
            start,
            #[trigger] crowd[j],
        )
}

/// Whether a search has to expand more than `limit` states: that many
/// different states, and one more, stand before the goal.
pub open spec fn needs_more_than(
    actions: Seq<ActionView>,
    start: Facts,
    goal: Seq<Requirement>,
    limit: nat,
) -> bool {
    exists|crowd: Seq<Path>|
        crowd.len() == limit + 1 && #[trigger] stand_before_goal(actions, start, goal, crowd)
}

/// How a search that may expand `limit` states ends.
///
/// It is exhausted exactly if it needs more expansions. Else it finds the
/// best path, if that costs no more than a `usize` can hold, and else
/// reports that no path of such a cost leads to the goal.
pub open spec fn search_ends(
    actions: Seq<ActionView>,
    start: Facts,
    goal: Seq<Requirement>,
    limit: nat,
    outcome: SearchOutcome,
) -> bool {
    match outcome {
        SearchOutcome::Found { path, cost } => {
            &&& !needs_more_than(actions, start, goal, limit)
            &&& is_best(actions, start, goal, path@)
            &&& cost == path_cost(actions, path@)
        },
        SearchOutcome::Unreachable => {
            &&& !needs_more_than(actions, start, goal, limit)
            &&& forall|q: Path| #[trigger]
                reaches(actions, start, goal, q) ==> path_cost(actions, q) > usize::MAX
        },
        SearchOutcome::Exhausted => needs_more_than(actions, start, goal, limit),
    }
}

/// Whether two outcomes are the same: both exhausted, both without a path,
/// or both the same path at the same cost.
pub open spec fn same_outcome(first: SearchOutcome, second: SearchOutcome) -> bool {
    match (first, second) {
        (
            SearchOutcome::Found { path: p, cost: c },
            SearchOutcome::Found { path: q, cost: d },
        ) => p@ == q@ && c == d,
        (SearchOutcome::Unreachable, SearchOutcome::Unreachable) => true,
        (SearchOutcome::Exhausted, SearchOutcome::Exhausted) => true,
        _ => false,
    }
}

/// Searching is deterministic: the facts to start from, the catalogue, the
/// goal and the limit determine how a search ends, down to each step of the
/// path found and to its cost.
pub proof fn lemma_search_is_deterministic(
    actions: Seq<ActionView>,
    start: Facts,
    goal: Seq<Requirement>,
    limit: nat,
    first: SearchOutcome,
    second: SearchOutcome,
)
    requires
        search_ends(actions, start, goal, limit, first),
        search_ends(actions, start, goal, limit, second),
    ensures
        same_outcome(first, second),
{
    match (first, second) {
        (
            SearchOutcome::Found { path: p, cost: c },
            SearchOutcome::Found { path: q, cost: d },
        ) => {
            lemma_best_is_unique(actions, start, goal, p@, q@);
        },
        (SearchOutcome::Found { path: p, cost: c }, SearchOutcome::Unreachable) => {
            assert(reaches(actions, start, goal, p@));
        },
        (SearchOutcome::Unreachable, SearchOutcome::Found { path: q, cost: d }) => {
            assert(reaches(actions, start, goal, q@));
        },
        _ => {},
    }
}

/// What is searched: the catalogue, the facts to start from, and the goal.
struct Problem {
    actions: Seq<ActionView>,
    start: Facts,
    goal: Seq<Requirement>,
}

/// A state that the search has reached and not yet expanded.
struct Node {
    facts: LocalState,
    cost: usize,
    path: Vec<usize>,
}

spec fn end(pb: Problem, path: Path) -> Facts {
    run(pb.actions, pb.start, path)
}

spec fn node_paths(nodes: Seq<Node>) -> Seq<Path> {
    Seq::new(nodes.len(), |k: int| nodes[k].path@)
}

/// Each node holds the facts and the cost of its path, and its facts are
/// typed by `sig`.
spec fn nodes_ok(pb: Problem, sig: Signature, nodes: Seq<Node>) -> bool {
    forall|k: int|
        0 <= k < nodes.len() ==> {
            &&& (#[trigger] nodes[k]).facts@ == end(pb, nodes[k].path@)
            &&& nodes[k].cost == path_cost(pb.actions, nodes[k].path@)
            &&& types_facts(sig, nodes[k].facts@)
        }
}

/// Some expanded path leads to `facts`.
spec fn lands_closed(pb: Problem, closed: Seq<Path>, facts: Facts) -> bool {
    exists|i: int| 0 <= i < closed.len() && end(pb, #[trigger] closed[i]) == facts
}

/// Some waiting path is at most `p`.
spec fn has_bound(pb: Problem, open: Seq<Path>, p: Path) -> bool {
    exists|k: int| 0 <= k < open.len() && at_most(pb.actions, #[trigger] open[k], p)
}

/// Some waiting path leads where `p` leads and is at most `p`.
spec fn has_rival(pb: Problem, open: Seq<Path>, p: Path) -> bool {
    exists|k: int|
        0 <= k < open.len() && end(pb, #[trigger] open[k]) == end(pb, p) && at_most(
            pb.actions,
            open[k],
            p,
        )
}

/// The state to which `p` leads is expanded or waits on a path at most `p`,
/// unless the cost of `p` is beyond what a `usize` can hold.
spec fn covered(pb: Problem, closed: Seq<Path>, open: Seq<Path>, p: Path) -> bool {
    ||| lands_closed(pb, closed, end(pb, p))
    ||| has_rival(pb, open, p)
    ||| path_cost(pb.actions, p) > usize::MAX
}

spec fn closed_ok(pb: Problem, closed: Seq<Path>) -> bool {
    &&& forall|i: int|
        0 <= i < closed.len() ==> {
            &&& feasible(pb.actions, pb.start, #[trigger] closed[i])
            &&& !all_hold(end(pb, closed[i]), pb.goal)
            &&& path_cost(pb.actions, closed[i]) <= usize::MAX
        }
    &&& forall|i: int, j: int|
        0 <= i < j < closed.len() ==> end(pb, #[trigger] closed[i]) != end(
            pb,
            #[trigger] closed[j],
        )
}

/// Each expanded path is at most every path to the same state.
spec fn closed_minimal(pb: Problem, closed: Seq<Path>) -> bool {
    forall|i: int, q: Path|
        #![trigger closed[i], feasible(pb.actions, pb.start, q)]
        0 <= i < closed.len() && feasible(pb.actions, pb.start, q) && end(pb, q) == end(
            pb,
            closed[i],
        ) ==> at_most(pb.actions, closed[i], q)
}

/// Each expanded path comes before every path to the goal.
spec fn closed_before_goal(pb: Problem, closed: Seq<Path>) -> bool {
    forall|i: int, q: Path|
        #![trigger closed[i], reaches(pb.actions, pb.start, pb.goal, q)]
        0 <= i < closed.len() && reaches(pb.actions, pb.start, pb.goal, q) ==> precedes(
            pb.actions,
            closed[i],
            q,
        )
}

/// Each step that can be taken from an expanded state is covered.
spec fn successors_covered(pb: Problem, closed: Seq<Path>, open: Seq<Path>) -> bool {
    forall|i: int, a: usize|
        #![trigger closed[i], pb.actions[a as int]]
        0 <= i < closed.len() && a < pb.actions.len() && pb.actions[a as int].applicable(
            end(pb, closed[i]),
        ) ==> covered(pb, closed, open, closed[i].push(a))
}

spec fn open_ok(pb: Problem, open: Seq<Path>) -> bool {
    forall|k: int|
        0 <= k < open.len() ==> {
            &&& feasible(pb.actions, pb.start, #[trigger] open[k])
            &&& path_cost(pb.actions, open[k]) <= usize::MAX
        }
}

/// What holds of the expanded and the waiting paths between two rounds of
/// the search.
spec fn search_inv(pb: Problem, closed: Seq<Path>, open: Seq<Path>) -> bool {
    &&& closed_ok(pb, closed)
    &&& closed_minimal(pb, closed)
    &&& closed_before_goal(pb, closed)
    &&& successors_covered(pb, closed, open)
    &&& covered(pb, closed, open, Seq::<usize>::empty())
    &&& open_ok(pb, open)
}

/// The waiting path at `m` is at most every waiting path.
spec fn is_least(pb: Problem, open: Seq<Path>, m: int) -> bool {
    &&& 0 <= m < open.len()
    &&& forall|k: int| 0 <= k < open.len() ==> at_most(pb.actions, open[m], #[trigger] open[k])
}

/// `successors` holds feasible paths only and, for each step that can be
/// taken at the end of `p`, the path `p` with that step, unless its cost is
/// beyond what a `usize` can hold.
spec fn is_expansion(pb: Problem, p: Path, successors: Seq<Path>) -> bool {
    &&& open_ok(pb, successors)
    &&& forall|a: usize|
        a < pb.actions.len() && (#[trigger] pb.actions[a as int]).applicable(end(pb, p))
            ==> successors.contains(p.push(a)) || path_cost(pb.actions, p.push(a)) > usize::MAX
}

/// Every feasible path of a cost that a `usize` can hold leads to an
/// expanded state or has a waiting path that is at most it.
proof fn lemma_bound(pb: Problem, closed: Seq<Path>, open: Seq<Path>, q: Path)
    requires
        search_inv(pb, closed, open),
        feasible(pb.actions, pb.start, q),
        path_cost(pb.actions, q) <= usize::MAX,
    ensures
        lands_closed(pb, closed, end(pb, q)) || has_bound(pb, open, q),
    decreases q.len(),
{
    if q.len() == 0 {
        assert(q =~= Seq::<usize>::empty());
        if has_rival(pb, open, q) {
            let k = choose|k: int|
                0 <= k < open.len() && end(pb, #[trigger] open[k]) == end(pb, q) && at_most(
                    pb.actions,
                    open[k],
                    q,
                );
            assert(at_most(pb.actions, open[k], q));
        }
    } else {
        let front = q.drop_last();
        let a = q.last();
        assert(q =~= front.push(a));
        lemma_push(pb.actions, pb.start, front, a);
        lemma_bound(pb, closed, open, front);
        lemma_precedes_extension(pb.actions, front, a);
        if has_bound(pb, open, front) {
            let k = choose|k: int|
                0 <= k < open.len() && at_most(pb.actions, #[trigger] open[k], front);
            lemma_at_most_transitive(pb.actions, open[k], front, q);
        } else {
            let i = choose|i: int|
                0 <= i < closed.len() && end(pb, #[trigger] closed[i]) == end(pb, front);
            assert(at_most(pb.actions, closed[i], front));
            let p = closed[i].push(a);
            assert(pb.actions[a as int].applicable(end(pb, closed[i])));
            assert(covered(pb, closed, open, p));
            lemma_push(pb.actions, pb.start, closed[i], a);
            assert(end(pb, p) == end(pb, q));
            if closed[i] != front {
                lemma_precedes_congruent(pb.actions, closed[i], front, a);
            }
            assert(at_most(pb.actions, p, q));
            if has_rival(pb, open, p) {
                let k = choose|k: int|
                    0 <= k < open.len() && end(pb, #[trigger] open[k]) == end(pb, p) && at_most(
                        pb.actions,
                        open[k],
                        p,
                    );
                lemma_at_most_transitive(pb.actions, open[k], p, q);
            }
        }
    }
}

/// The least waiting path is at most every feasible path to a state that
/// is not expanded.
proof fn lemma_least_bounds(pb: Problem, closed: Seq<Path>, open: Seq<Path>, m: int, q: Path)
    requires
        search_inv(pb, closed, open),
        is_least(pb, open, m),
        feasible(pb.actions, pb.start, q),
        !lands_closed(pb, closed, end(pb, q)),
    ensures
        at_most(pb.actions, open[m], q),
{
    if path_cost(pb.actions, q) <= usize::MAX {
        lemma_bound(pb, closed, open, q);
        let k = choose|k: int| 0 <= k < open.len() && at_most(pb.actions, #[trigger] open[k], q);
        lemma_at_most_transitive(pb.actions, open[m], open[k], q);
    }
}

/// A rival of `p` stays one when the waiting path at `m` is taken out,
/// unless it was that path.
proof fn lemma_rival_survives(pb: Problem, open: Seq<Path>, m: int, p: Path)
    requires
        0 <= m < open.len(),
        has_rival(pb, open, p),
    ensures
        has_rival(pb, open.remove(m), p) || end(pb, open[m]) == end(pb, p),
{
    let k = choose|k: int|
        0 <= k < open.len() && end(pb, #[trigger] open[k]) == end(pb, p) && at_most(
            pb.actions,
            open[k],
            p,
        );
    let rest = open.remove(m);
    if k < m {
        assert(rest[k] == open[k]);
    } else if k > m {
        assert(rest[k - 1] == open[k]);
    }
}

/// What is covered stays covered when a waiting path to an expanded state
/// is taken out.
proof fn lemma_covered_discard(pb: Problem, closed: Seq<Path>, open: Seq<Path>, m: int, p: Path)
    requires
        0 <= m < open.len(),
        lands_closed(pb, closed, end(pb, open[m])),
        covered(pb, closed, open, p),
    ensures
        covered(pb, closed, open.remove(m), p),
{
    if has_rival(pb, open, p) {
        lemma_rival_survives(pb, open, m, p);
    }
}

/// The invariant is kept when a waiting path to an expanded state is taken
/// out.
proof fn lemma_discard(pb: Problem, closed: Seq<Path>, open: Seq<Path>, m: int)
    requires
        search_inv(pb, closed, open),
        0 <= m < open.len(),
        lands_closed(pb, closed, end(pb, open[m])),
    ensures
        search_inv(pb, closed, open.remove(m)),
{
    let rest = open.remove(m);
    assert forall|k: int| 0 <= k < rest.len() implies {
        &&& feasible(pb.actions, pb.start, #[trigger] rest[k])
        &&& path_cost(pb.actions, rest[k]) <= usize::MAX
    } by {
        if k < m {
            assert(rest[k] == open[k]);
        } else {
            assert(rest[k] == open[k + 1]);
        }
    }
    assert forall|i: int, a: usize|
        #![trigger closed[i], pb.actions[a as int]]
        0 <= i < closed.len() && a < pb.actions.len() && pb.actions[a as int].applicable(
            end(pb, closed[i]),
        ) implies covered(pb, closed, rest, closed[i].push(a)) by {
        lemma_covered_discard(pb, closed, open, m, closed[i].push(a));
    }
    lemma_covered_discard(pb, closed, open, m, Seq::<usize>::empty());
}

/// The least waiting path is the best path if it leads to the goal.
proof fn lemma_found(pb: Problem, closed: Seq<Path>, open: Seq<Path>, m: int)
    requires
        search_inv(pb, closed, open),
        is_least(pb, open, m),
        all_hold(end(pb, open[m]), pb.goal),
    ensures
        is_best(pb.actions, pb.start, pb.goal, open[m]),
{
    assert forall|q: Path| #[trigger] reaches(pb.actions, pb.start, pb.goal, q) implies at_most(
        pb.actions,
        open[m],
        q,
    ) by {
        if lands_closed(pb, closed, end(pb, q)) {
            let i = choose|i: int|
                0 <= i < closed.len() && end(pb, #[trigger] closed[i]) == end(pb, q);
            assert(!all_hold(end(pb, closed[i]), pb.goal));
        }
        lemma_least_bounds(pb, closed, open, m, q);
    }
}

/// With no path waiting, every path to the goal costs more than a `usize`
/// can hold.
proof fn lemma_nothing_waits(pb: Problem, closed: Seq<Path>, open: Seq<Path>)
    requires
        search_inv(pb, closed, open),
        open.len() == 0,
    ensures
        forall|q: Path| #[trigger]
            reaches(pb.actions, pb.start, pb.goal, q) ==> path_cost(pb.actions, q) > usize::MAX,
{
    assert forall|q: Path| #[trigger] reaches(pb.actions, pb.start, pb.goal, q) implies path_cost(
        pb.actions,
        q,
    ) > usize::MAX by {
        if path_cost(pb.actions, q) <= usize::MAX {
            lemma_bound(pb, closed, open, q);
            let i = choose|i: int|
                0 <= i < closed.len() && end(pb, #[trigger] closed[i]) == end(pb, q);
            assert(!all_hold(end(pb, closed[i]), pb.goal));
        }
    }
}

/// The expanded paths and the least waiting path, if it leads to a state
/// that is not expanded and does not satisfy the goal, stand before the
/// goal.
proof fn lemma_closing(pb: Problem, closed: Seq<Path>, open: Seq<Path>, m: int)
    requires
        search_inv(pb, closed, open),
        is_least(pb, open, m),
        !lands_closed(pb, closed, end(pb, open[m])),
        !all_hold(end(pb, open[m]), pb.goal),
    ensures
        closed_ok(pb, closed.push(open[m])),
        closed_minimal(pb, closed.push(open[m])),
        closed_before_goal(pb, closed.push(open[m])),
{
    let n = open[m];
    let more = closed.push(n);
    assert forall|i: int| 0 <= i < more.len() implies {
        &&& feasible(pb.actions, pb.start, #[trigger] more[i])
        &&& !all_hold(end(pb, more[i]), pb.goal)
        &&& path_cost(pb.actions, more[i]) <= usize::MAX
    } by {
        if i < closed.len() {
            assert(more[i] == closed[i]);
        }
    }
    assert forall|i: int, j: int| 0 <= i < j < more.len() implies end(pb, #[trigger] more[i])
        != end(pb, #[trigger] more[j]) by {
        assert(more[i] == closed[i]);
        if j < closed.len() {
            assert(more[j] == closed[j]);
        }
    }
    assert forall|i: int, q: Path|
        #![trigger more[i], feasible(pb.actions, pb.start, q)]
        0 <= i < more.len() && feasible(pb.actions, pb.start, q) && end(pb, q) == end(
            pb,
            more[i],
        ) implies at_most(pb.actions, more[i], q) by {
        if i < closed.len() {
            assert(more[i] == closed[i]);
        } else {
            lemma_least_bounds(pb, closed, open, m, q);
        }
    }
    assert forall|i: int, q: Path|
        #![trigger more[i], reaches(pb.actions, pb.start, pb.goal, q)]
        0 <= i < more.len() && reaches(pb.actions, pb.start, pb.goal, q) implies precedes(
            pb.actions,
            more[i],
            q,
        ) by {
        if i < closed.len() {
            assert(more[i] == closed[i]);
        } else {
            if lands_closed(pb, closed, end(pb, q)) {
                let c = choose|c: int|
                    0 <= c < closed.len() && end(pb, #[trigger] closed[c]) == end(pb, q);
                assert(!all_hold(end(pb, closed[c]), pb.goal));
            }
            lemma_least_bounds(pb, closed, open, m, q);
        }
    }
}

/// What is covered stays covered when the waiting path at `m` is expanded.
proof fn lemma_covered_expand(
    pb: Problem,
    closed: Seq<Path>,
    open: Seq<Path>,
    m: int,
    successors: Seq<Path>,
    p: Path,
)
    requires
        0 <= m < open.len(),
        covered(pb, closed, open, p),
    ensures
        covered(pb, closed.push(open[m]), open.remove(m) + successors, p),
{
    let more = closed.push(open[m]);
    let rest = open.remove(m);
    let next = rest + successors;
    if lands_closed(pb, closed, end(pb, p)) {
        let i = choose|i: int| 0 <= i < closed.len() && end(pb, #[trigger] closed[i]) == end(pb, p);
        assert(more[i] == closed[i]);
    } else if has_rival(pb, open, p) {
        lemma_rival_survives(pb, open, m, p);
        if has_rival(pb, rest, p) {
            let k = choose|k: int|
                0 <= k < rest.len() && end(pb, #[trigger] rest[k]) == end(pb, p) && at_most(
                    pb.actions,
                    rest[k],
                    p,
                );
            assert(next[k] == rest[k]);
        } else {
            assert(more[closed.len() as int] == open[m]);
        }
    }
}

/// The invariant is kept when the least waiting path, which leads to a
/// state that is not expanded and does not satisfy the goal, is expanded.
proof fn lemma_expand(
    pb: Problem,
    closed: Seq<Path>,
    open: Seq<Path>,
    m: int,
    successors: Seq<Path>,
)
    requires
        search_inv(pb, closed, open),
        is_least(pb, open, m),
        !lands_closed(pb, closed, end(pb, open[m])),
        !all_hold(end(pb, open[m]), pb.goal),
        is_expansion(pb, open[m], successors),
    ensures
        search_inv(pb, closed.push(open[m]), open.remove(m) + successors),
{
    let n = open[m];
    let more = closed.push(n);
    let rest = open.remove(m);
    let next = rest + successors;
    lemma_closing(pb, closed, open, m);
    assert forall|k: int| 0 <= k < next.len() implies {
        &&& feasible(pb.actions, pb.start, #[trigger] next[k])
        &&& path_cost(pb.actions, next[k]) <= usize::MAX
    } by {
        if k < rest.len() {
            assert(next[k] == rest[k]);
            if k < m {
                assert(rest[k] == open[k]);
            } else {
                assert(rest[k] == open[k + 1]);
            }
        } else {
            assert(next[k] == successors[k - rest.len()]);
        }
    }
    assert forall|i: int, a: usize|
        #![trigger more[i], pb.actions[a as int]]
        0 <= i < more.len() && a < pb.actions.len() && pb.actions[a as int].applicable(
            end(pb, more[i]),
        ) implies covered(pb, more, next, more[i].push(a)) by {
        if i < closed.len() {
            assert(more[i] == closed[i]);
            lemma_covered_expand(pb, closed, open, m, successors, closed[i].push(a));
        } else {
            assert(more[i] == n);
            let p = n.push(a);
            if successors.contains(p) {
                let j = choose|j: int| 0 <= j < successors.len() && successors[j] == p;
                assert(next[rest.len() + j] == p);
                assert(has_rival(pb, next, p));
            }
        }
    }
    lemma_covered_expand(pb, closed, open, m, successors, Seq::<usize>::empty());
}

/// More values than `n`, each below `n`, are not all different.
proof fn lemma_pigeonhole(f: Seq<int>, n: nat)
    requires
        f.len() > n,
        forall|j: int| #![trigger f[j]] 0 <= j < f.len() ==> 0 <= f[j] && f[j] < n,
    ensures
        exists|a: int, b: int| 0 <= a < b < f.len() && #[trigger] f[a] == #[trigger] f[b],
    decreases n,
{
    if n == 0 {
        assert(f[0] < 0);
    } else {
        let top = n - 1;
        if exists|j: int| 0 <= j < f.len() && #[trigger] f[j] == top {
            let j0 = choose|j: int| 0 <= j < f.len() && #[trigger] f[j] == top;
            if exists|j: int| 0 <= j < f.len() && j != j0 && #[trigger] f[j] == top {
                let j1 = choose|j: int| 0 <= j < f.len() && j != j0 && #[trigger] f[j] == top;
                if j0 < j1 {
                    assert(f[j0] == f[j1]);
                } else {
                    assert(f[j1] == f[j0]);
                }
            } else {
                let g = f.remove(j0);
                assert forall|j: int| #![trigger g[j]] 0 <= j < g.len() implies 0 <= g[j] && g[j]
                    < top by {
                    if j < j0 {
                        assert(g[j] == f[j]);
                    } else {
                        assert(g[j] == f[j + 1]);
                    }
                }
                lemma_pigeonhole(g, top as nat);
                let (a, b) = choose|a: int, b: int|
                    0 <= a < b < g.len() && #[trigger] g[a] == #[trigger] g[b];
                let a1 = if a < j0 {
                    a
                } else {
                    a + 1
                };
                let b1 = if b < j0 {
                    b
                } else {
                    b + 1
                };
                assert(g[a] == f[a1]);
                assert(g[b] == f[b1]);
                assert(f[a1] == f[b1]);
            }
        } else {
            lemma_pigeonhole(f, top as nat);
        }
    }
}

/// If every path that stands before the goal leads to one of at most
/// `limit` expanded states, no search needs more than `limit` expansions.
proof fn lemma_room(pb: Problem, closed: Seq<Path>, limit: nat)
    requires
        closed.len() <= limit,
        forall|q: Path| #[trigger]
            stands_before_goal(pb.actions, pb.start, pb.goal, q) ==> lands_closed(
                pb,
                closed,
                end(pb, q),
            ),
    ensures
        !needs_more_than(pb.actions, pb.start, pb.goal, limit),
{
    if needs_more_than(pb.actions, pb.start, pb.goal, limit) {
        let crowd = choose|crowd: Seq<Path>|
            crowd.len() == limit + 1 && #[trigger] stand_before_goal(
                pb.actions,
                pb.start,
                pb.goal,
                crowd,
            );
        let f = Seq::new(
            crowd.len(),
            |j: int|
                choose|i: int|
                    0 <= i < closed.len() && end(pb, #[trigger] closed[i]) == end(pb, crowd[j]),
        );
        assert forall|j: int| #![trigger f[j]] 0 <= j < f.len() implies 0 <= f[j] && f[j] < limit
            && end(pb, closed[f[j]]) == end(pb, crowd[j]) by {
            assert(stands_before_goal(pb.actions, pb.start, pb.goal, crowd[j]));
            assert(lands_closed(pb, closed, end(pb, crowd[j])));
        }
        lemma_pigeonhole(f, limit);
        let (a, b) = choose|a: int, b: int|
            0 <= a < b < f.len() && #[trigger] f[a] == #[trigger] f[b];
        assert(end(pb, crowd[a]) == end(pb, closed[f[a]]));
        assert(end(pb, crowd[b]) == end(pb, closed[f[b]]));
        assert(run(pb.actions, pb.start, crowd[a]) != run(pb.actions, pb.start, crowd[b]));
    }
}

/// When the least waiting path leads to the goal, every path that stands
/// before the goal leads to an expanded state.
proof fn lemma_room_when_found(pb: Problem, closed: Seq<Path>, open: Seq<Path>, m: int, limit: nat)
    requires
        search_inv(pb, closed, open),
        is_least(pb, open, m),
        all_hold(end(pb, open[m]), pb.goal),
        closed.len() <= limit,
    ensures
        !needs_more_than(pb.actions, pb.start, pb.goal, limit),
{
    assert(reaches(pb.actions, pb.start, pb.goal, open[m]));
    assert forall|q: Path| #[trigger]
        stands_before_goal(pb.actions, pb.start, pb.goal, q) implies lands_closed(
        pb,
        closed,
        end(pb, q),
    ) by {
        assert(precedes(pb.actions, q, open[m]));
        lemma_precedes_asymmetric(pb.actions, q, open[m]);
        if !lands_closed(pb, closed, end(pb, q)) {
            lemma_least_bounds(pb, closed, open, m, q);
        }
    }
    lemma_room(pb, closed, limit);
}

/// When no path waits, every path that stands before the goal leads to an
/// expanded state.
proof fn lemma_room_when_nothing_waits(pb: Problem, closed: Seq<Path>, open: Seq<Path>, limit: nat)
    requires
        search_inv(pb, closed, open),
        open.len() == 0,
        closed.len() <= limit,
    ensures
        !needs_more_than(pb.actions, pb.start, pb.goal, limit),
{
    assert forall|q: Path| #[trigger]
        stands_before_goal(pb.actions, pb.start, pb.goal, q) implies lands_closed(
        pb,
        closed,
        end(pb, q),
    ) by {
        lemma_bound(pb, closed, open, q);
    }
    lemma_room(pb, closed, limit);
}

/// Whether `p` takes the earlier action at the first step in which it
/// differs from `q`.
fn takes_earlier(p: &Vec<usize>, q: &Vec<usize>) -> (earlier: bool)
    requires
        p@.len() == q@.len(),
    ensures
        earlier == earlier_at_first_difference(p@, q@),
{
    let n: usize = p.len();
    let mut i: usize = 0;
    while i < n
        invariant
            n == p@.len(),
            n == q@.len(),
            i <= n,
            agree_before(p@, q@, i as int),
        decreases n - i,
    {
        if p[i] < q[i] {
            return true;
        }
        if p[i] > q[i] {
            proof {
                if earlier_at_first_difference(p@, q@) {
                    let w = choose|w: int|
                        0 <= w < p@.len() && w < q@.len() && #[trigger] agree_before(p@, q@, w)
                            && p@[w] < q@[w];
                    if w > i {
                        assert(p@[i as int] == q@[i as int]);
                    } else if w < i {
                        assert(p@[w] == q@[w]);
                    }
                }
            }
            return false;
        }
        i += 1;
    }
    proof {
        if earlier_at_first_difference(p@, q@) {
            let w = choose|w: int|
                0 <= w < p@.len() && w < q@.len() && #[trigger] agree_before(p@, q@, w) && p@[w]
                    < q@[w];
            assert(p@[w] == q@[w]);
        }
    }
    false
}

/// Whether the path of `a` comes before the path of `b`.
fn node_precedes(a: &Node, b: &Node, Ghost(actions): Ghost<Seq<ActionView>>) -> (before: bool)
    requires
        a.cost == path_cost(actions, a.path@),
        b.cost == path_cost(actions, b.path@),
    ensures
        before == precedes(actions, a.path@, b.path@),
{
    if a.cost != b.cost {
        a.cost < b.cost
    } else if a.path.len() != b.path.len() {
        a.path.len() < b.path.len()
    } else {
        takes_earlier(&a.path, &b.path)
    }
}

/// The position of a node whose path is at most the path of every node.
fn least_index(open: &Vec<Node>, Ghost(pb): Ghost<Problem>) -> (m: usize)
    requires
        open@.len() > 0,
        forall|k: int|
            0 <= k < open@.len() ==> (#[trigger] open@[k]).cost == path_cost(
                pb.actions,
                open@[k].path@,
            ),
    ensures
        is_least(pb, node_paths(open@), m as int),
{
    let ghost paths = node_paths(open@);
    let n: usize = open.len();
    let mut m: usize = 0;
    let mut k: usize = 1;
    proof {
        lemma_precedes_asymmetric(pb.actions, paths[0], paths[0]);
    }
    while k < n
        invariant
            n == open@.len(),
            paths == node_paths(open@),
            1 <= k <= n,
            m < k,
            forall|j: int|
                0 <= j < open@.len() ==> (#[trigger] open@[j]).cost == path_cost(
                    pb.actions,
                    open@[j].path@,
                ),
            forall|j: int|
                0 <= j < k ==> !precedes(pb.actions, #[trigger] paths[j], paths[m as int]),
        decreases n - k,
    {
        if node_precedes(&open[k], &open[m], Ghost(pb.actions)) {
            proof {
                assert forall|j: int| 0 <= j < k + 1 implies !precedes(
                    pb.actions,
                    #[trigger] paths[j],
                    paths[k as int],
                ) by {
                    if precedes(pb.actions, paths[j], paths[k as int]) {
                        if j < k {
                            lemma_precedes_transitive(
                                pb.actions,
                                paths[j],
                                paths[k as int],
                                paths[m as int],
                            );
                        } else {
                            lemma_precedes_asymmetric(pb.actions, paths[j], paths[j]);
                        }
                    }
                }
            }
            m = k;
        }
        k += 1;
    }
    proof {
        assert forall|j: int| 0 <= j < paths.len() implies at_most(
            pb.actions,
            paths[m as int],
            #[trigger] paths[j],
        ) by {
            if paths[m as int] != paths[j] {
                lemma_precedes_total(pb.actions, paths[m as int], paths[j]);
            }
        }
    }
    m
}

/// Whether one of `closed` holds the facts of `state`.
fn contains_state(closed: &Vec<LocalState>, state: &LocalState) -> (found: bool)
    ensures
        found == exists|i: int| 0 <= i < closed@.len() && (#[trigger] closed@[i])@ == state@,
{
    let n: usize = closed.len();
    let mut i: usize = 0;
    while i < n
        invariant
            n == closed@.len(),
            i <= n,
            forall|j: int| 0 <= j < i ==> (#[trigger] closed@[j])@ != state@,
        decreases n - i,
    {
        if closed[i].same_facts(state) {
            return true;
        }
        i += 1;
    }
    false
}

/// A copy of `path` with `position` as one more step.
fn extended(path: &Vec<usize>, position: usize) -> (longer: Vec<usize>)
    ensures
        longer@ == path@.push(position),
{
    let n: usize = path.len();
    let mut longer: Vec<usize> = Vec::new();
    let mut i: usize = 0;
    while i < n
        invariant
            n == path@.len(),
            i <= n,
            longer@ == path@.take(i as int),
        decreases n - i,
    {
        longer.push(path[i]);
        assert(longer@ =~= path@.take(i as int + 1));
        i += 1;
    }
    longer.push(position);
    assert(longer@ =~= path@.push(position));
    longer
}

/// The nodes that one step leads to from `node`.
fn expand(
    node: &Node,
    actions: &Vec<Action>,
    Ghost(pb): Ghost<Problem>,
    Ghost(sig): Ghost<Signature>,
) -> (successors: Vec<Node>)
    requires
        pb.actions == action_views(actions@),
        types_actions(sig, pb.actions),
        types_facts(sig, node.facts@),
        node.facts@ == end(pb, node.path@),
        node.cost == path_cost(pb.actions, node.path@),
        feasible(pb.actions, pb.start, node.path@),
    ensures
        nodes_ok(pb, sig, successors@),
        is_expansion(pb, node.path@, node_paths(successors@)),
{
    let ghost p = node.path@;
    let n: usize = actions.len();
    let mut successors: Vec<Node> = Vec::new();
    let mut a: usize = 0;
    while a < n
        invariant
            n == actions@.len(),
            a <= n,
            p == node.path@,
            pb.actions == action_views(actions@),
            types_actions(sig, pb.actions),
            types_facts(sig, node.facts@),
            node.facts@ == end(pb, p),
            node.cost == path_cost(pb.actions, p),
            feasible(pb.actions, pb.start, p),
            nodes_ok(pb, sig, successors@),
            open_ok(pb, node_paths(successors@)),
            forall|b: usize|
                b < a && (#[trigger] pb.actions[b as int]).applicable(end(pb, p)) ==> node_paths(
                    successors@,
                ).contains(p.push(b)) || path_cost(pb.actions, p.push(b)) > usize::MAX,
        decreases n - a,
    {
        let action = &actions[a];
        let ghost view = pb.actions[a as int];
        assert(view == action@);
        proof {
            lemma_typed_requirements_fit(sig, node.facts@, view.preconditions);
            lemma_typed_mutators_apply(sig, node.facts@, view.mutators);
            lemma_push(pb.actions, pb.start, p, a);
        }
        let ghost before = node_paths(successors@);
        if action.is_applicable(&node.facts) {
            match node.cost.checked_add(action.cost) {
                Some(cost) => {
                    let facts = action.apply(&node.facts);
                    let path = extended(&node.path, a);
                    successors.push(Node { facts, cost, path });
                    proof {
                        let after = node_paths(successors@);
                        assert(after =~= before.push(p.push(a)));
                        assert(after[before.len() as int] == p.push(a));
                        assert forall|b: usize|
                            b < a + 1 && (#[trigger] pb.actions[b as int]).applicable(
                                end(pb, p),
                            ) implies after.contains(p.push(b)) || path_cost(
                            pb.actions,
                            p.push(b),
                        ) > usize::MAX by {
                            if b < a && before.contains(p.push(b)) {
                                let j = choose|j: int|
                                    0 <= j < before.len() && before[j] == p.push(b);
                                assert(after[j] == p.push(b));
                            }
                        }
                    }
                },
                None => {},
            }
        }
        a += 1;
    }
    successors
}

/// Searches for the best path from `start` to `goal`, expanding at most
/// `max_expansions` states.
///
/// The search takes the waiting path that comes before all others, drops it
/// if its state was expanded before, ends with it if its state satisfies the
/// goal, and else expands it. A path whose cost a `usize` cannot hold is
/// never taken up.
pub fn search(
    start: &LocalState,
    actions: &Vec<Action>,
    goal: &Goal,
    max_expansions: usize,
) -> (outcome: SearchOutcome)
    requires
        well_typed(start@, action_views(actions@), goal@),
    ensures
        search_ends(action_views(actions@), start@, goal@, max_expansions as nat, outcome),
        all_hold(start@, goal@) ==> (outcome matches SearchOutcome::Found { path, cost }
            && path@.len() == 0 && cost == 0),
        outcome matches SearchOutcome::Found { path, cost } ==> forall|q: Path| #[trigger]
            reaches(action_views(actions@), start@, goal@, q) ==> cost <= path_cost(
                action_views(actions@),
                q,
            ),
{
    let ghost pb = Problem { actions: action_views(actions@), start: start@, goal: goal@ };
    let ghost sig = choose|sig: Signature| typed_by(sig, pb.start, pb.actions, pb.goal);
    let mut open: Vec<Node> = Vec::new();
    open.push(Node { facts: start.clone(), cost: 0, path: Vec::new() });
    let mut closed: Vec<LocalState> = Vec::new();
    let ghost mut closed_paths: Seq<Path> = Seq::empty();
    proof {
        let paths = node_paths(open@);
        assert(paths[0] =~= Seq::<usize>::empty());
        assert(has_rival(pb, paths, Seq::<usize>::empty()));
    }
    loop
        invariant
            pb.actions == action_views(actions@),
            pb.start == start@,
            pb.goal == goal@,
            typed_by(sig, pb.start, pb.actions, pb.goal),
            search_inv(pb, closed_paths, node_paths(open@)),
            nodes_ok(pb, sig, open@),
            closed@.len() == closed_paths.len(),
            forall|i: int|
                0 <= i < closed@.len() ==> (#[trigger] closed@[i])@ == end(pb, closed_paths[i]),
            closed@.len() <= max_expansions,
        decreases max_expansions - closed@.len(), open@.len(),
    {
        if open.len() == 0 {
            proof {
                lemma_nothing_waits(pb, closed_paths, node_paths(open@));
                lemma_room_when_nothing_waits(
                    pb,
                    closed_paths,
                    node_paths(open@),
                    max_expansions as nat,
                );
                if all_hold(pb.start, pb.goal) {
                    lemma_satisfied_start(pb.actions, pb.start, pb.goal);
                }
            }
            return SearchOutcome::Unreachable;
        }
        let m = least_index(&open, Ghost(pb));
        let ghost waiting = node_paths(open@);
        let ghost nodes = open@;
        let node = open.remove(m);
        proof {
            assert(node_paths(open@) =~= waiting.remove(m as int));
            assert(node == nodes[m as int]);
            assert(node.path@ == waiting[m as int]);
            assert forall|k: int| 0 <= k < open@.len() implies {
                &&& (#[trigger] open@[k]).facts@ == end(pb, open@[k].path@)
                &&& open@[k].cost == path_cost(pb.actions, open@[k].path@)
                &&& types_facts(sig, open@[k].facts@)
            } by {
                if k < m {
                    assert(open@[k] == nodes[k]);
                } else {
                    assert(open@[k] == nodes[k + 1]);
                }
            }
        }
        let expanded_before = contains_state(&closed, &node.facts);
        proof {
            if expanded_before {
                let i = choose|i: int|
                    0 <= i < closed@.len() && (#[trigger] closed@[i])@ == node.facts@;
                assert(end(pb, closed_paths[i]) == end(pb, waiting[m as int]));
            }
            if lands_closed(pb, closed_paths, end(pb, waiting[m as int])) {
                let i = choose|i: int|
                    0 <= i < closed_paths.len() && end(pb, #[trigger] closed_paths[i]) == end(
                        pb,
                        waiting[m as int],
                    );
                assert(closed@[i]@ == node.facts@);
            }
            assert(expanded_before == lands_closed(pb, closed_paths, end(pb, waiting[m as int])));
        }
        if expanded_before {
            proof {
                lemma_discard(pb, closed_paths, waiting, m as int);
            }
        } else {
            proof {
                lemma_typed_requirements_fit(sig, node.facts@, pb.goal);
            }
            if goal.is_satisfied_by(&node.facts) {
                proof {
                    let best = waiting[m as int];
                    lemma_found(pb, closed_paths, waiting, m as int);
                    lemma_room_when_found(
                        pb,
                        closed_paths,
                        waiting,
                        m as int,
                        max_expansions as nat,
                    );
                    if all_hold(pb.start, pb.goal) {
                        lemma_satisfied_start(pb.actions, pb.start, pb.goal);
                        lemma_best_is_unique(
                            pb.actions,
                            pb.start,
                            pb.goal,
                            best,
                            Seq::<usize>::empty(),
                        );
                    }
                    assert forall|q: Path| #[trigger]
                        reaches(pb.actions, pb.start, pb.goal, q) implies node.cost <= path_cost(
                        pb.actions,
                        q,
                    ) by {
                        assert(at_most(pb.actions, best, q));
                    }
                }
                return SearchOutcome::Found { path: node.path, cost: node.cost };
            }
            if closed.len() >= max_expansions {
                proof {
                    lemma_closing(pb, closed_paths, waiting, m as int);
                    let crowd = closed_paths.push(waiting[m as int]);
                    assert forall|i: int| 0 <= i < crowd.len() implies stands_before_goal(
                        pb.actions,
                        pb.start,
                        pb.goal,
                        #[trigger] crowd[i],
                    ) by {
                        assert(feasible(pb.actions, pb.start, crowd[i]));
                    }
                    assert(stand_before_goal(pb.actions, pb.start, pb.goal, crowd));
                    if all_hold(pb.start, pb.goal) {
                        lemma_satisfied_start(pb.actions, pb.start, pb.goal);
                        lemma_nothing_precedes_empty(pb.actions, waiting[m as int]);
                    }
                }
                return SearchOutcome::Exhausted;
            }
            let mut successors = expand(&node, actions, Ghost(pb), Ghost(sig));
            let ghost added = node_paths(successors@);
            let ghost rest = open@;
            let ghost fresh = successors@;
            proof {
                lemma_expand(pb, closed_paths, waiting, m as int, added);
            }
            open.append(&mut successors);
            closed.push(node.facts);
            proof {
                assert(node_paths(open@) =~= waiting.remove(m as int) + added);
                assert forall|k: int| 0 <= k < open@.len() implies {
                    &&& (#[trigger] open@[k]).facts@ == end(pb, open@[k].path@)
                    &&& open@[k].cost == path_cost(pb.actions, open@[k].path@)
                    &&& types_facts(sig, open@[k].facts@)
                } by {
                    if k < rest.len() {
                        assert(open@[k] == rest[k]);
                    } else {
                        assert(open@[k] == fresh[k - rest.len()]);
                    }
                }
                closed_paths = closed_paths.push(waiting[m as int]);
            }
        }
    }
}

} // verus!
