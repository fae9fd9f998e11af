//! Plans: what a search found for one goal, as the effects of its actions,
//! and the choice among several goals.

use vstd::prelude::*;
use crate::action::{
    action_views, clone_effects, effect_views, Action, ActionView, Effect, EffectView,
};
use crate::goal::{goal_views, Goal};
use crate::localstate::{Facts, LocalState};
use crate::mutator::apply_all;
use crate::path::{
    feasible, is_best, lemma_best_is_unique, lemma_satisfied_start, path_cost, reaches, run, Path,
};
use crate::requirement::{all_hold, Requirement};
use crate::search::{needs_more_than, search, search_ends, SearchOutcome};
use crate::typing::{all_well_typed, well_typed};

verus! {

/// The number of states that a search expands at most where no other number
/// is given.
pub const DEFAULT_MAX_EXPANSIONS: usize = 10000;

/// A formulated plan for one goal.
#[derive(Debug)]
pub struct Plan {
    /// The effects of the actions still to be taken. The last one is the
    /// next: taking an action removes its effect from the tail.
    pub effects: Vec<Effect>,
    /// What the whole plan costs, the actions already taken included.
    pub cost: usize,
    /// The goal that the plan achieves.
    pub goal: Goal,
}

/// The mathematical model of a [`Plan`].
pub struct PlanView {
    pub effects: Seq<EffectView>,
    pub cost: nat,
    pub goal: Seq<Requirement>,
}

impl View for Plan {
    type V = PlanView;

    open spec fn view(&self) -> PlanView {
        PlanView { effects: effect_views(self.effects@), cost: self.cost as nat, goal: self.goal@ }
    }
}

impl Clone for Plan {
    fn clone(&self) -> (copy: Plan)
        ensures
            copy@ == self@,
    {
        Plan { effects: clone_effects(&self.effects), cost: self.cost, goal: self.goal.clone() }
    }
}

/// Whether every step of `path` is a position in a catalogue of `n`
/// actions.
pub open spec fn within(path: Path, n: nat) -> bool {
    forall|i: int| 0 <= i < path.len() ==> (#[trigger] path[i]) < n
}

/// The effects of the actions of `path`, in the order in which they are
/// taken.
pub open spec fn path_effects(actions: Seq<ActionView>, path: Path) -> Seq<EffectView> {
    Seq::new(path.len(), |i: int| actions[path[i] as int].effect())
}

/// The effects of the actions of `path`, the first action last.
pub open spec fn queued_effects(actions: Seq<ActionView>, path: Path) -> Seq<EffectView> {
    Seq::new(path.len(), |i: int| actions[path[path.len() - 1 - i] as int].effect())
}

/// The best path to `goal`, where there is one.
pub open spec fn best_path(actions: Seq<ActionView>, start: Facts, goal: Seq<Requirement>) -> Path {
    choose|p: Path| is_best(actions, start, goal, p)
}

/// Whether a search that may expand `limit` states yields a plan for
/// `goal`: it does not need more expansions, and the best path to the goal
/// has at least one step and a cost that a `usize` can hold.
pub open spec fn plannable(
    actions: Seq<ActionView>,
    start: Facts,
    goal: Seq<Requirement>,
    limit: nat,
) -> bool {
    &&& !needs_more_than(actions, start, goal, limit)
    &&& is_best(actions, start, goal, best_path(actions, start, goal))
    &&& best_path(actions, start, goal).len() > 0
    &&& path_cost(actions, best_path(actions, start, goal)) <= usize::MAX
}

/// The plan for `goal`: the effects of its best path, queued so that the
/// first action is last, and the cost of that path.
pub open spec fn plan_for(
    actions: Seq<ActionView>,
    start: Facts,
    goal: Seq<Requirement>,
) -> PlanView {
    let best = best_path(actions, start, goal);
    PlanView { effects: queued_effects(actions, best), cost: path_cost(actions, best), goal }
}

/// Whether the goal at position `g` is the first of `goals` that yields a
/// plan.
pub open spec fn first_plannable(
    actions: Seq<ActionView>,
    start: Facts,
    goals: Seq<Seq<Requirement>>,
    limit: nat,
    g: int,
) -> bool {
    &&& 0 <= g < goals.len()
    &&& plannable(actions, start, goals[g], limit)
    &&& forall|h: int| 0 <= h < g ==> !plannable(actions, start, #[trigger] goals[h], limit)
}

/// Whether `found` is what planning for `goals` gives: the plan for the
/// first goal that yields one, and nothing where none does.
pub open spec fn chosen_plan(
    actions: Seq<ActionView>,
    start: Facts,
    goals: Seq<Seq<Requirement>>,
    limit: nat,
    found: Option<PlanView>,
) -> bool {
    match found {
        Some(plan) => {
            &&& plan.effects.len() > 0
            &&& exists|g: int| #[trigger]
                first_plannable(actions, start, goals, limit, g) && plan == plan_for(
                    actions,
                    start,
                    goals[g],
                )
        },
        None => forall|g: int|
            0 <= g < goals.len() ==> !plannable(actions, start, #[trigger] goals[g], limit),
    }
}

/// Planning for several goals is deterministic: the facts, the actions,
/// the goals in their order and the limit determine the plan, effect by
/// effect, its cost and its goal, and whether there is one.
pub proof fn lemma_chosen_plan_is_unique(
    actions: Seq<ActionView>,
    start: Facts,
    goals: Seq<Seq<Requirement>>,
    limit: nat,
    first: Option<PlanView>,
    second: Option<PlanView>,
)
    requires
        chosen_plan(actions, start, goals, limit, first),
        chosen_plan(actions, start, goals, limit, second),
    ensures
        first == second,
{
    match (first, second) {
        (Some(p), Some(q)) => {
            let g = choose|g: int| #[trigger]
                first_plannable(actions, start, goals, limit, g) && p == plan_for(
                    actions,
                    start,
                    goals[g],
                );
            let h = choose|h: int| #[trigger]
                first_plannable(actions, start, goals, limit, h) && q == plan_for(
                    actions,
                    start,
                    goals[h],
                );
            if g < h {
                assert(!plannable(actions, start, goals[g], limit));
            } else if h < g {
                assert(!plannable(actions, start, goals[h], limit));
            }
        },
        (Some(p), None) => {
            let g = choose|g: int| #[trigger]
                first_plannable(actions, start, goals, limit, g) && p == plan_for(
                    actions,
                    start,
                    goals[g],
                );
            assert(!plannable(actions, start, goals[g], limit));
        },
        (None, Some(q)) => {
            let h = choose|h: int| #[trigger]
                first_plannable(actions, start, goals, limit, h) && q == plan_for(
                    actions,
                    start,
                    goals[h],
                );
            assert(!plannable(actions, start, goals[h], limit));
        },
        (None, None) => {},
    }
}

/// A goal that the facts satisfy yields no plan, whatever the limit: it is
/// passed over.
pub proof fn lemma_satisfied_goal_is_passed_over(
    actions: Seq<ActionView>,
    start: Facts,
    goal: Seq<Requirement>,
    limit: nat,
)
    requires
        all_hold(start, goal),
    ensures
        !plannable(actions, start, goal, limit),
{
    lemma_satisfied_start(actions, start, goal);
    if is_best(actions, start, goal, best_path(actions, start, goal)) {
        lemma_best_is_unique(
            actions,
            start,
            goal,
            best_path(actions, start, goal),
            Seq::<usize>::empty(),
        );
    }
}

/// The facts after the effects of a queue were brought about in `facts`,
/// from the last effect of the queue to the first.
pub open spec fn carried_out(effects: Seq<EffectView>, facts: Facts) -> Facts
    decreases effects.len(),
{
    if effects.len() == 0 {
        facts
    } else {
        carried_out(effects.drop_last(), apply_all(effects.last().mutators, facts))
    }
}

/// Following a path is taking its first step and following the rest from
/// where that leads.
pub proof fn lemma_run_from_first_step(actions: Seq<ActionView>, start: Facts, path: Path)
    requires
        path.len() > 0,
    ensures
        run(actions, start, path) == run(
            actions,
            actions[path[0] as int].result(start),
            path.subrange(1, path.len() as int),
        ),
    decreases path.len(),
{
    let rest = path.subrange(1, path.len() as int);
    let next = actions[path[0] as int].result(start);
    let front = path.drop_last();
    if path.len() == 1 {
        assert(front =~= Seq::<usize>::empty());
        assert(rest =~= Seq::<usize>::empty());
        assert(run(actions, start, front) == start);
        assert(run(actions, next, rest) == next);
    } else {
        lemma_run_from_first_step(actions, start, front);
        assert(front.subrange(1, front.len() as int) =~= rest.drop_last());
        assert(run(actions, start, front) == run(actions, next, rest.drop_last()));
        assert(run(actions, next, rest) == actions[rest.last() as int].result(
            run(actions, next, rest.drop_last()),
        ));
    }
}

/// Bringing about the queued effects of a path leads where the path leads.
pub proof fn lemma_queue_follows_path(actions: Seq<ActionView>, start: Facts, path: Path)
    ensures
        carried_out(queued_effects(actions, path), start) == run(actions, start, path),
    decreases path.len(),
{
    let queue = queued_effects(actions, path);
    if path.len() > 0 {
        let rest = path.subrange(1, path.len() as int);
        let next = actions[path[0] as int].result(start);
        assert(queue.last() == actions[path[0] as int].effect());
        assert(queue.drop_last() =~= queued_effects(actions, rest));
        lemma_queue_follows_path(actions, next, rest);
        lemma_run_from_first_step(actions, start, path);
    }
}

/// A plan achieves its goal: where a goal yields a plan, bringing about the
/// effects of the plan, from the last of the queue to the first, turns the
/// facts that were planned from into facts that satisfy the goal.
pub proof fn lemma_plan_achieves_goal(
    actions: Seq<ActionView>,
    start: Facts,
    goal: Seq<Requirement>,
    limit: nat,
)
    requires
        plannable(actions, start, goal, limit),
    ensures
        all_hold(carried_out(plan_for(actions, start, goal).effects, start), goal),
{
    lemma_queue_follows_path(actions, start, best_path(actions, start, goal));
}

/// The model of a plan that may be missing.
pub open spec fn plan_view(plan: Option<Plan>) -> Option<PlanView> {
    match plan {
        Some(p) => Some(p@),
        None => None,
    }
}

/// Every step of a feasible path is a position in the catalogue.
pub proof fn lemma_feasible_within(actions: Seq<ActionView>, start: Facts, path: Path)
    requires
        feasible(actions, start, path),
    ensures
        within(path, actions.len()),
    decreases path.len(),
{
    if path.len() > 0 {
        lemma_feasible_within(actions, start, path.drop_last());
        assert forall|i: int| 0 <= i < path.len() implies (#[trigger] path[i]) < actions.len() by {
            if i < path.len() - 1 {
                assert(path[i] == path.drop_last()[i]);
            }
        }
    }
}

/// A search yields a plan exactly if it finds a path of at least one step,
/// and then that path is the best path.
pub proof fn lemma_plannable_outcome(
    actions: Seq<ActionView>,
    start: Facts,
    goal: Seq<Requirement>,
    limit: nat,
    outcome: SearchOutcome,
)
    requires
        search_ends(actions, start, goal, limit, outcome),
    ensures
        plannable(actions, start, goal, limit) == (outcome matches SearchOutcome::Found {
            path,
            cost,
        } && path@.len() > 0),
        outcome matches SearchOutcome::Found { path, cost } ==> path@ == best_path(
            actions,
            start,
            goal,
        ),
{
    let best = best_path(actions, start, goal);
    match outcome {
        SearchOutcome::Found { path, cost } => {
            assert(is_best(actions, start, goal, best));
            lemma_best_is_unique(actions, start, goal, path@, best);
        },
        SearchOutcome::Unreachable => {
            if plannable(actions, start, goal, limit) {
                assert(reaches(actions, start, goal, best));
            }
        },
        SearchOutcome::Exhausted => {},
    }
}

/// The effects of the actions at the positions of `path`, in the order in
/// which the actions are taken.
pub fn get_effects_from_plan(actions: &Vec<Action>, path: &Vec<usize>) -> (effects: Vec<Effect>)
    requires
        within(path@, actions@.len()),
    ensures
        effect_views(effects@) == path_effects(action_views(actions@), path@),
{
    let n: usize = path.len();
    let mut effects: Vec<Effect> = Vec::new();
    let mut i: usize = 0;
    while i < n
        invariant
            n == path@.len(),
            i <= n,
            within(path@, actions@.len()),
            effects@.len() == i,
            forall|j: int|
                0 <= j < i ==> (#[trigger] effects@[j])@ == actions@[path@[j] as int]@.effect(),
        decreases n - i,
    {
        effects.push(actions[path[i]].effect());
        i += 1;
    }
    assert(effect_views(effects@) =~= path_effects(action_views(actions@), path@));
    effects
}

/// The effects of the actions at the positions of `path`, the first action
/// last.
fn queue_effects(actions: &Vec<Action>, path: &Vec<usize>) -> (effects: Vec<Effect>)
    requires
        within(path@, actions@.len()),
    ensures
        effect_views(effects@) == queued_effects(action_views(actions@), path@),
{
    let n: usize = path.len();
    let mut effects: Vec<Effect> = Vec::new();
    let mut i: usize = 0;
    while i < n
        invariant
            n == path@.len(),
            i <= n,
            within(path@, actions@.len()),
            effects@.len() == i,
            forall|j: int|
                0 <= j < i ==> (#[trigger] effects@[j])@ == actions@[path@[n - 1
                    - j] as int]@.effect(),
        decreases n - i,
    {
        effects.push(actions[path[n - 1 - i]].effect());
        i += 1;
    }
    assert(effect_views(effects@) =~= queued_effects(action_views(actions@), path@));
    effects
}

/// Plans for one goal, expanding at most `max_expansions` states.
///
/// Returns the effects of the best path, in the order in which the actions
/// are to be taken, and its cost. Where the facts satisfy the goal already,
/// that is no effect at no cost. Returns nothing where no path of a cost
/// that a `usize` can hold leads to the goal, and where the search would
/// need more expansions.
pub fn make_plan_within(
    start: &LocalState,
    actions: &Vec<Action>,
    goal: &Goal,
    max_expansions: usize,
) -> (found: Option<(Vec<Effect>, usize)>)
    requires
        well_typed(start@, action_views(actions@), goal@),
    ensures
        match found {
            Some((effects, cost)) => {
                &&& !needs_more_than(action_views(actions@), start@, goal@, max_expansions as nat)
                &&& is_best(
                    action_views(actions@),
                    start@,
                    goal@,
                    best_path(action_views(actions@), start@, goal@),
                )
                &&& effect_views(effects@) == path_effects(
                    action_views(actions@),
                    best_path(action_views(actions@), start@, goal@),
                )
                &&& cost == path_cost(
                    action_views(actions@),
                    best_path(action_views(actions@), start@, goal@),
                )
            },
            None => needs_more_than(action_views(actions@), start@, goal@, max_expansions as nat)
                || forall|q: Path| #[trigger]
                    reaches(action_views(actions@), start@, goal@, q) ==> path_cost(
                        action_views(actions@),
                        q,
                    ) > usize::MAX,
        },
        all_hold(start@, goal@) ==> (found matches Some((effects, cost)) && effects@.len() == 0
            && cost == 0),
{
    let outcome = search(start, actions, goal, max_expansions);
    proof {
        lemma_plannable_outcome(
            action_views(actions@),
            start@,
            goal@,
            max_expansions as nat,
            outcome,
        );
    }
    match outcome {
        SearchOutcome::Found { path, cost } => {
            proof {
                lemma_feasible_within(action_views(actions@), start@, path@);
            }
            let effects = get_effects_from_plan(actions, &path);
            assert(effect_views(effects@).len() == path@.len());
            Some((effects, cost))
        },
        SearchOutcome::Unreachable => None,
        SearchOutcome::Exhausted => None,
    }
}

/// Plans for one goal as [`make_plan_within`] does, expanding at most
/// [`DEFAULT_MAX_EXPANSIONS`] states.
pub fn make_plan(start: &LocalState, actions: &Vec<Action>, goal: &Goal) -> (found: Option<
    (Vec<Effect>, usize),
>)
    requires
        well_typed(start@, action_views(actions@), goal@),
    ensures
        match found {
            Some((effects, cost)) => {
                &&& !needs_more_than(
                    action_views(actions@),
                    start@,
                    goal@,
                    DEFAULT_MAX_EXPANSIONS as nat,
                )
                &&& is_best(
                    action_views(actions@),
                    start@,
                    goal@,
                    best_path(action_views(actions@), start@, goal@),
                )
                &&& effect_views(effects@) == path_effects(
                    action_views(actions@),
                    best_path(action_views(actions@), start@, goal@),
                )
                &&& cost == path_cost(
                    action_views(actions@),
                    best_path(action_views(actions@), start@, goal@),
                )
            },
            None => needs_more_than(
                action_views(actions@),
                start@,
                goal@,
                DEFAULT_MAX_EXPANSIONS as nat,
            ) || forall|q: Path| #[trigger]
                reaches(action_views(actions@), start@, goal@, q) ==> path_cost(
                    action_views(actions@),
                    q,
                ) > usize::MAX,
        },
        all_hold(start@, goal@) ==> (found matches Some((effects, cost)) && effects@.len() == 0
            && cost == 0),
{
    make_plan_within(start, actions, goal, DEFAULT_MAX_EXPANSIONS)
}

/// Plans for the first of `goals`, in the order given, that yields a plan,
/// expanding at most `max_expansions` states for each goal.
///
/// A goal that the facts satisfy already yields no plan and is passed over,
/// as is a goal to which no path leads and one that would need more
/// expansions.
pub fn find_plan(
    start: &LocalState,
    actions: &Vec<Action>,
    goals: &Vec<Goal>,
    max_expansions: usize,
) -> (found: Option<Plan>)
    requires
        all_well_typed(action_views(actions@), start@, goal_views(goals@)),
    ensures
        chosen_plan(
            action_views(actions@),
            start@,
            goal_views(goals@),
            max_expansions as nat,
            plan_view(found),
        ),
{
    let ghost catalogue = action_views(actions@);
    let ghost wanted = goal_views(goals@);
    let n: usize = goals.len();
    let mut g: usize = 0;
    while g < n
        invariant
            n == goals@.len(),
            g <= n,
            catalogue == action_views(actions@),
            wanted == goal_views(goals@),
            all_well_typed(catalogue, start@, wanted),
            forall|h: int|
                0 <= h < g ==> !plannable(
                    catalogue,
                    start@,
                    #[trigger] wanted[h],
                    max_expansions as nat,
                ),
        decreases n - g,
    {
        let goal = &goals[g];
        assert(wanted[g as int] == goal@);
        assert(well_typed(start@, catalogue, wanted[g as int]));
        let outcome = search(start, actions, goal, max_expansions);
        proof {
            lemma_plannable_outcome(catalogue, start@, goal@, max_expansions as nat, outcome);
        }
        match outcome {
            SearchOutcome::Found { path, cost } => {
                if path.len() > 0 {
                    proof {
                        lemma_feasible_within(catalogue, start@, path@);
                    }
                    let effects = queue_effects(actions, &path);
                    let plan = Plan { effects, cost, goal: goal.clone() };
                    proof {
                        assert(first_plannable(
                            catalogue,
                            start@,
                            wanted,
                            max_expansions as nat,
                            g as int,
                        ));
                        assert(plan@.effects.len() == path@.len());
                        assert(plan@ == plan_for(catalogue, start@, wanted[g as int]));
                    }
                    return Some(plan);
                }
            },
            SearchOutcome::Unreachable => {},
            SearchOutcome::Exhausted => {},
        }
        g += 1;
    }
    None
}

} // verus!
