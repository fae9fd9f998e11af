//! The planner record of one agent: its facts, goals and actions, the search
//! it has in flight, and the plan it is carrying out.

use vstd::prelude::*;
use bevy_platform::collections::HashMap;
use bevy_platform::hash::FixedHasher;
use crate::action::{action_views, clone_actions, Action, ActionView};
use crate::channel::{plan_channel, PlanReceiver, Polled};
use crate::job::{PlanJob, PlanRequest};
use crate::datum::Datum;
use crate::goal::{clone_goals, goal_views, Goal};
use crate::localstate::{Facts, LocalState};
use crate::plan::{
    best_path, lemma_feasible_within, plan_for, plan_view, plannable, Plan, PlanView,
    DEFAULT_MAX_EXPANSIONS,
};
use crate::registry::{listed_actions, listed_views, lists, registered_action, registered_actions};
use crate::requirement::Requirement;
use crate::typing::are_well_typed;
use crate::update::UpdatePlan;

verus! {

/// The number of results that the slot of a search holds: a search leaves
/// one.
pub const PLAN_SLOT_CAPACITY: usize = 1;

/// The mark of an agent whose planner has a search in flight. It is set when
/// a search starts and taken away when its result is installed.
#[derive(Clone, Copy, Debug, PartialEq, Eq, Structural)]
pub struct IsPlanning;

/// The search went away without leaving a result.
#[derive(Clone, Copy, Debug, PartialEq, Eq, Structural)]
pub struct ChannelDisconnected;

/// A mistake in how a planner was set up.
#[derive(Clone, Copy, Debug, PartialEq, Eq, Structural)]
pub enum ConfigError {
    /// The facts, the actions and the goals disagree on the kind of the
    /// values of a key, or something is added to or subtracted from what is
    /// no number.
    KindMismatch,
    /// The current plan names an action that is not registered.
    UnregisteredAction,
}

/// What polling for the result of a search came to.
#[derive(Clone, Copy, Debug, PartialEq, Eq, Structural)]
pub enum TaskStatus {
    /// No search is in flight.
    NotPlanning,
    /// The search is still running.
    Pending,
    /// The search found a plan, which is the current plan now.
    Installed,
    /// The search found no plan for any goal; the planner is idle.
    Failed,
}

/// What the host has to do after one step of execution.
#[derive(Debug)]
pub enum Step {
    /// An action is being carried out: nothing to do.
    Wait,
    /// There is no plan: nothing to do.
    Idle,
    /// Mark the named action as the one to carry out, after taking the marks
    /// of all registered actions away if `detach_all` is set.
    Activate { action: String, detach_all: bool },
    /// The plan is carried out: nothing to do.
    Finished,
}

/// The facts after each of `entries` was written in turn.
pub open spec fn write_all(facts: Facts, entries: Seq<(String, Datum)>) -> Facts
    decreases entries.len(),
{
    if entries.len() == 0 {
        facts
    } else {
        write_all(facts, entries.drop_last()).insert(entries.last().0@, entries.last().1)
    }
}

/// What is planned can be carried out: where every action of the catalogue
/// is registered under its own key, every effect of the plan for a goal
/// names a registered action.
pub proof fn lemma_planned_actions_are_registered(
    actions: Seq<ActionView>,
    registered: Map<Seq<char>, ActionView>,
    start: Facts,
    goal: Seq<Requirement>,
    limit: nat,
    i: int,
)
    requires
        forall|a: int|
            0 <= a < actions.len() ==> registered.contains_key((#[trigger] actions[a]).key),
        plannable(actions, start, goal, limit),
        0 <= i < plan_for(actions, start, goal).effects.len(),
    ensures
        registered.contains_key(plan_for(actions, start, goal).effects[i].action),
{
    let best = best_path(actions, start, goal);
    lemma_feasible_within(actions, start, best);
    let position = best[best.len() - 1 - i];
    assert(registered.contains_key(actions[position as int].key));
}

/// The model of an action that may be missing.
pub open spec fn action_view(action: Option<Action>) -> Option<ActionView> {
    match action {
        Some(a) => Some(a@),
        None => None,
    }
}

/// The per-agent record of the planner.
#[derive(Debug)]
pub struct Planner {
    /// The facts the planner reasons over, as last written.
    pub state: LocalState,
    /// The goals, in order of priority.
    pub goals: Vec<Goal>,
    /// The action that is being carried out.
    pub current_action: Option<Action>,
    /// The plan that is being carried out.
    pub current_plan: Option<Plan>,
    /// The number of states that a search may expand for one goal.
    pub max_expansions: usize,
    actions_map: HashMap<String, Action, FixedHasher>,
    catalogue: Vec<Action>,
    receiver: Option<PlanReceiver>,
}

/// The mathematical model of a [`Planner`].
pub struct PlannerView {
    pub state: Facts,
    pub goals: Seq<Seq<Requirement>>,
    pub current_action: Option<ActionView>,
    pub current_plan: Option<PlanView>,
    pub max_expansions: nat,
    /// The registered actions, each under its key.
    pub registered: Map<Seq<char>, ActionView>,
    /// The registered actions, in the order in which a search tries them.
    pub actions: Seq<ActionView>,
    pub planning: bool,
}

impl View for Planner {
    type V = PlannerView;

    closed spec fn view(&self) -> PlannerView {
        PlannerView {
            state: self.state@,
            goals: goal_views(self.goals@),
            current_action: action_view(self.current_action),
            current_plan: plan_view(self.current_plan),
            max_expansions: self.max_expansions as nat,
            registered: registered_actions(self.actions_map),
            actions: action_views(self.catalogue@),
            planning: self.receiver is Some,
        }
    }
}

/// Whether `after` and `status` are what installing `polled` in `before`
/// gives.
///
/// A result that is not there yet and a search that has gone change nothing.
/// A plan becomes the current plan. A search without a plan leaves the
/// planner without plan and without action. Either result ends the planning.
pub open spec fn installed(
    before: PlannerView,
    polled: Polled,
    after: PlannerView,
    status: Result<TaskStatus, ChannelDisconnected>,
) -> bool {
    match polled {
        Polled::Empty => after == before && status == Ok::<TaskStatus, ChannelDisconnected>(
            TaskStatus::Pending,
        ),
        Polled::Disconnected => after == before && status == Err::<
            TaskStatus,
            ChannelDisconnected,
        >(ChannelDisconnected),
        Polled::Ready(Some(plan)) => after == (PlannerView {
            current_plan: Some(plan@),
            planning: false,
            ..before
        }) && status == Ok::<TaskStatus, ChannelDisconnected>(TaskStatus::Installed),
        Polled::Ready(None) => after == (PlannerView {
            current_plan: None,
            current_action: None,
            planning: false,
            ..before
        }) && status == Ok::<TaskStatus, ChannelDisconnected>(TaskStatus::Failed),
    }
}

/// Whether `after` and `started` are what a request to plan gives in
/// `before`: a planner that is planning stays as it is and starts nothing;
/// any other starts a search and is planning from then on.
pub open spec fn triggered(before: PlannerView, after: PlannerView, started: bool) -> bool {
    if before.planning {
        !started && after == before
    } else {
        started && after == (PlannerView { planning: true, ..before })
    }
}

/// At most one search is in flight: whatever the planner was doing, the
/// second of two requests in a row starts no search and changes nothing.
pub proof fn lemma_single_search_in_flight(
    before: PlannerView,
    between: PlannerView,
    after: PlannerView,
    first_started: bool,
    second_started: bool,
)
    requires
        triggered(before, between, first_started),
        triggered(between, after, second_started),
    ensures
        between.planning,
        !second_started,
        after == between,
{
}

/// Only a result ends a search: a look that finds the slot empty, or the
/// search gone, changes nothing; after a look that finds a result no search
/// is in flight; and after a search without a plan the planner has neither
/// plan nor action.
pub proof fn lemma_install_ends_planning(
    before: PlannerView,
    polled: Polled,
    after: PlannerView,
    status: Result<TaskStatus, ChannelDisconnected>,
)
    requires
        installed(before, polled, after, status),
    ensures
        polled is Ready ==> !after.planning,
        !(polled is Ready) ==> after == before,
        status == Ok::<TaskStatus, ChannelDisconnected>(TaskStatus::Failed) ==> after.current_plan
            is None && after.current_action is None,
{
}

/// Whether `after` and `step` are what one step of execution gives in
/// `before`.
///
/// While the mark of an action is attached to the agent, nothing changes.
/// Without a plan the planner has no current action. With a plan whose
/// effects are used up, the plan is finished and the planner is idle again.
/// Otherwise the last effect leaves the plan, the action registered under
/// its name becomes the current action and is to be marked; if another
/// action was current before, the marks of all registered actions are to be
/// taken away first.
pub open spec fn stepped(
    before: PlannerView,
    marker_attached: bool,
    after: PlannerView,
    step: Step,
) -> bool {
    if marker_attached {
        step is Wait && after == before
    } else {
        match before.current_plan {
            None => step is Idle && after == (PlannerView { current_action: None, ..before }),
            Some(plan) => if plan.effects.len() == 0 {
                step is Finished && after == (PlannerView {
                    current_action: None,
                    current_plan: None,
                    ..before
                })
            } else {
                let name = plan.effects.last().action;
                let found = before.registered[name];
                &&& step matches Step::Activate { action, detach_all }
                &&& action@ == name
                &&& detach_all == (before.current_action is Some && before.current_action != Some(
                    found,
                ))
                &&& after == (PlannerView {
                    current_action: Some(found),
                    current_plan: Some(PlanView { effects: plan.effects.drop_last(), ..plan }),
                    ..before
                })
            },
        }
    }
}

/// Execution takes one action at a time: a step takes no effect from the
/// plan while the mark of an action is attached, takes one and marks its
/// action otherwise, as long as the plan has effects, and leaves the
/// planner without plan and without action once they are used up.
pub proof fn lemma_one_action_at_a_time(
    before: PlannerView,
    marker_attached: bool,
    after: PlannerView,
    step: Step,
)
    requires
        stepped(before, marker_attached, after, step),
    ensures
        marker_attached ==> after == before && step is Wait,
        step is Activate <==> !marker_attached && (before.current_plan matches Some(plan)
            && plan.effects.len() > 0),
        step is Activate ==> (before.current_plan matches Some(plan) && (
        after.current_plan matches Some(rest) && rest.effects.len() + 1 == plan.effects.len())),
        step is Finished ==> after.current_plan is None && after.current_action is None,
{
}

impl PlannerView {
    /// The goals that a request asks to plan for: its own, or else the
    /// planner's.
    pub open spec fn requested_goals(self, update: UpdatePlan) -> Seq<Seq<Requirement>> {
        match update.goals {
            Some(goals) => goal_views(goals@),
            None => self.goals,
        }
    }

    /// What a search is asked to do on `update`.
    pub open spec fn request(self, update: UpdatePlan) -> PlanRequest {
        PlanRequest {
            state: self.state,
            actions: self.actions,
            goals: self.requested_goals(update),
            max_expansions: self.max_expansions,
        }
    }

    /// Whether the next effect of the current plan, if there is one, names a
    /// registered action.
    pub open spec fn next_is_registered(self) -> bool {
        match self.current_plan {
            Some(plan) => plan.effects.len() > 0 ==> self.registered.contains_key(
                plan.effects.last().action,
            ),
            None => true,
        }
    }
}

impl Planner {
    /// The planner of an agent with the facts `facts`, written in order, the
    /// goals `goals` in order of priority and the actions of `actions_map`,
    /// each registered under its key. A search tries the actions in the
    /// order in which the table hands them out. The planner has no plan, no
    /// action and no search in flight.
    pub fn new(
        facts: Vec<(String, Datum)>,
        goals: Vec<Goal>,
        actions_map: HashMap<String, Action, FixedHasher>,
    ) -> (planner: Planner)
        ensures
            planner@.state == write_all(Map::empty(), facts@),
            planner@.goals == goal_views(goals@),
            planner@.current_action is None,
            planner@.current_plan is None,
            planner@.max_expansions == DEFAULT_MAX_EXPANSIONS,
            planner@.registered == registered_actions(actions_map),
            lists(planner@.actions, planner@.registered),
            !planner@.planning,
    {
        let listed = listed_actions(&actions_map);
        let n: usize = listed.len();
        let mut catalogue: Vec<Action> = Vec::new();
        let mut i: usize = 0;
        while i < n
            invariant
                n == listed@.len(),
                i <= n,
                catalogue@.len() == i,
                forall|j: int| 0 <= j < i ==> (#[trigger] catalogue@[j])@ == listed@[j]@,
            decreases n - i,
        {
            catalogue.push(listed[i].clone());
            i += 1;
        }
        assert(action_views(catalogue@) =~= listed_views(listed@));
        let mut state = LocalState::new();
        write_facts(&mut state, &facts);
        Planner {
            state,
            goals,
            current_action: None,
            current_plan: None,
            max_expansions: DEFAULT_MAX_EXPANSIONS,
            actions_map,
            catalogue,
            receiver: None,
        }
    }

    /// Writes the facts observed in the world into the planner's state, in
    /// order. Facts that are not among them stay as they are.
    pub fn update_local_state(&mut self, facts: &Vec<(String, Datum)>)
        ensures
            final(self)@ == (PlannerView {
                state: write_all(old(self)@.state, facts@),
                ..old(self)@
            }),
    {
        write_facts(&mut self.state, facts);
    }

    /// The facts the planner reasons over.
    pub fn state(&self) -> (state: &LocalState)
        ensures
            state@ == self@.state,
    {
        &self.state
    }

    /// The goals, in order of priority.
    pub fn goals(&self) -> (goals: &Vec<Goal>)
        ensures
            goal_views(goals@) == self@.goals,
    {
        &self.goals
    }

    /// The action that is being carried out.
    pub fn current_action(&self) -> (action: &Option<Action>)
        ensures
            action_view(*action) == self@.current_action,
    {
        &self.current_action
    }

    /// The plan that is being carried out.
    pub fn current_plan(&self) -> (plan: &Option<Plan>)
        ensures
            plan_view(*plan) == self@.current_plan,
    {
        &self.current_plan
    }

    /// Replaces the goals. A search in flight is not affected.
    pub fn set_goals(&mut self, goals: Vec<Goal>)
        ensures
            final(self)@ == (PlannerView { goals: goal_views(goals@), ..old(self)@ }),
    {
        self.goals = goals;
    }

    /// Whether a search is in flight.
    pub fn is_planning(&self) -> (planning: bool)
        ensures
            planning == self@.planning,
    {
        self.receiver.is_some()
    }

    /// The registered actions, in the order in which a search tries them.
    pub fn actions(&self) -> (actions: &Vec<Action>)
        ensures
            action_views(actions@) == self@.actions,
    {
        &self.catalogue
    }

    /// The action registered under `key`, if there is one.
    pub fn action(&self, key: &String) -> (found: Option<&Action>)
        ensures
            match found {
                Some(action) => self@.registered.contains_key(key@) && self@.registered[key@]
                    == action@,
                None => !self@.registered.contains_key(key@),
            },
    {
        registered_action(&self.actions_map, key)
    }

    /// Whether a search on `update` would be asked a well-typed problem for
    /// each goal.
    pub fn is_well_typed(&self, update: &UpdatePlan) -> (typed: bool)
        ensures
            typed == self@.request(*update).well_typed(),
    {
        match &update.goals {
            Some(goals) => are_well_typed(&self.state, &self.catalogue, goals),
            None => are_well_typed(&self.state, &self.catalogue, &self.goals),
        }
    }

    /// Starts a search on `update`, unless one is in flight already.
    ///
    /// A planner that is planning ignores the request and stays as it is.
    /// Otherwise the planner is planning from now on, and the job returned
    /// holds a snapshot of its facts and actions and of the goals asked
    /// for, to be run wherever the host sees fit.
    pub fn create_planner_task(&mut self, update: &UpdatePlan) -> (started: Option<
        (IsPlanning, PlanJob),
    >)
        requires
            !old(self)@.planning ==> old(self)@.request(*update).well_typed(),
        ensures
            triggered(old(self)@, final(self)@, started is Some),
            old(self)@.planning ==> *final(self) == *old(self),
            started matches Some((_, job)) ==> job@ == old(self)@.request(*update),
    {
        if self.receiver.is_some() {
            return None;
        }
        let state = self.state.clone();
        let actions = clone_actions(&self.catalogue);
        let goals = match &update.goals {
            Some(goals) => clone_goals(goals),
            None => clone_goals(&self.goals),
        };
        let (sender, receiver) = plan_channel(PLAN_SLOT_CAPACITY);
        let job = PlanJob::new(state, actions, goals, self.max_expansions, sender);
        self.receiver = Some(receiver);
        Some((IsPlanning, job))
    }

    /// Starts a search on `update` as [`Planner::create_planner_task`]
    /// does, unless the search would be asked a problem that is not well
    /// typed: then nothing changes and the mistake is reported.
    pub fn try_create_planner_task(&mut self, update: &UpdatePlan) -> (started: Result<
        Option<(IsPlanning, PlanJob)>,
        ConfigError,
    >)
        ensures
            started is Err <==> !old(self)@.planning && !old(self)@.request(*update).well_typed(),
            match started {
                Ok(started) => {
                    &&& triggered(old(self)@, final(self)@, started is Some)
                    &&& old(self)@.planning ==> *final(self) == *old(self)
                    &&& started matches Some((_, job)) ==> job@ == old(self)@.request(*update)
                },
                Err(mistake) => mistake == ConfigError::KindMismatch && *final(self) == *old(self),
            },
    {
        if !self.is_planning() && !self.is_well_typed(update) {
            return Err(ConfigError::KindMismatch);
        }
        Ok(self.create_planner_task(update))
    }

    /// Installs what a look into the slot of the search found.
    pub fn install(&mut self, polled: Polled) -> (status: Result<TaskStatus, ChannelDisconnected>)
        ensures
            installed(old(self)@, polled, final(self)@, status),
    {
        match polled {
            Polled::Empty => Ok(TaskStatus::Pending),
            Polled::Disconnected => Err(ChannelDisconnected),
            Polled::Ready(Some(plan)) => {
                self.receiver = None;
                self.current_plan = Some(plan);
                Ok(TaskStatus::Installed)
            },
            Polled::Ready(None) => {
                self.receiver = None;
                self.current_action = None;
                self.current_plan = None;
                Ok(TaskStatus::Failed)
            },
        }
    }

    /// Looks once, without waiting, for the result of the search in flight,
    /// and installs what it finds.
    ///
    /// Without a search in flight nothing happens. Otherwise the outcome is
    /// that of [`Planner::install`] on what the look into the slot found.
    pub fn handle_planner_task(&mut self) -> (status: Result<TaskStatus, ChannelDisconnected>)
        ensures
            !old(self)@.planning ==> *final(self) == *old(self) && status == Ok::<
                TaskStatus,
                ChannelDisconnected,
            >(TaskStatus::NotPlanning),
            old(self)@.planning ==> exists|polled: Polled| #[trigger]
                installed(old(self)@, polled, final(self)@, status),
    {
        let polled = match &self.receiver {
            None => {
                return Ok(TaskStatus::NotPlanning);
            },
            Some(receiver) => receiver.try_recv(),
        };
        self.install(polled)
    }

    /// Whether the next effect of the current plan, if there is one, names a
    /// registered action.
    pub fn next_is_registered(&self) -> (registered: bool)
        ensures
            registered == self@.next_is_registered(),
    {
        match &self.current_plan {
            Some(plan) => {
                let n: usize = plan.effects.len();
                if n == 0 {
                    true
                } else {
                    assert(plan@.effects.last() == plan.effects@[n - 1]@);
                    self.action(&plan.effects[n - 1].action).is_some()
                }
            },
            None => true,
        }
    }

    /// Advances the execution of the current plan by at most one action, as
    /// [`stepped`] says.
    pub fn execute_plan(&mut self, marker_attached: bool) -> (step: Step)
        requires
            !marker_attached ==> old(self)@.next_is_registered(),
        ensures
            stepped(old(self)@, marker_attached, final(self)@, step),
            marker_attached ==> *final(self) == *old(self),
    {
        if marker_attached {
            return Step::Wait;
        }
        let mut taken: Option<Plan> = None;
        core::mem::swap(&mut self.current_plan, &mut taken);
        match taken {
            None => {
                self.current_action = None;
                Step::Idle
            },
            Some(mut plan) => {
                let ghost before = plan@;
                match plan.effects.pop() {
                    None => {
                        self.current_action = None;
                        Step::Finished
                    },
                    Some(effect) => {
                        assert(effect@ == before.effects.last());
                        assert(plan@.effects =~= before.effects.drop_last());
                        match registered_action(&self.actions_map, &effect.action) {
                            Some(found) => {
                                let detach_all = match &self.current_action {
                                    Some(current) => !current.same_action(found),
                                    None => false,
                                };
                                self.current_action = Some(found.clone());
                                self.current_plan = Some(plan);
                                Step::Activate { action: effect.action, detach_all }
                            },
                            None => vstd::pervasive::unreached(),
                        }
                    },
                }
            },
        }
    }

    /// Advances the execution of the current plan as
    /// [`Planner::execute_plan`] does, unless the next effect of the plan
    /// names an action that is not registered: then nothing changes and the
    /// mistake is reported.
    pub fn try_execute_plan(&mut self, marker_attached: bool) -> (step: Result<Step, ConfigError>)
        ensures
            step is Err <==> !marker_attached && !old(self)@.next_is_registered(),
            match step {
                Ok(step) => {
                    &&& stepped(old(self)@, marker_attached, final(self)@, step)
                    &&& marker_attached ==> *final(self) == *old(self)
                },
                Err(mistake) => mistake == ConfigError::UnregisteredAction && *final(self) == *old(
                    self,
                ),
            },
    {
        if !marker_attached && !self.next_is_registered() {
            return Err(ConfigError::UnregisteredAction);
        }
        Ok(self.execute_plan(marker_attached))
    }
}

/// Writes each of `facts` into `state`, in order.
pub fn write_facts(state: &mut LocalState, facts: &Vec<(String, Datum)>)
    ensures
        final(state)@ == write_all(old(state)@, facts@),
{
    let ghost start = state@;
    let n: usize = facts.len();
    let mut i: usize = 0;
    while i < n
        invariant
            n == facts@.len(),
            i <= n,
            state@ == write_all(start, facts@.take(i as int)),
        decreases n - i,
    {
        assert(facts@.take(i as int + 1).drop_last() =~= facts@.take(i as int));
        state.insert(facts[i].0.clone(), facts[i].1);
        i += 1;
    }
    assert(facts@.take(n as int) =~= facts@);
}

} // verus!
