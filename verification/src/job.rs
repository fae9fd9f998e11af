//! The search as a job: what a planner hands to whoever runs its searches.

use vstd::prelude::*;
use crate::action::{action_views, Action, ActionView};
use crate::channel::PlanSender;
use crate::goal::{goal_views, Goal};
use crate::localstate::{Facts, LocalState};
use crate::plan::{chosen_plan, find_plan, plan_view, Plan, PlanView};
use crate::requirement::Requirement;
use crate::typing::all_well_typed;

verus! {

/// The result of a search could not be handed over, because the planner no
/// longer waits for it.
#[derive(Debug)]
pub struct PlanUndelivered {
    /// What was to be handed over.
    pub plan: Option<Plan>,
}

/// What a search is asked to do: a snapshot of the facts, the actions and
/// the goals of a planner.
pub struct PlanRequest {
    pub state: Facts,
    pub actions: Seq<ActionView>,
    pub goals: Seq<Seq<Requirement>>,
    pub max_expansions: nat,
}

impl PlanRequest {
    /// Whether each goal makes a well-typed problem with the facts and the
    /// actions.
    pub open spec fn well_typed(self) -> bool {
        all_well_typed(self.actions, self.state, self.goals)
    }

    /// Whether `found` is what the search gives.
    pub open spec fn answered_by(self, found: Option<PlanView>) -> bool {
        chosen_plan(self.actions, self.state, self.goals, self.max_expansions, found)
    }
}

/// A search to be run away from the planner, and the slot for its result.
#[derive(Debug)]
pub struct PlanJob {
    state: LocalState,
    actions: Vec<Action>,
    goals: Vec<Goal>,
    max_expansions: usize,
    sender: PlanSender,
}

impl View for PlanJob {
    type V = PlanRequest;

    closed spec fn view(&self) -> PlanRequest {
        PlanRequest {
            state: self.state@,
            actions: action_views(self.actions@),
            goals: goal_views(self.goals@),
            max_expansions: self.max_expansions as nat,
        }
    }
}

impl PlanJob {
    #[verifier::type_invariant]
    spec fn request_is_well_typed(self) -> bool {
        all_well_typed(action_views(self.actions@), self.state@, goal_views(self.goals@))
    }

    /// The job that searches on a snapshot and puts what it finds into the
    /// slot behind `sender`.
    pub(crate) fn new(
        state: LocalState,
        actions: Vec<Action>,
        goals: Vec<Goal>,
        max_expansions: usize,
        sender: PlanSender,
    ) -> (job: PlanJob)
        requires
            all_well_typed(action_views(actions@), state@, goal_views(goals@)),
        ensures
            job@ == (PlanRequest {
                state: state@,
                actions: action_views(actions@),
                goals: goal_views(goals@),
                max_expansions: max_expansions as nat,
            }),
    {
        PlanJob { state, actions, goals, max_expansions, sender }
    }

    /// Searches for the plan. This is the expensive part.
    pub fn find_plan(&self) -> (found: Option<Plan>)
        ensures
            self@.answered_by(plan_view(found)),
    {
        proof {
            use_type_invariant(self);
        }
        find_plan(&self.state, &self.actions, &self.goals, self.max_expansions)
    }

    /// Hands `plan` to the planner, if it still waits for it. A plan that
    /// could not be handed over comes back.
    pub fn deliver(self, plan: Option<Plan>) -> (sent: Result<(), PlanUndelivered>)
        ensures
            sent matches Err(undelivered) ==> undelivered.plan == plan,
    {
        let sent = self.sender.send(plan);
        PlanJob::delivery(sent)
    }

    /// Searches for the plan and hands it to the planner. If the planner no
    /// longer waits for it, what the search gave comes back.
    pub fn run(self) -> (sent: Result<(), PlanUndelivered>)
        ensures
            sent matches Err(undelivered) ==> self@.answered_by(plan_view(undelivered.plan)),
    {
        let plan = self.find_plan();
        self.deliver(plan)
    }

    /// What handing a plan over came to, given what the slot answered: a
    /// plan that the slot took is delivered; a plan that the slot handed
    /// back is undelivered, and is the plan that comes back.
    pub fn delivery(sent: Result<(), Option<Plan>>) -> (outcome: Result<(), PlanUndelivered>)
        ensures
            match sent {
                Ok(_) => outcome is Ok,
                Err(back) => outcome matches Err(undelivered) && undelivered.plan == back,
            },
    {
        match sent {
            Ok(()) => Ok(()),
            Err(back) => Err(PlanUndelivered { plan: back }),
        }
    }
}

} // verus!
