//! Goals: the facts that a plan has to bring about.

use vstd::prelude::*;
use crate::compare::Compare;
use crate::localstate::LocalState;
use crate::requirement::{
    all_hold, check_requirements, clone_requirements, requirement_views, requirements_fit,
    same_requirements, Requirement,
};

verus! {

/// A list of requirements, all of which a state must meet to satisfy the
/// goal.
#[derive(Debug)]
pub struct Goal {
    /// The requirements, in the order in which they were added.
    pub requirements: Vec<(String, Compare)>,
}

impl View for Goal {
    type V = Seq<Requirement>;

    open spec fn view(&self) -> Seq<Requirement> {
        requirement_views(self.requirements@)
    }
}

/// The models of a list of goals, in order.
pub open spec fn goal_views(goals: Seq<Goal>) -> Seq<Seq<Requirement>> {
    Seq::new(goals.len(), |i: int| goals[i]@)
}

impl Goal {
    /// The goal without requirements, which every state satisfies.
    pub fn new() -> (goal: Goal)
        ensures
            goal@ == Seq::<Requirement>::empty(),
    {
        let goal = Goal { requirements: Vec::new() };
        assert(goal@ =~= Seq::<Requirement>::empty());
        goal
    }

    /// This goal with one more requirement, added last.
    pub fn with_req(self, key: &str, compare: Compare) -> (goal: Goal)
        ensures
            goal@ == self@.push((key@, compare)),
    {
        let mut requirements = self.requirements;
        requirements.push((key.to_owned(), compare));
        let goal = Goal { requirements };
        assert(goal@ =~= self@.push((key@, compare)));
        goal
    }

    /// The goal with the given requirements.
    pub fn from_reqs(requirements: &Vec<(String, Compare)>) -> (goal: Goal)
        ensures
            goal@ == requirement_views(requirements@),
    {
        Goal { requirements: clone_requirements(requirements) }
    }

    /// Whether `state` satisfies the goal.
    pub fn is_satisfied_by(&self, state: &LocalState) -> (satisfied: bool)
        requires
            requirements_fit(state@, self@),
        ensures
            satisfied == all_hold(state@, self@),
    {
        check_requirements(&self.requirements, state)
    }

    /// Whether both goals have the same requirements in the same order.
    pub fn same_goal(&self, other: &Goal) -> (same: bool)
        ensures
            same == (self@ == other@),
    {
        same_requirements(&self.requirements, &other.requirements)
    }
}

impl Clone for Goal {
    fn clone(&self) -> (copy: Goal)
        ensures
            copy@ == self@,
    {
        Goal { requirements: clone_requirements(&self.requirements) }
    }
}

/// A copy of a list of goals.
pub fn clone_goals(goals: &Vec<Goal>) -> (copy: Vec<Goal>)
    ensures
        goal_views(copy@) == goal_views(goals@),
{
    let n: usize = goals.len();
    let mut copy: Vec<Goal> = Vec::new();
    let mut i: usize = 0;
    while i < n
        invariant
            n == goals@.len(),
            i <= n,
            copy@.len() == i,
            forall|j: int| 0 <= j < i ==> (#[trigger] copy@[j])@ == goals@[j]@,
        decreases n - i,
    {
        copy.push(goals[i].clone());
        i += 1;
    }
    assert(goal_views(copy@) =~= goal_views(goals@));
    copy
}

} // verus!
