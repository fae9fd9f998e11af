//! Actions: named, costed changes to the facts, allowed where their
//! preconditions hold.

use vstd::prelude::*;
use crate::compare::Compare;
use crate::datum::Datum;
use crate::localstate::{Facts, LocalState};
use crate::mutator::{
    all_fit, apply_all, apply_mutators, clone_mutators, mutator_views, same_mutators, Mutator,
    MutatorView,
};
use crate::requirement::{
    all_hold, check_requirements, clone_requirements, requirement_views, requirements_fit,
    same_requirements, Requirement,
};

verus! {

/// What carrying out an action does: the changes it makes, under the name
/// of the action, at its cost.
#[derive(Debug)]
pub struct Effect {
    /// The key of the action.
    pub action: String,
    /// The changes, in the order in which they are made.
    pub mutators: Vec<Mutator>,
    /// The cost of carrying the action out.
    pub cost: usize,
}

/// The mathematical model of an [`Effect`].
pub struct EffectView {
    pub action: Seq<char>,
    pub mutators: Seq<MutatorView>,
    pub cost: nat,
}

impl View for Effect {
    type V = EffectView;

    open spec fn view(&self) -> EffectView {
        EffectView {
            action: self.action@,
            mutators: mutator_views(self.mutators@),
            cost: self.cost as nat,
        }
    }
}

/// The models of a list of effects, in order.
pub open spec fn effect_views(effects: Seq<Effect>) -> Seq<EffectView> {
    Seq::new(effects.len(), |i: int| effects[i]@)
}

impl Clone for Effect {
    fn clone(&self) -> (copy: Effect)
        ensures
            copy@ == self@,
    {
        Effect {
            action: self.action.clone(),
            mutators: clone_mutators(&self.mutators),
            cost: self.cost,
        }
    }
}

/// A copy of a list of effects.
pub fn clone_effects(effects: &Vec<Effect>) -> (copy: Vec<Effect>)
    ensures
        effect_views(copy@) == effect_views(effects@),
{
    let n: usize = effects.len();
    let mut copy: Vec<Effect> = Vec::new();
    let mut i: usize = 0;
    while i < n
        invariant
            n == effects@.len(),
            i <= n,
            copy@.len() == i,
            forall|j: int| 0 <= j < i ==> (#[trigger] copy@[j])@ == effects@[j]@,
        decreases n - i,
    {
        copy.push(effects[i].clone());
        i += 1;
    }
    assert(effect_views(copy@) =~= effect_views(effects@));
    copy
}

/// A definition of something an agent can do.
#[derive(Debug)]
pub struct Action {
    /// The name by which the action is known.
    pub key: String,
    /// What must hold for the action to be taken.
    pub preconditions: Vec<(String, Compare)>,
    /// The changes that the action makes, in order.
    pub mutators: Vec<Mutator>,
    /// What taking the action costs.
    pub cost: usize,
}

/// The mathematical model of an [`Action`].
pub struct ActionView {
    pub key: Seq<char>,
    pub preconditions: Seq<Requirement>,
    pub mutators: Seq<MutatorView>,
    pub cost: nat,
}

impl ActionView {
    /// Whether the action may be taken in `facts`.
    pub open spec fn applicable(self, facts: Facts) -> bool {
        all_hold(facts, self.preconditions)
    }

    /// The facts after the action was taken in `facts`.
    pub open spec fn result(self, facts: Facts) -> Facts {
        apply_all(self.mutators, facts)
    }

    /// What carrying the action out does.
    pub open spec fn effect(self) -> EffectView {
        EffectView { action: self.key, mutators: self.mutators, cost: self.cost }
    }
}

impl View for Action {
    type V = ActionView;

    open spec fn view(&self) -> ActionView {
        ActionView {
            key: self.key@,
            preconditions: requirement_views(self.preconditions@),
            mutators: mutator_views(self.mutators@),
            cost: self.cost as nat,
        }
    }
}

/// The models of a list of actions, in order.
pub open spec fn action_views(actions: Seq<Action>) -> Seq<ActionView> {
    Seq::new(actions.len(), |i: int| actions[i]@)
}

impl Action {
    /// The action named `key` that is always allowed, changes nothing and
    /// costs 1.
    pub fn new(key: &str) -> (action: Action)
        ensures
            action@ == (ActionView {
                key: key@,
                preconditions: Seq::empty(),
                mutators: Seq::empty(),
                cost: 1,
            }),
    {
        let action = Action {
            key: key.to_owned(),
            preconditions: Vec::new(),
            mutators: Vec::new(),
            cost: 1,
        };
        assert(action@.preconditions =~= Seq::empty());
        assert(action@.mutators =~= Seq::empty());
        action
    }

    /// This action with one more precondition, added last.
    pub fn with_precondition(self, key: &str, compare: Compare) -> (action: Action)
        ensures
            action@ == (ActionView {
                preconditions: self@.preconditions.push((key@, compare)),
                ..self@
            }),
    {
        let mut preconditions = self.preconditions;
        preconditions.push((key.to_owned(), compare));
        let action = Action {
            key: self.key,
            preconditions,
            mutators: self.mutators,
            cost: self.cost,
        };
        assert(action@.preconditions =~= self@.preconditions.push((key@, compare)));
        action
    }

    /// This action with one more change, made last.
    pub fn with_mutator(self, mutator: Mutator) -> (action: Action)
        ensures
            action@ == (ActionView { mutators: self@.mutators.push(mutator@), ..self@ }),
    {
        let mut mutators = self.mutators;
        mutators.push(mutator);
        let action = Action {
            key: self.key,
            preconditions: self.preconditions,
            mutators,
            cost: self.cost,
        };
        assert(action@.mutators =~= self@.mutators.push(mutator@));
        action
    }

    /// This action at another cost.
    pub fn set_cost(self, cost: usize) -> (action: Action)
        ensures
            action@ == (ActionView { cost: cost as nat, ..self@ }),
    {
        Action {
            key: self.key,
            preconditions: self.preconditions,
            mutators: self.mutators,
            cost,
        }
    }

    /// Whether the action may be taken in `state`.
    pub fn is_applicable(&self, state: &LocalState) -> (allowed: bool)
        requires
            requirements_fit(state@, self@.preconditions),
        ensures
            allowed == self@.applicable(state@),
    {
        check_requirements(&self.preconditions, state)
    }

    /// The state after the action was taken in `state`, which is left as it
    /// is.
    pub fn apply(&self, state: &LocalState) -> (next: LocalState)
        requires
            all_fit(self@.mutators, state@),
        ensures
            next@ == self@.result(state@),
    {
        let mut next = state.clone();
        apply_mutators(&self.mutators, &mut next);
        next
    }

    /// What carrying the action out does.
    pub fn effect(&self) -> (effect: Effect)
        ensures
            effect@ == self@.effect(),
    {
        Effect {
            action: self.key.clone(),
            mutators: clone_mutators(&self.mutators),
            cost: self.cost,
        }
    }

    /// Whether both actions have the same name, preconditions, changes and
    /// cost.
    pub fn same_action(&self, other: &Action) -> (same: bool)
        ensures
            same == (self@ == other@),
    {
        self.key == other.key && self.cost == other.cost && same_requirements(
            &self.preconditions,
            &other.preconditions,
        ) && same_mutators(&self.mutators, &other.mutators)
    }
}

impl Clone for Action {
    fn clone(&self) -> (copy: Action)
        ensures
            copy@ == self@,
    {
        Action {
            key: self.key.clone(),
            preconditions: clone_requirements(&self.preconditions),
            mutators: clone_mutators(&self.mutators),
            cost: self.cost,
        }
    }
}

/// A copy of a list of actions.
pub fn clone_actions(actions: &Vec<Action>) -> (copy: Vec<Action>)
    ensures
        action_views(copy@) == action_views(actions@),
{
    let n: usize = actions.len();
    let mut copy: Vec<Action> = Vec::new();
    let mut i: usize = 0;
    while i < n
        invariant
            n == actions@.len(),
            i <= n,
            copy@.len() == i,
            forall|j: int| 0 <= j < i ==> (#[trigger] copy@[j])@ == actions@[j]@,
        decreases n - i,
    {
        copy.push(actions[i].clone());
        i += 1;
    }
    assert(action_views(copy@) =~= action_views(actions@));
    copy
}

/// The action named `name` that is always allowed, costs 1 and writes
/// `value` under `key`.
pub fn simple_action(name: &str, key: &str, value: Datum) -> (action: Action)
    ensures
        action@ == (ActionView {
            key: name@,
            preconditions: Seq::empty(),
            mutators: seq![MutatorView::Assign(key@, value)],
            cost: 1,
        }),
{
    let action = Action::new(name).with_mutator(Mutator::set(key, value));
    assert(action@.mutators =~= seq![MutatorView::Assign(key@, value)]);
    action
}

} // verus!
