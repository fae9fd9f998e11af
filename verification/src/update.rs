//! The request to plan anew.

use vstd::prelude::*;
use bevy_ecs::entity::Entity;
use crate::goal::Goal;

verus! {

/// `bevy_ecs::entity::Entity`, the name of an entity. It is carried through
/// and never looked into.
#[verifier::external_type_specification]
#[verifier::external_body]
pub struct ExEntity(bevy_ecs::entity::Entity);

/// The request, addressed to the entity that holds a planner, to start a new
/// search. A planner that is searching already ignores it.
#[derive(Debug)]
pub struct UpdatePlan {
    /// The entity that holds the planner.
    pub planner: Entity,
    /// The goals to plan for, in order of priority, in place of the
    /// planner's own.
    pub goals: Option<Vec<Goal>>,
}

impl From<Entity> for UpdatePlan {
    fn from(entity: Entity) -> (update: UpdatePlan) {
        UpdatePlan { planner: entity, goals: None }
    }
}

impl vstd::std_specs::convert::FromSpecImpl<Entity> for UpdatePlan {
    open spec fn obeys_from_spec() -> bool {
        true
    }

    open spec fn from_spec(entity: Entity) -> UpdatePlan {
        UpdatePlan { planner: entity, goals: None }
    }
}

} // verus!
