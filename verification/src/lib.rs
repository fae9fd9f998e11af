//! Goal-oriented action planning: a fact store, declarative actions and goals,
//! a least-cost search over them, and the per-agent record that schedules
//! searches and steps through the resulting plan.

pub mod action;
pub mod channel;
pub mod compare;
pub mod datum;
pub mod goal;
pub mod job;
pub mod localstate;
pub mod mutator;
pub mod path;
pub mod plan;
pub mod planner;
pub mod prelude;
pub mod registry;
pub mod requirement;
pub mod search;
pub mod typing;
pub mod update;
