//! The items that a user of the planner needs, in one place.

pub use crate::action::{simple_action, Action, Effect};
pub use crate::compare::Compare;
pub use crate::datum::{Datum, Kind};
pub use crate::goal::Goal;
pub use crate::localstate::LocalState;
pub use crate::mutator::Mutator;
pub use crate::plan::{find_plan, make_plan, make_plan_within, Plan, DEFAULT_MAX_EXPANSIONS};
pub use crate::job::{PlanJob, PlanUndelivered};
pub use crate::planner::{
    ChannelDisconnected, ConfigError, IsPlanning, Planner, Step, TaskStatus,
};
pub use crate::search::{search, SearchOutcome};
pub use crate::typing::{are_well_typed, is_well_typed};
pub use crate::update::UpdatePlan;
