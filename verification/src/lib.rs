use vstd::prelude::*;

mod action;
mod condition;
mod cost;
mod effect;
mod errors;
mod fact;
mod goal;
mod plan;
mod planner;
mod simple;
mod value;
mod world;

pub use action::Action;
pub use condition::Condition;
pub use condition::conditions_met;
pub use cost::Cost;
pub use effect::Effect;
pub use errors::NewFactError;
pub use errors::ParseConditionError;
pub use errors::ParseEffectError;
pub use errors::PlannerError;
pub use fact::FactId;
pub use goal::Goal;
pub use plan::Plan;
pub use planner::Planner;
pub use simple::FactMap;
pub use value::Value;
pub use world::WorldState;

verus! {

} // verus!
