use vstd::prelude::*;

use crate::cost::Cost;

verus! {

/// The result of a successful search: the chosen actions as indices into the
/// planner's action library, in execution order, and their accumulated cost.
#[derive(Debug)]
pub struct Plan {
    pub actions: Vec<usize>,
    pub total_cost: Cost,
}

} // verus!
