use vstd::prelude::*;

verus! {

/// The cost of one action, and the total cost of a plan. It is held at the
/// same 64-bit width the search accumulates path costs in, so a plan's total
/// is exact; the search itself takes the raw integer, so the type carries no
/// arithmetic of its own.
#[derive(Clone, Copy, Debug, PartialEq, Eq, Structural, Hash)]
pub struct Cost(pub i64);

} // verus!
