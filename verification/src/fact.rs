use vstd::prelude::*;

verus! {

/// Identifier of one fact: an index into a `WorldState`'s slots.
#[derive(Clone, Copy, Debug, PartialEq, Eq, Structural, Hash)]
pub struct FactId(pub u16);

} // verus!
