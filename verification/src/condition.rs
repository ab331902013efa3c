use vstd::prelude::*;

use crate::fact::FactId;
use crate::value::Value;
use crate::value::slot;
use crate::value::val_eq;
use crate::value::val_ne;
use crate::value::val_gt;
use crate::value::val_lt;
use crate::value::val_ge;
use crate::value::val_le;
use crate::world::WorldState;

verus! {

/// A relational predicate over one fact and one value.
#[derive(Clone, Copy, Debug, PartialEq, Eq, Structural, Hash)]
pub enum Condition {
    Eq(FactId, Value),
    Ne(FactId, Value),
    Gt(FactId, Value),
    Lt(FactId, Value),
    Ge(FactId, Value),
    Le(FactId, Value),
}

/// Whether the condition holds in `s`: the raw slot value and the condition's
/// own value are compared under full reference resolution against `s`.
pub open spec fn cond_sat(c: Condition, s: Seq<Value>) -> bool {
    match c {
        Condition::Eq(f, v) => val_eq(s, slot(s, f), v),
        Condition::Ne(f, v) => val_ne(s, slot(s, f), v),
        Condition::Gt(f, v) => val_gt(s, slot(s, f), v),
        Condition::Lt(f, v) => val_lt(s, slot(s, f), v),
        Condition::Ge(f, v) => val_ge(s, slot(s, f), v),
        Condition::Le(f, v) => val_le(s, slot(s, f), v),
    }
}

/// All conditions hold at once (a conjunction).
pub open spec fn conds_sat(cs: Seq<Condition>, s: Seq<Value>) -> bool {
    forall|i: int| 0 <= i < cs.len() ==> cond_sat(#[trigger] cs[i], s)
}

impl Condition {
    /// Evaluates this condition against `state`.
    pub fn is_satisfied(&self, state: &WorldState) -> (r: bool)
        ensures
            r == cond_sat(*self, state@),
    {
        match *self {
            Condition::Eq(fact, value) => state.get(fact).eq(&value, state),
            Condition::Ne(fact, value) => state.get(fact).ne(&value, state),
            Condition::Gt(fact, value) => state.get(fact).gt(&value, state),
            Condition::Lt(fact, value) => state.get(fact).lt(&value, state),
            Condition::Ge(fact, value) => state.get(fact).ge(&value, state),
            Condition::Le(fact, value) => state.get(fact).le(&value, state),
        }
    }
}

/// Evaluates a conjunction of conditions, stopping at the first failure.
pub fn conditions_met(conditions: &[Condition], state: &WorldState) -> (r: bool)
    ensures
        r == conds_sat(conditions@, state@),
{
    let n = conditions.len();
    let mut i: usize = 0;
    while i < n
        invariant
            i <= n == conditions@.len(),
            forall|j: int| 0 <= j < i ==> cond_sat(#[trigger] conditions@[j], state@),
        decreases n - i,
    {
        if !conditions[i].is_satisfied(state) {
            return false;
        }
        i = i + 1;
    }
    true
}

} // verus!
