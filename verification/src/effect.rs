use vstd::prelude::*;

use crate::fact::FactId;
use crate::value::Value;
use crate::value::val_add;
use crate::value::val_sub;
use crate::value::slot;
use crate::world::WorldState;
use crate::world::grown;
use crate::world::with_slot;

verus! {

/// A mutation of one fact: overwrite it, or add to / subtract from it.
#[derive(Clone, Copy, Debug, PartialEq, Eq, Structural, Hash)]
pub enum Effect {
    Assign(FactId, Value),
    Add(FactId, Value),
    Sub(FactId, Value),
}

/// The state after one effect. `Assign` stores its operand as-is (a reference
/// stays a reference); `Add` and `Sub` resolve the current slot and the
/// operand against the (grown) state and store the arithmetic result, which
/// is always an integer or the error sentinel. A target slot beyond the
/// current length is first created with the default value.
pub open spec fn apply_effect(s: Seq<Value>, e: Effect) -> Seq<Value> {
    match e {
        Effect::Assign(f, v) => with_slot(s, f, v),
        Effect::Add(f, d) => {
            let g = grown(s, f);
            g.update(f.0 as int, val_add(g, slot(g, f), d))
        },
        Effect::Sub(f, d) => {
            let g = grown(s, f);
            g.update(f.0 as int, val_sub(g, slot(g, f), d))
        },
    }
}

/// The state after a list of effects, applied left to right.
pub open spec fn apply_effects(s: Seq<Value>, effects: Seq<Effect>) -> Seq<Value>
    decreases effects.len(),
{
    if effects.len() == 0 {
        s
    } else {
        apply_effect(apply_effects(s, effects.drop_last()), effects.last())
    }
}

/// Assignment is idempotent: applying the same `Assign` effect twice yields
/// the same state as applying it once.
pub proof fn lemma_assign_idempotent(s: Seq<Value>, f: FactId, v: Value)
    ensures
        apply_effect(apply_effect(s, Effect::Assign(f, v)), Effect::Assign(f, v)) == apply_effect(
            s,
            Effect::Assign(f, v),
        ),
{
    let s1 = apply_effect(s, Effect::Assign(f, v));
    assert(apply_effect(s1, Effect::Assign(f, v)) =~= s1);
}

impl Effect {
    /// Applies this effect to one slot of `state`.
    pub fn apply(&self, state: &mut WorldState)
        ensures
            final(state)@ == apply_effect(old(state)@, *self),
    {
        match *self {
            Effect::Assign(fact, value) => {
                state.set(fact, value);
            }
            Effect::Add(fact, delta) => {
                if fact.0 as usize >= state.values.len() {
                    state.push_fact(fact, Value::Int(0));
                }
                proof {
                    assert(state@ =~= grown(old(state)@, fact));
                }
                let cur = state.get(fact);
                let sum = cur.add(&delta, state);
                state.set(fact, sum);
                proof {
                    assert(state@ =~= apply_effect(old(state)@, *self));
                }
            }
            Effect::Sub(fact, delta) => {
                if fact.0 as usize >= state.values.len() {
                    state.push_fact(fact, Value::Int(0));
                }
                proof {
                    assert(state@ =~= grown(old(state)@, fact));
                }
                let cur = state.get(fact);
                let diff = cur.sub(&delta, state);
                state.set(fact, diff);
                proof {
                    assert(state@ =~= apply_effect(old(state)@, *self));
                }
            }
        }
    }
}

} // verus!
