use vstd::prelude::*;
use vstd::pervasive::VecAdditionalExecFns;

use crate::effect::Effect;
use crate::effect::apply_effect;
use crate::effect::apply_effects;
use crate::fact::FactId;
use crate::value::Value;
use crate::value::resolve_full;
use crate::value::slot;

verus! {

/// The complete snapshot of all fact values, indexed by `FactId`.
///
/// Equality and hashing are derived properties of the fully resolved
/// projection of the slots, not of the raw reference graph: two states with
/// different raw graphs but the same observable integers are equal and hash
/// alike, and a slot whose chain ends in the error sentinel is equal to
/// nothing, so a state holding one is not even equal to itself.
#[derive(Debug)]
pub struct WorldState {
    pub values: Vec<Value>,
}

impl View for WorldState {
    type V = Seq<Value>;

    open spec fn view(&self) -> Seq<Value> {
        self.values@
    }
}

/// The state extended with default (`Int(0)`) slots until `f` is in range;
/// unchanged when it already is.
pub open spec fn grown(s: Seq<Value>, f: FactId) -> Seq<Value> {
    if (f.0 as int) < s.len() {
        s
    } else {
        s + Seq::new((f.0 + 1 - s.len()) as nat, |i: int| Value::Int(0))
    }
}

/// The state after storing `v` in slot `f`, growing the state first when `f`
/// is out of range.
pub open spec fn with_slot(s: Seq<Value>, f: FactId, v: Value) -> Seq<Value> {
    grown(s, f).update(f.0 as int, v)
}

/// Every slot chased down to the integer (or error sentinel) it stands for.
pub open spec fn resolved_seq(s: Seq<Value>) -> Seq<Value> {
    Seq::new(s.len(), |i: int| resolve_full(s, s[i]))
}

/// Observable equality of two states: same length, and each pair of slots
/// fully resolves, in its own state, to the same integer. A slot that
/// resolves to the error sentinel on either side makes the pair unequal.
pub open spec fn ws_equiv(s1: Seq<Value>, s2: Seq<Value>) -> bool {
    &&& s1.len() == s2.len()
    &&& forall|i: int|
        0 <= i < s1.len() ==> match (
            #[trigger] resolved_seq(s1)[i],
            resolved_seq(s2)[i],
        ) {
            (Value::Int(x), Value::Int(y)) => x == y,
            _ => false,
        }
}

impl WorldState {
    /// A fresh state of `num_facts` slots, each holding the default value.
    pub fn new(num_facts: usize) -> (r: Self)
        ensures
            r@ == Seq::new(num_facts as nat, |i: int| Value::Int(0)),
    {
        let mut values: Vec<Value> = Vec::new();
        while values.len() < num_facts
            invariant
                values@ =~= Seq::new(values@.len(), |i: int| Value::Int(0)),
                values@.len() <= num_facts,
            decreases num_facts - values.len(),
        {
            values.push(Value::Int(0));
        }
        proof {
            assert(values@ =~= Seq::new(num_facts as nat, |i: int| Value::Int(0)));
        }
        WorldState { values }
    }

    /// Stores `value` in slot `fact`, growing the state with default slots
    /// when the slot does not exist yet.
    pub fn push_fact(&mut self, fact: FactId, value: Value)
        ensures
            final(self)@ == with_slot(old(self)@, fact, value),
    {
        let idx: usize = fact.0 as usize;
        while self.values.len() <= idx
            invariant
                old(self)@.len() <= self@.len(),
                self@.len() <= idx + 1 || self@ == old(self)@,
                self@.subrange(0, old(self)@.len() as int) == old(self)@,
                forall|i: int| old(self)@.len() <= i < self@.len() ==> self@[i] == Value::Int(0),
            decreases idx + 1 - self.values.len(),
        {
            self.values.push(Value::Int(0));
        }
        proof {
            assert(self@ =~= grown(old(self)@, fact));
        }
        self.values.set(idx, value);
        proof {
            assert(self@ =~= with_slot(old(self)@, fact, value));
        }
    }

    /// Same as `push_fact`; kept as the plain setter.
    pub fn set(&mut self, fact: FactId, value: Value)
        ensures
            final(self)@ == with_slot(old(self)@, fact, value),
    {
        self.push_fact(fact, value);
    }

    /// The raw value of slot `fact`, or the error sentinel when the slot does
    /// not exist.
    pub fn get(&self, fact: FactId) -> (r: Value)
        ensures
            r == slot(self@, fact),
    {
        let idx: usize = fact.0 as usize;
        if idx < self.values.len() {
            self.values[idx]
        } else {
            Value::Error
        }
    }

    /// Applies the effects in order; a later effect observes the slots an
    /// earlier one wrote.
    pub fn apply_effects(&mut self, effects: &[Effect])
        ensures
            final(self)@ == apply_effects(old(self)@, effects@),
    {
        let n = effects.len();
        let mut k: usize = 0;
        while k < n
            invariant
                k <= n == effects@.len(),
                self@ == apply_effects(old(self)@, effects@.take(k as int)),
            decreases n - k,
        {
            proof {
                assert(effects@.take(k + 1 as int).drop_last() =~= effects@.take(k as int));
                assert(effects@.take(k + 1 as int).last() == effects@[k as int]);
            }
            effects[k].apply(self);
            k = k + 1;
        }
        proof {
            assert(effects@.take(n as int) =~= effects@);
        }
    }

    /// A copy of this state with `value` stored in slot `fact`.
    pub fn with_fact(&self, fact: FactId, value: Value) -> (r: Self)
        ensures
            r@ == with_slot(self@, fact, value),
    {
        let mut next = self.clone();
        next.push_fact(fact, value);
        next
    }

    /// A copy of this state with the effects applied in order.
    pub fn with_effects(&self, effects: &[Effect]) -> (r: Self)
        ensures
            r@ == apply_effects(self@, effects@),
    {
        let mut next = self.clone();
        next.apply_effects(effects);
        next
    }

    /// Every slot fully resolved in this state; the projection that equality
    /// and hashing are defined over.
    pub fn resolved_values(&self) -> (r: Vec<Value>)
        ensures
            r@ == resolved_seq(self@),
    {
        let mut r: Vec<Value> = Vec::new();
        let n = self.values.len();
        while r.len() < n
            invariant
                n == self@.len(),
                r@.len() <= n,
                forall|i: int| 0 <= i < r@.len() ==> r@[i] == resolve_full(self@, self@[i]),
            decreases n - r.len(),
        {
            let i = r.len();
            let v = self.values[i];
            r.push(v.resolve_fully(self));
        }
        proof {
            assert(r@ =~= resolved_seq(self@));
        }
        r
    }
}

/// Equality and hashing agree. Observably equal states have identical
/// resolved projections — and the hash is computed over exactly that
/// projection (see the `Hash` impl below), so equal states hash identically;
/// contrapositively, any differing resolved slot makes states unequal.
/// Conversely, states of equal length whose projections coincide and consist
/// of integers only are observably equal; a slot that resolves to the error
/// sentinel is excluded there, since such a slot makes a state unequal even
/// to itself.
pub proof fn lemma_eq_hash_agreement(s1: Seq<Value>, s2: Seq<Value>)
    ensures
        ws_equiv(s1, s2) ==> resolved_seq(s1) == resolved_seq(s2),
        (s1.len() == s2.len() && resolved_seq(s1) == resolved_seq(s2) && (forall|i: int|
            0 <= i < s1.len() ==> resolve_full(s1, s1[i]) is Int)) ==> ws_equiv(s1, s2),
{
    if ws_equiv(s1, s2) {
        assert forall|i: int| 0 <= i < s1.len() implies resolved_seq(s1)[i] == resolved_seq(
            s2,
        )[i] by {
            assert(match (resolved_seq(s1)[i], resolved_seq(s2)[i]) {
                (Value::Int(x), Value::Int(y)) => x == y,
                _ => false,
            });
        }
        assert(resolved_seq(s1) =~= resolved_seq(s2));
    }
}

impl Clone for WorldState {
    fn clone(&self) -> (r: Self)
        ensures
            r@ == self@,
    {
        let mut values: Vec<Value> = Vec::new();
        let n = self.values.len();
        while values.len() < n
            invariant
                n == self@.len(),
                values@.len() <= n,
                forall|i: int| 0 <= i < values@.len() ==> values@[i] == self@[i],
            decreases n - values.len(),
        {
            let i = values.len();
            values.push(self.values[i]);
        }
        proof {
            assert(values@ =~= self@);
        }
        WorldState { values }
    }
}

impl Default for WorldState {
    fn default() -> (r: Self)
        ensures
            r@ == Seq::<Value>::empty(),
    {
        proof {
            assert(Seq::new(0, |i: int| Value::Int(0)) =~= Seq::<Value>::empty());
        }
        WorldState::new(0)
    }
}

impl PartialEq for WorldState {
    fn eq(&self, other: &Self) -> (r: bool) {
        if self.values.len() != other.values.len() {
            return false;
        }
        let n = self.values.len();
        let mut i: usize = 0;
        while i < n
            invariant
                n == self@.len() == other@.len(),
                i <= n,
                forall|j: int|
                    0 <= j < i ==> match (
                        #[trigger] resolved_seq(self@)[j],
                        resolved_seq(other@)[j],
                    ) {
                        (Value::Int(x), Value::Int(y)) => x == y,
                        _ => false,
                    },
            decreases n - i,
        {
            let a = self.values[i].resolve_fully(self);
            let b = other.values[i].resolve_fully(other);
            proof {
                assert(resolved_seq(self@)[i as int] == a);
                assert(resolved_seq(other@)[i as int] == b);
            }
            match (a, b) {
                (Value::Int(x), Value::Int(y)) => {
                    if x != y {
                        proof {
                            assert(!ws_equiv(self@, other@));
                        }
                        return false;
                    }
                }
                _ => {
                    proof {
                        assert(!ws_equiv(self@, other@));
                    }
                    return false;
                }
            }
            i = i + 1;
        }
        true
    }
}

impl Eq for WorldState {

}

impl vstd::std_specs::cmp::PartialEqSpecImpl for WorldState {
    open spec fn obeys_eq_spec() -> bool {
        true
    }

    open spec fn eq_spec(&self, other: &Self) -> bool {
        ws_equiv(self@, other@)
    }
}

/// Relies on std's `Hash` for `Vec<Value>`: the wrapper only hands the given
/// vector to the hasher.
#[verifier::external_body]
fn feed_hasher<H: core::hash::Hasher>(v: &Vec<Value>, state: &mut H) {
    core::hash::Hash::hash(v, state);
}

impl core::hash::Hash for WorldState {
    /// The hash is fed exactly the fully resolved projection of the slots,
    /// so two states whose slots resolve to the same integers hash
    /// identically, as the equality above requires.
    fn hash<H: core::hash::Hasher>(&self, state: &mut H) {
        let resolved = self.resolved_values();
        feed_hasher(&resolved, state);
    }
}

} // verus!
