use vstd::prelude::*;

use crate::fact::FactId;
use crate::world::WorldState;

verus! {

/// The content of one fact slot: a concrete integer, an indirect reference to
/// another fact, or the error sentinel that invalid operations produce.
#[derive(Clone, Copy, Debug, PartialEq, Eq, Structural, Hash)]
pub enum Value {
    Int(i64),
    Ref(FactId),
    Error,
}

/// The raw value stored at slot `f`, or the error sentinel when `f` points
/// outside the state.
pub open spec fn slot(s: Seq<Value>, f: FactId) -> Value {
    if (f.0 as int) < s.len() {
        s[f.0 as int]
    } else {
        Value::Error
    }
}

/// One step of reference resolution: a reference is replaced by the slot it
/// points at; anything else resolves to itself.
pub open spec fn resolve_one(s: Seq<Value>, v: Value) -> Value {
    match v {
        Value::Ref(f) => slot(s, f),
        _ => v,
    }
}

/// Chases a reference chain for at most `fuel` steps; a chain that is still
/// unresolved when the fuel runs out yields the error sentinel.
pub open spec fn chase(s: Seq<Value>, v: Value, fuel: nat) -> Value
    decreases fuel,
{
    if fuel == 0 {
        Value::Error
    } else {
        match v {
            Value::Ref(f) => chase(s, slot(s, f), (fuel - 1) as nat),
            _ => v,
        }
    }
}

/// Full resolution of a value against a state. A terminating chain visits
/// pairwise distinct slots, so it takes at most `s.len()` reference steps;
/// the one extra unit of fuel means that only a cyclic (non-terminating)
/// chain is cut off, and such a chain yields the error sentinel.
pub open spec fn resolve_full(s: Seq<Value>, v: Value) -> Value {
    chase(s, v, s.len() + 1)
}

/// Both sides fully resolve to integers and those integers are equal.
/// The error sentinel is equal to nothing, itself included.
pub open spec fn val_eq_even_error(s: Seq<Value>, a: Value, b: Value) -> bool {
    match (resolve_full(s, a), resolve_full(s, b)) {
        (Value::Int(x), Value::Int(y)) => x == y,
        _ => false,
    }
}

/// Both sides fully resolve to integers and the left one is smaller.
pub open spec fn val_lt_even_error(s: Seq<Value>, a: Value, b: Value) -> bool {
    match (resolve_full(s, a), resolve_full(s, b)) {
        (Value::Int(x), Value::Int(y)) => x < y,
        _ => false,
    }
}

/// Both sides fully resolve to integers and the left one is greater.
pub open spec fn val_gt_even_error(s: Seq<Value>, a: Value, b: Value) -> bool {
    match (resolve_full(s, a), resolve_full(s, b)) {
        (Value::Int(x), Value::Int(y)) => x > y,
        _ => false,
    }
}

pub open spec fn val_eq(s: Seq<Value>, a: Value, b: Value) -> bool {
    !(a is Error) && !(b is Error) && val_eq_even_error(s, a, b)
}

pub open spec fn val_ne(s: Seq<Value>, a: Value, b: Value) -> bool {
    !(a is Error) && !(b is Error) && !val_eq_even_error(s, a, b)
}

pub open spec fn val_lt(s: Seq<Value>, a: Value, b: Value) -> bool {
    !(a is Error) && !(b is Error) && val_lt_even_error(s, a, b)
}

pub open spec fn val_gt(s: Seq<Value>, a: Value, b: Value) -> bool {
    !(a is Error) && !(b is Error) && val_gt_even_error(s, a, b)
}

/// Both sides fully resolve to integers and the left one is at most the
/// right one; like every other ordering predicate, a value whose chain ends
/// in the error sentinel satisfies it for no partner.
pub open spec fn val_le(s: Seq<Value>, a: Value, b: Value) -> bool {
    match (resolve_full(s, a), resolve_full(s, b)) {
        (Value::Int(x), Value::Int(y)) => x <= y,
        _ => false,
    }
}

/// Both sides fully resolve to integers and the left one is at least the
/// right one.
pub open spec fn val_ge(s: Seq<Value>, a: Value, b: Value) -> bool {
    match (resolve_full(s, a), resolve_full(s, b)) {
        (Value::Int(x), Value::Int(y)) => x >= y,
        _ => false,
    }
}

/// The sum of the two fully resolved operands, or the error sentinel when a
/// chain breaks or the sum leaves the machine integer range.
pub open spec fn val_add(s: Seq<Value>, a: Value, b: Value) -> Value {
    match (resolve_full(s, a), resolve_full(s, b)) {
        (Value::Int(x), Value::Int(y)) => if i64::MIN <= x + y <= i64::MAX {
            Value::Int((x + y) as i64)
        } else {
            Value::Error
        },
        _ => Value::Error,
    }
}

/// The difference of the two fully resolved operands, under the same rules as
/// `val_add`.
pub open spec fn val_sub(s: Seq<Value>, a: Value, b: Value) -> Value {
    match (resolve_full(s, a), resolve_full(s, b)) {
        (Value::Int(x), Value::Int(y)) => if i64::MIN <= x - y <= i64::MAX {
            Value::Int((x - y) as i64)
        } else {
            Value::Error
        },
        _ => Value::Error,
    }
}

impl Value {
    pub fn is_ref(&self) -> (r: bool)
        ensures
            r == (*self is Ref),
    {
        matches!(self, Value::Ref(_))
    }

    pub fn is_error(&self) -> (r: bool)
        ensures
            r == (*self is Error),
    {
        matches!(self, Value::Error)
    }

    /// Follows exactly one reference hop against `state`.
    pub fn resolve(&self, state: &WorldState) -> (r: Value)
        ensures
            r == resolve_one(state@, *self),
    {
        match self {
            Value::Ref(f) => state.get(*f),
            _ => *self,
        }
    }

    /// Both values fully resolve to integers and those are equal; unlike
    /// `eq`, a raw error operand is not rejected up front (its resolution
    /// still makes the comparison false).
    pub fn eq_even_error(&self, other: &Self, state: &WorldState) -> (r: bool)
        ensures
            r == val_eq_even_error(state@, *self, *other),
    {
        let a = self.resolve_fully(state);
        let b = other.resolve_fully(state);
        match (a, b) {
            (Value::Int(x), Value::Int(y)) => x == y,
            _ => false,
        }
    }

    /// Equality under resolution; false whenever either raw operand is the
    /// error sentinel or either chain fails to reach an integer.
    pub fn eq(&self, other: &Self, state: &WorldState) -> (r: bool)
        ensures
            r == val_eq(state@, *self, *other),
    {
        if self.is_error() || other.is_error() {
            return false;
        }
        self.eq_even_error(other, state)
    }

    /// True when both operands are free of the raw error sentinel and do not
    /// resolve to the same integer.
    pub fn ne(&self, other: &Self, state: &WorldState) -> (r: bool)
        ensures
            r == val_ne(state@, *self, *other),
    {
        if self.is_error() || other.is_error() {
            return false;
        }
        !self.eq_even_error(other, state)
    }

    pub fn lt(&self, other: &Self, state: &WorldState) -> (r: bool)
        ensures
            r == val_lt(state@, *self, *other),
    {
        if self.is_error() || other.is_error() {
            return false;
        }
        let a = self.resolve_fully(state);
        let b = other.resolve_fully(state);
        match (a, b) {
            (Value::Int(x), Value::Int(y)) => x < y,
            _ => false,
        }
    }

    pub fn gt(&self, other: &Self, state: &WorldState) -> (r: bool)
        ensures
            r == val_gt(state@, *self, *other),
    {
        if self.is_error() || other.is_error() {
            return false;
        }
        let a = self.resolve_fully(state);
        let b = other.resolve_fully(state);
        match (a, b) {
            (Value::Int(x), Value::Int(y)) => x > y,
            _ => false,
        }
    }

    pub fn le(&self, other: &Self, state: &WorldState) -> (r: bool)
        ensures
            r == val_le(state@, *self, *other),
    {
        let a = self.resolve_fully(state);
        let b = other.resolve_fully(state);
        match (a, b) {
            (Value::Int(x), Value::Int(y)) => x <= y,
            _ => false,
        }
    }

    pub fn ge(&self, other: &Self, state: &WorldState) -> (r: bool)
        ensures
            r == val_ge(state@, *self, *other),
    {
        let a = self.resolve_fully(state);
        let b = other.resolve_fully(state);
        match (a, b) {
            (Value::Int(x), Value::Int(y)) => x >= y,
            _ => false,
        }
    }

    /// The sum of the fully resolved operands, or the error sentinel when a
    /// chain breaks or the sum overflows.
    pub fn add(&self, other: &Self, state: &WorldState) -> (r: Value)
        ensures
            r == val_add(state@, *self, *other),
    {
        let a = self.resolve_fully(state);
        let b = other.resolve_fully(state);
        match (a, b) {
            (Value::Int(x), Value::Int(y)) => match x.checked_add(y) {
                Some(z) => Value::Int(z),
                None => Value::Error,
            },
            _ => Value::Error,
        }
    }

    /// The difference of the fully resolved operands, under the same rules
    /// as `add`.
    pub fn sub(&self, other: &Self, state: &WorldState) -> (r: Value)
        ensures
            r == val_sub(state@, *self, *other),
    {
        let a = self.resolve_fully(state);
        let b = other.resolve_fully(state);
        match (a, b) {
            (Value::Int(x), Value::Int(y)) => match x.checked_sub(y) {
                Some(z) => Value::Int(z),
                None => Value::Error,
            },
            _ => Value::Error,
        }
    }

    /// Replaces this value with the sum computed by `add`.
    pub fn add_assign(&mut self, other: &Self, state: &WorldState)
        ensures
            *final(self) == val_add(state@, *old(self), *other),
    {
        *self = self.add(other, state);
    }

    /// Follows the reference chain to a fixed point: an integer, the error
    /// sentinel, or the error sentinel again when the chain never terminates.
    pub fn resolve_fully(&self, state: &WorldState) -> (r: Value)
        ensures
            r == resolve_full(state@, *self),
    {
        let ghost s = state@;
        let mut val: Value = *self;
        let mut remaining: usize = state.values.len();
        loop
            invariant
                remaining <= s.len(),
                chase(s, val, (remaining + 1) as nat) == resolve_full(s, *self),
                state@ == s,
            decreases remaining + 1,
        {
            match val {
                Value::Ref(f) => {
                    if remaining == 0 {
                        proof {
                            assert(chase(s, val, 1) == chase(s, slot(s, f), 0));
                        }
                        return Value::Error;
                    }
                    val = state.get(f);
                    remaining = remaining - 1;
                }
                _ => {
                    return val;
                }
            }
        }
    }
}

/// A chased chain never stops on a reference: it ends in an integer or the
/// error sentinel.
proof fn lemma_chase_not_ref(s: Seq<Value>, v: Value, fuel: nat)
    ensures
        !(chase(s, v, fuel) is Ref),
    decreases fuel,
{
    if fuel != 0 {
        match v {
            Value::Ref(f) => lemma_chase_not_ref(s, slot(s, f), (fuel - 1) as nat),
            _ => {}
        }
    }
}

/// Full resolution is idempotent: resolving its own result returns that
/// result unchanged, since the result is never itself a reference.
pub proof fn lemma_resolve_full_idempotent(s: Seq<Value>, v: Value)
    ensures
        resolve_full(s, resolve_full(s, v)) == resolve_full(s, v),
{
    lemma_chase_not_ref(s, v, s.len() + 1);
}

/// A raw error operand taints every operation: arithmetic on it yields the
/// error sentinel and no relational predicate holds of it.
pub proof fn lemma_error_propagates(s: Seq<Value>, a: Value, b: Value)
    requires
        a is Error || b is Error,
    ensures
        val_add(s, a, b) is Error,
        val_sub(s, a, b) is Error,
        !val_eq(s, a, b),
        !val_ne(s, a, b),
        !val_lt(s, a, b),
        !val_gt(s, a, b),
        !val_le(s, a, b),
        !val_ge(s, a, b),
{
}

/// An operand whose reference chain fails to reach an integer taints
/// arithmetic, makes equality false and satisfies no ordering predicate.
pub proof fn lemma_unresolved_operand_taints(s: Seq<Value>, a: Value, b: Value)
    requires
        resolve_full(s, a) is Error || resolve_full(s, b) is Error,
    ensures
        val_add(s, a, b) is Error,
        val_sub(s, a, b) is Error,
        !val_eq(s, a, b),
        !val_eq_even_error(s, a, b),
        !val_lt(s, a, b),
        !val_gt(s, a, b),
        !val_le(s, a, b),
        !val_ge(s, a, b),
{
}

impl Default for Value {
    fn default() -> (r: Self)
        ensures
            r == Value::Int(0),
    {
        Value::Int(0)
    }
}

} // verus!
