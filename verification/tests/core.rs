use goap::Condition;
use goap::Effect;
use goap::FactId;
use goap::Value;
use goap::WorldState;

use std::hash::{Hash, Hasher};

fn hash_of(state: &WorldState) -> u64 {
    let mut hasher = std::collections::hash_map::DefaultHasher::new();
    state.hash(&mut hasher);
    hasher.finish()
}

#[test]
fn condition_and_effects_work() {
    let health = FactId(0);

    let start = WorldState::new(0).with_fact(health, Value::Int(10));

    let healed = start.with_effects(&[Effect::Add(health, Value::Int(5))]);

    assert!(healed.get(health).eq(&Value::Int(15), &start));

    assert!(Condition::Gt(health, Value::Int(10)).is_satisfied(&healed));
}

#[test]
fn resolve_follows_one_hop() {
    let state = WorldState::new(0)
        .with_fact(FactId(0), Value::Ref(FactId(1)))
        .with_fact(FactId(1), Value::Int(2));
    assert_eq!(Value::Ref(FactId(0)).resolve(&state), Value::Ref(FactId(1)));
    assert_eq!(Value::Int(9).resolve(&state), Value::Int(9));
    assert_eq!(Value::Ref(FactId(5)).resolve(&state), Value::Error);
}

#[test]
fn resolve_fully_is_idempotent() {
    let state = WorldState::new(0)
        .with_fact(FactId(0), Value::Ref(FactId(1)))
        .with_fact(FactId(1), Value::Ref(FactId(2)))
        .with_fact(FactId(2), Value::Int(7));
    let once = Value::Ref(FactId(0)).resolve_fully(&state);
    assert_eq!(once, Value::Int(7));
    assert_eq!(once.resolve_fully(&state), once);
}

#[test]
fn cyclic_chain_resolves_to_error() {
    let state = WorldState::new(0)
        .with_fact(FactId(0), Value::Ref(FactId(1)))
        .with_fact(FactId(1), Value::Ref(FactId(0)));
    let r = Value::Ref(FactId(0)).resolve_fully(&state);
    assert_eq!(r, Value::Error);
    assert_eq!(r.resolve_fully(&state), Value::Error);
}

#[test]
fn error_propagates_through_arithmetic_and_comparison() {
    let state = WorldState::new(2);
    let e = Value::Error;
    let one = Value::Int(1);
    assert_eq!(e.add(&one, &state), Value::Error);
    assert_eq!(one.add(&e, &state), Value::Error);
    assert_eq!(e.sub(&one, &state), Value::Error);
    assert!(!e.eq(&one, &state));
    assert!(!e.ne(&one, &state));
    assert!(!e.lt(&one, &state));
    assert!(!e.gt(&one, &state));
    assert!(!e.le(&one, &state));
    assert!(!e.ge(&one, &state));
    assert!(!e.eq(&e, &state));
}

#[test]
fn broken_chain_comparisons() {
    // A reference to a missing slot resolves to the error sentinel: it
    // satisfies no ordering predicate and no equality, though `ne` (which
    // rejects only a raw error operand) still reports the values unequal.
    let state = WorldState::new(1);
    let broken = Value::Ref(FactId(9));
    let one = Value::Int(1);
    assert_eq!(broken.resolve_fully(&state), Value::Error);
    assert!(!broken.eq(&one, &state));
    assert!(broken.ne(&one, &state));
    assert!(!broken.lt(&one, &state));
    assert!(!broken.gt(&one, &state));
    assert!(!broken.le(&one, &state));
    assert!(!broken.ge(&one, &state));
}

#[test]
fn orderings_on_resolved_integers() {
    let state = WorldState::new(0)
        .with_fact(FactId(0), Value::Ref(FactId(1)))
        .with_fact(FactId(1), Value::Int(2));
    let two = Value::Ref(FactId(0));
    let three = Value::Int(3);
    assert!(two.le(&three, &state));
    assert!(two.le(&two, &state));
    assert!(!two.ge(&three, &state));
    assert!(three.ge(&two, &state));
    assert!(two.lt(&three, &state));
    assert!(!two.gt(&three, &state));
}

#[test]
fn addition_overflow_degrades_to_error() {
    let state = WorldState::new(0).with_fact(FactId(0), Value::Int(i64::MAX));
    let bumped = state.with_effects(&[Effect::Add(FactId(0), Value::Int(1))]);
    assert_eq!(bumped.get(FactId(0)), Value::Error);
}

#[test]
fn equality_and_hash_ignore_reference_graph_shape() {
    // Different raw graphs, identical resolved values.
    let s1 = WorldState::new(0)
        .with_fact(FactId(0), Value::Ref(FactId(1)))
        .with_fact(FactId(1), Value::Int(5));
    let s2 = WorldState::new(0)
        .with_fact(FactId(0), Value::Int(5))
        .with_fact(FactId(1), Value::Int(5));
    assert!(s1 == s2);
    assert!(s2 == s1);
    assert_eq!(hash_of(&s1), hash_of(&s2));

    // One differing resolved slot makes them unequal.
    let s3 = WorldState::new(0)
        .with_fact(FactId(0), Value::Int(6))
        .with_fact(FactId(1), Value::Int(5));
    assert!(s1 != s3);
}

#[test]
fn error_slot_is_equal_to_nothing() {
    let s = WorldState::new(0).with_fact(FactId(0), Value::Error);
    let t = WorldState::new(0).with_fact(FactId(0), Value::Error);
    assert!(s != t);
    assert!(s != s.clone());
}

#[test]
fn assign_effect_is_idempotent() {
    let f = FactId(1);
    let base = WorldState::new(3).with_fact(FactId(0), Value::Int(2));
    let once = base.with_effects(&[Effect::Assign(f, Value::Int(9))]);
    let twice = once.with_effects(&[Effect::Assign(f, Value::Int(9))]);
    assert!(once == twice);
    assert_eq!(hash_of(&once), hash_of(&twice));
}

#[test]
fn setting_beyond_length_grows_with_default() {
    let mut state = WorldState::new(1);
    state.set(FactId(3), Value::Int(4));
    assert_eq!(state.get(FactId(3)), Value::Int(4));
    assert_eq!(state.get(FactId(1)), Value::Int(0));
    assert_eq!(state.get(FactId(2)), Value::Int(0));
    // Reading past the end yields the error sentinel.
    assert_eq!(state.get(FactId(4)), Value::Error);
}

#[test]
fn add_set_via_broken_reference_taints_the_fact() {
    // The operand resolves through a reference to a missing slot, so the
    // stored value is the error sentinel, and afterwards every relational
    // operator on that fact evaluates false.
    let f = FactId(0);
    let state = WorldState::new(0)
        .with_fact(f, Value::Int(1))
        .with_fact(FactId(1), Value::Ref(FactId(7)));
    let tainted = state.with_effects(&[Effect::Add(f, Value::Ref(FactId(1)))]);
    assert_eq!(tainted.get(f), Value::Error);
    for cond in [
        Condition::Eq(f, Value::Int(1)),
        Condition::Ne(f, Value::Int(1)),
        Condition::Gt(f, Value::Int(1)),
        Condition::Lt(f, Value::Int(1)),
        Condition::Ge(f, Value::Int(1)),
        Condition::Le(f, Value::Int(1)),
    ] {
        assert!(!cond.is_satisfied(&tainted));
    }
}

#[test]
fn sub_effect_and_later_effects_observe_earlier_ones() {
    let f = FactId(0);
    let state = WorldState::new(1);
    let stepped = state.with_effects(&[
        Effect::Assign(f, Value::Int(10)),
        Effect::Sub(f, Value::Int(4)),
        Effect::Add(f, Value::Int(1)),
    ]);
    assert_eq!(stepped.get(f), Value::Int(7));
}

#[test]
fn conditions_met_is_a_conjunction() {
    let state = WorldState::new(0).with_fact(FactId(0), Value::Int(3));
    let all = [
        Condition::Ge(FactId(0), Value::Int(3)),
        Condition::Le(FactId(0), Value::Int(3)),
    ];
    assert!(goap::conditions_met(&all, &state));
    let mixed = [
        Condition::Ge(FactId(0), Value::Int(3)),
        Condition::Lt(FactId(0), Value::Int(3)),
    ];
    assert!(!goap::conditions_met(&mixed, &state));
    assert!(goap::conditions_met(&[], &state));
}
