use vstd::prelude::*;

use crate::condition::Condition;

verus! {

/// A named conjunction of conditions that define the acceptable end states.
#[derive(Debug)]
pub struct Goal {
    pub name: String,
    pub conditions: Vec<Condition>,
}

/// The mathematical content of a `Goal`.
pub ghost struct GoalV {
    pub name: Seq<char>,
    pub conditions: Seq<Condition>,
}

impl View for Goal {
    type V = GoalV;

    open spec fn view(&self) -> GoalV {
        GoalV { name: self.name@, conditions: self.conditions@ }
    }
}

impl Goal {
    /// A fresh goal with the given name and no conditions yet.
    pub fn new(name: String) -> (r: Self)
        ensures
            r@ == (GoalV { name: name@, conditions: Seq::<Condition>::empty() }),
    {
        Goal { name, conditions: Vec::new() }
    }

    /// Appends one condition to the conjunction.
    pub fn push_condition(&mut self, condition: Condition)
        ensures
            final(self)@ == (GoalV {
                name: old(self)@.name,
                conditions: old(self)@.conditions.push(condition),
            }),
    {
        self.conditions.push(condition);
    }
}

impl PartialEq for Goal {
    /// Goals are compared by name alone, as befits a named objective.
    fn eq(&self, other: &Self) -> (r: bool) {
        self.name == other.name
    }
}

impl Eq for Goal {

}

impl vstd::std_specs::cmp::PartialEqSpecImpl for Goal {
    open spec fn obeys_eq_spec() -> bool {
        true
    }

    open spec fn eq_spec(&self, other: &Self) -> bool {
        self.name@ == other.name@
    }
}

} // verus!
