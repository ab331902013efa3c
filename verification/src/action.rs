use vstd::prelude::*;

use crate::condition::Condition;
use crate::cost::Cost;
use crate::effect::Effect;

verus! {

/// A named, costed bundle of preconditions and effects, plus the executor
/// tags that agent-control code attaches to it (opaque to the planner).
#[derive(Debug)]
pub struct Action {
    pub name: String,
    pub cost: Cost,
    pub preconditions: Vec<Condition>,
    pub effects: Vec<Effect>,
    pub executors: Vec<(String, String)>,
}

/// The mathematical content of an `Action`.
pub ghost struct ActionV {
    pub name: Seq<char>,
    pub cost: int,
    pub preconditions: Seq<Condition>,
    pub effects: Seq<Effect>,
    pub executors: Seq<(Seq<char>, Seq<char>)>,
}

impl View for Action {
    type V = ActionV;

    open spec fn view(&self) -> ActionV {
        ActionV {
            name: self.name@,
            cost: self.cost.0 as int,
            preconditions: self.preconditions@,
            effects: self.effects@,
            executors: self.executors.deep_view(),
        }
    }
}

impl Action {
    /// A fresh action with the given name and cost and nothing else.
    pub fn new(name: String, cost: Cost) -> (r: Self)
        ensures
            r@ == (ActionV {
                name: name@,
                cost: cost.0 as int,
                preconditions: Seq::<Condition>::empty(),
                effects: Seq::<Effect>::empty(),
                executors: Seq::<(Seq<char>, Seq<char>)>::empty(),
            }),
    {
        let r = Action {
            name,
            cost,
            preconditions: Vec::new(),
            effects: Vec::new(),
            executors: Vec::new(),
        };
        proof {
            assert(r.executors.deep_view() =~= Seq::<(Seq<char>, Seq<char>)>::empty());
        }
        r
    }

    /// Appends one precondition.
    pub fn push_precondition(&mut self, precondition: Condition)
        ensures
            final(self)@ == (ActionV {
                preconditions: old(self)@.preconditions.push(precondition),
                ..old(self)@
            }),
    {
        self.preconditions.push(precondition);
        proof {
            assert(self.executors.deep_view() =~= old(self).executors.deep_view());
        }
    }

    /// Appends one effect.
    pub fn push_effect(&mut self, effect: Effect)
        ensures
            final(self)@ == (ActionV { effects: old(self)@.effects.push(effect), ..old(self)@ }),
    {
        self.effects.push(effect);
        proof {
            assert(self.executors.deep_view() =~= old(self).executors.deep_view());
        }
    }

    /// Appends one executor tag pair.
    pub fn push_executor(&mut self, executor_0: String, executor_1: String)
        ensures
            final(self)@ == (ActionV {
                executors: old(self)@.executors.push((executor_0@, executor_1@)),
                ..old(self)@
            }),
    {
        let ghost e0 = executor_0@;
        let ghost e1 = executor_1@;
        self.executors.push((executor_0, executor_1));
        proof {
            assert(self.executors.deep_view() =~= old(self)@.executors.push((e0, e1)));
        }
    }

    /// Appends one executor tag pair given as a tuple.
    pub fn push_executorv(&mut self, executor: (String, String))
        ensures
            final(self)@ == (ActionV {
                executors: old(self)@.executors.push((executor.0@, executor.1@)),
                ..old(self)@
            }),
    {
        let ghost e0 = executor.0@;
        let ghost e1 = executor.1@;
        self.executors.push(executor);
        proof {
            assert(self.executors.deep_view() =~= old(self)@.executors.push((e0, e1)));
        }
    }
}

} // verus!
