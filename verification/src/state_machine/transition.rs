//! Transitions ([`AiTransition`]) connecting two states with a firing condition.

use vstd::prelude::*;
use super::condition::{same_logic, Condition, ConditionNode, CompareOp, DEFAULT_TOLERANCE_BITS};
use crate::blackboard::BlackboardValue;

verus! {

/// A transition between two AI states.
#[derive(Debug)]
pub struct AiTransition {
    /// Human-readable transition name.
    pub name: String,
    /// Source state index.
    pub from: usize,
    /// Destination state index.
    pub to: usize,
    /// Condition tree that must evaluate to true for this transition to fire.
    pub condition: ConditionNode,
    /// Minimum time (microseconds) the source state must be active before this transition
    /// can fire.
    pub min_time_in_state: u64,
}

/// `a` and `b` are the same transition: equal names, states and minimum time, and the
/// same condition tree.
pub open spec fn same_transition(a: AiTransition, b: AiTransition) -> bool {
    &&& a.name == b.name
    &&& a.from == b.from
    &&& a.to == b.to
    &&& same_logic(a.condition, b.condition)
    &&& a.min_time_in_state == b.min_time_in_state
}

impl Clone for AiTransition {
    fn clone(&self) -> (r: Self)
        ensures
            same_transition(*self, r),
    {
        AiTransition {
            name: self.name.clone(),
            from: self.from,
            to: self.to,
            condition: self.condition.clone(),
            min_time_in_state: self.min_time_in_state,
        }
    }
}

impl Default for AiTransition {
    fn default() -> (r: Self)
        ensures
            r.name@ == "Transition"@,
            r.from == usize::MAX,
            r.to == usize::MAX,
            r.condition is Leaf,
            r.condition->Leaf_0.key@ == Seq::<char>::empty(),
            r.condition->Leaf_0.op == CompareOp::Equal,
            r.condition->Leaf_0.value == BlackboardValue::Bool(true),
            r.condition->Leaf_0.float_tolerance == DEFAULT_TOLERANCE_BITS,
            r.min_time_in_state == 0,
    {
        AiTransition {
            name: "Transition".to_owned(),
            from: usize::MAX,
            to: usize::MAX,
            condition: ConditionNode::Leaf(Condition::default()),
            min_time_in_state: 0,
        }
    }
}

impl AiTransition {
    /// Creates a transition from state index `from` to `to` that fires when `condition` is true.
    pub fn new(name: &str, from: usize, to: usize, condition: ConditionNode) -> (r: Self)
        ensures
            r.name@ == name@,
            r.from == from,
            r.to == to,
            r.condition == condition,
            r.min_time_in_state == 0,
    {
        AiTransition { name: name.to_owned(), from, to, condition, min_time_in_state: 0 }
    }

    /// Sets the minimum time (microseconds) the source state must be active before this
    /// transition can fire.
    pub fn with_min_time(self, micros: u64) -> (r: Self)
        ensures
            r == (AiTransition { min_time_in_state: micros, ..self }),
    {
        let mut r = self;
        r.min_time_in_state = micros;
        r
    }
}

} // verus!
