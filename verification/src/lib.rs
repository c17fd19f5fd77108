//! AI building blocks: a condition-driven state machine, a behavior tree, and a shared
//! blackboard data store, with their behaviour stated in contracts and proved.
//!
//! Times are whole microseconds, and floating point values are held as the bit patterns of
//! `f32` values; comparisons between two floats are answered by a comparator that the caller
//! hands to the evaluating functions.
pub mod behavior_tree;
pub mod blackboard;
pub mod state_machine;
pub mod string_map;
pub mod validate;

pub use behavior_tree::{
    node::{ActionResults, BtContext, BtNode, BtRuntime, BtStatus},
    BehaviorTree,
};
pub use blackboard::{Blackboard, BlackboardValue};
pub use state_machine::{
    condition::{CompareOp, Condition, ConditionNode, FloatQuery},
    state::{AiState, StateAction},
    transition::AiTransition,
    AiStateMachine, AiStateMachineEvent,
};
pub use string_map::StringMap;
pub use validate::ValidationError;
