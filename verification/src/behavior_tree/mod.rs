//! Behavior tree ([`BehaviorTree`]) that drives AI decision-making.
pub mod layout;
pub mod node;
pub mod semantics;

use vstd::prelude::*;
use crate::blackboard::Blackboard;
use crate::state_machine::condition::{float_answers, float_comparator, FloatQuery};
use layout::{fresh_between, fresh_runtime};
use node::{fits_at, same_node, ActionResults, BtContext, BtNode, BtRuntime, BtStatus};
use semantics::{fits, tick_node, tree_size, BtEnv};

verus! {

/// What a [`BehaviorTree`] holds, as plain values.
pub struct TreeView {
    /// The root node.
    pub root: BtNode,
    /// Whether the tree evaluates on tick.
    pub active: bool,
}

/// A behavior tree that drives AI decision-making.
///
/// The tree itself is immutable data; per-evaluation state (which child is running, elapsed
/// wait time, etc.) lives in a separate [`BtRuntime`] created via [`BehaviorTree::create_runtime`].
#[derive(Debug)]
pub struct BehaviorTree {
    root: BtNode,
    active: bool,
}

impl View for BehaviorTree {
    type V = TreeView;

    closed spec fn view(&self) -> TreeView {
        TreeView { root: self.root, active: self.active }
    }
}

impl Clone for BehaviorTree {
    fn clone(&self) -> (r: Self)
        ensures
            same_node(self@.root, r@.root),
            r@.active == self@.active,
    {
        BehaviorTree { root: self.root.clone(), active: self.active }
    }
}

impl Default for BehaviorTree {
    fn default() -> (r: Self)
        ensures
            r@.root is Action,
            r@.root->Action_name@ == "Action"@,
            r@.root->action_id@ == Seq::<char>::empty(),
            !r@.active,
    {
        BehaviorTree { root: BtNode::default(), active: false }
    }
}

/// What a tick of a tree reads: the blackboard, the time step, the action results and the
/// answers of the float comparator.
pub open spec fn tick_env<F: Fn(FloatQuery) -> bool>(
    blackboard: Blackboard,
    dt: u64,
    action_results: ActionResults,
    float_compare: F,
) -> BtEnv {
    BtEnv { bb: blackboard@, dt, results: action_results@, fo: float_answers(float_compare) }
}

impl BehaviorTree {
    /// Creates an active behavior tree with the given root node.
    pub fn new(root: BtNode) -> (r: Self)
        ensures
            r@ == (TreeView { root, active: true }),
    {
        BehaviorTree { root, active: true }
    }

    /// Returns the root node.
    pub fn root(&self) -> (r: &BtNode)
        ensures
            *r == self@.root,
    {
        &self.root
    }

    /// Returns a mutable reference to the root node.
    pub fn root_mut(&mut self) -> (r: &mut BtNode)
        ensures
            *r == old(self)@.root,
            final(self)@ == (TreeView { root: *final(r), active: old(self)@.active }),
    {
        &mut self.root
    }

    /// Returns `true` if the tree is active. An inactive tree returns [`BtStatus::Failure`] on tick.
    pub fn is_active(&self) -> (r: bool)
        ensures
            r == self@.active,
    {
        self.active
    }

    /// Enables or disables evaluation.
    pub fn set_active(&mut self, active: bool)
        ensures
            final(self)@ == (TreeView { root: old(self)@.root, active }),
    {
        self.active = active;
    }

    /// Allocates a fresh [`BtRuntime`] sized for this tree.
    pub fn create_runtime(&self) -> (r: BtRuntime)
        requires
            tree_size(self@.root) <= usize::MAX,
        ensures
            r@.len() == tree_size(self@.root),
            r@ == fresh_runtime(tree_size(self@.root)),
            fresh_between(r@, 0, r@.len() as int),
            fits(self@.root, r@, 0),
    {
        BtRuntime::new(&self.root)
    }

    /// Whether `runtime` is laid out for this tree, as [`BehaviorTree::create_runtime`]
    /// lays it out: evaluation needs such a runtime.
    pub fn runtime_fits(&self, runtime: &BtRuntime) -> (r: bool)
        ensures
            r == fits(self@.root, runtime@, 0),
    {
        fits_at(&self.root, runtime, 0)
    }

    /// Evaluates the tree for one tick of `dt` microseconds.
    ///
    /// `action_results` maps action ids to the status reported by the game for each leaf
    /// [`BtNode::Action`]; missing ids keep their previous status. Float comparisons in
    /// condition nodes are answered by `float_compare`. Returns the root status. An inactive
    /// tree reports `Failure` and leaves any runtime untouched; an active tree needs a runtime
    /// laid out for it (see [`BehaviorTree::runtime_fits`]).
    pub fn tick<F: Fn(FloatQuery) -> bool>(
        &self,
        dt: u64,
        blackboard: &Blackboard,
        action_results: &ActionResults,
        runtime: &mut BtRuntime,
        float_compare: &F,
    ) -> (r: BtStatus)
        requires
            blackboard.wf(),
            action_results.wf(),
            float_comparator(*float_compare),
            self@.active ==> fits(self@.root, old(runtime)@, 0),
        ensures
            !self@.active ==> r == BtStatus::Failure && final(runtime)@ == old(runtime)@,
            self@.active ==> (r, final(runtime)@) == tick_node(
                self@.root,
                tick_env(*blackboard, dt, *action_results, *float_compare),
                old(runtime)@,
                0,
            ),
            fits(self@.root, old(runtime)@, 0) ==> fits(self@.root, final(runtime)@, 0),
    {
        if !self.active {
            return BtStatus::Failure;
        }
        let ctx = BtContext { blackboard, dt, action_results, float_compare };
        let (status, _) = self.root.tick(&ctx, runtime, 0);
        status
    }
}

} // verus!
