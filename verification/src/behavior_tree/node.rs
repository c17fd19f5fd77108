//! Behavior tree node types ([`BtNode`]) and their evaluation runtime ([`BtRuntime`]).

use vstd::prelude::*;
use crate::blackboard::{Blackboard, BlackboardValue};
use crate::state_machine::condition::{
    float_answers, float_comparator, node_holds, same_logic, ConditionNode, FloatQuery,
};
use crate::string_map::StringMap;
use super::layout::{
    children_fit, fresh_runtime, lemma_tick_shape, unchanged_outside, lemma_sequence_shape, lemma_selector_shape,
    lemma_parallel_shape, fresh_between, lemma_child_ranges, lemma_child_step, lemma_fresh_fits,
    lemma_take_mono, lemma_take_step, lemma_update_own_entry,
};
use super::semantics::{
    child_id, fits, forest_size, inverted, lemma_parallel_unfold, lemma_selector_unfold,
    lemma_sequence_unfold, lemma_tick_unfold, parallel_from, selector_from, sequence_from,
    tick_node, tick_step, tree_size, with_running_index, BtEnv,
};

verus! {

broadcast use vstd::std_specs::vec::group_vec_axioms;

/// Result of a behavior tree node evaluation.
#[derive(Debug, Clone, Copy, PartialEq, Eq, Structural)]
pub enum BtStatus {
    /// The node finished successfully.
    Success,
    /// The node failed.
    Failure,
    /// The node is still running and should be ticked again next frame.
    Running,
}

impl Default for BtStatus {
    fn default() -> (r: Self)
        ensures
            r == BtStatus::Success,
    {
        BtStatus::Success
    }
}

/// Statuses reported by the game for action leaves, keyed by action id.
pub type ActionResults = StringMap<BtStatus>;

/// A node in the behavior tree.
#[derive(Debug)]
pub enum BtNode {
    /// Runs children in order; fails on the first child that fails, succeeds if all succeed.
    Sequence {
        /// Node name.
        name: String,
        /// Child nodes evaluated in order.
        children: Vec<BtNode>,
    },
    /// Runs children in order; succeeds on the first child that succeeds (fallback).
    Selector {
        /// Node name.
        name: String,
        /// Child nodes evaluated in order.
        children: Vec<BtNode>,
    },
    /// Inverts its child's result (`Success` <-> `Failure`; `Running` passes through).
    Inverter {
        /// Node name.
        name: String,
        /// Child node.
        child: Box<BtNode>,
    },
    /// Repeats its child until it has finished `max_count` times (0 = infinite).
    Repeater {
        /// Node name.
        name: String,
        /// Child node.
        child: Box<BtNode>,
        /// Number of completions before succeeding; `0` repeats forever.
        max_count: u32,
    },
    /// Runs its child and always reports `Success` (unless the child is `Running`).
    AlwaysSucceed {
        /// Node name.
        name: String,
        /// Child node.
        child: Box<BtNode>,
    },
    /// Succeeds if its condition evaluates to true, otherwise fails.
    ConditionCheck {
        /// Node name.
        name: String,
        /// Condition tree evaluated against the blackboard.
        condition: ConditionNode,
    },
    /// A leaf whose status is supplied by the game through the action results.
    Action {
        /// Node name.
        name: String,
        /// Identifier the game uses to report this action's status.
        action_id: String,
    },
    /// Ticks all children every frame; succeeds when `success_threshold` children succeed.
    Parallel {
        /// Node name.
        name: String,
        /// Child nodes, all ticked each frame.
        children: Vec<BtNode>,
        /// Number of successful children required to succeed; `0` means "all".
        success_threshold: usize,
    },
    /// Reports `Running` until `duration` microseconds have elapsed, then `Success`.
    Wait {
        /// Node name.
        name: String,
        /// Wait duration in microseconds.
        duration: u64,
    },
}

/// Per-node runtime state.
#[derive(Debug, Clone, Copy, PartialEq, Eq, Structural)]
pub struct NodeRuntime {
    /// Child to resume from (sequence and selector nodes).
    pub running_index: usize,
    /// Completions counted so far (repeater nodes).
    pub repeat_count: u32,
    /// Microseconds waited so far (wait nodes).
    pub elapsed: u64,
    /// Status reported on the last tick.
    pub last_status: BtStatus,
}

/// The state of a node that has not been ticked yet.
pub open spec fn fresh_node_runtime() -> NodeRuntime {
    NodeRuntime { running_index: 0, repeat_count: 0, elapsed: 0, last_status: BtStatus::Success }
}

impl Default for NodeRuntime {
    fn default() -> (r: Self)
        ensures
            r == fresh_node_runtime(),
    {
        NodeRuntime { running_index: 0, repeat_count: 0, elapsed: 0, last_status: BtStatus::Success }
    }
}

/// Counts the nodes of the tree rooted at `node`.
pub fn count_nodes(node: &BtNode) -> (r: usize)
    requires
        tree_size(*node) <= usize::MAX,
    ensures
        r == tree_size(*node),
    decreases node,
{
    match node {
        BtNode::Sequence { children, .. } | BtNode::Selector { children, .. } | BtNode::Parallel {
            children,
            ..
        } => {
            proof {
                lemma_child_ranges(children@, 0);
            }
            1 + count_forest(children, 0)
        },
        BtNode::Inverter { child, .. } | BtNode::AlwaysSucceed { child, .. } | BtNode::Repeater {
            child,
            ..
        } => 1 + count_nodes(child),
        _ => 1,
    }
}

/// Counts the nodes of the trees rooted at `children[from..]`.
fn count_forest(children: &Vec<BtNode>, from: usize) -> (r: usize)
    requires
        from <= children@.len(),
        forest_size(children@) < usize::MAX,
    ensures
        r == forest_size(children@) - forest_size(children@.take(from as int)),
    decreases children, 0nat,
{
    let ghost cs = children@;
    proof {
        lemma_child_ranges(cs, 0);
        lemma_take_mono(cs, from as int, cs.len() as int);
    }
    let mut total: usize = 0;
    let mut i: usize = from;
    while i < children.len()
        invariant
            cs == children@,
            from <= i <= cs.len(),
            forest_size(cs) < usize::MAX,
            total == forest_size(cs.take(i as int)) - forest_size(cs.take(from as int)),
            forest_size(cs.take(from as int)) <= forest_size(cs.take(i as int)) <= forest_size(cs),
        decreases cs.len() - i,
    {
        proof {
            lemma_take_step(cs, i as int);
            lemma_take_mono(cs, i + 1, cs.len() as int);
            assert(decreases_to!(children => children@[i as int]));
            assert(forest_size(cs.take(i + 1)) == forest_size(cs.take(i as int)) + tree_size(cs[i as int]));
            assert(cs.take(cs.len() as int) =~= cs);
        }
        total = total + count_nodes(&children[i]);
        i = i + 1;
    }
    assert(cs.take(cs.len() as int) =~= cs);
    total
}

/// Whether `runtime` is laid out for the tree rooted at `node` with pre-order index `id`.
pub fn fits_at(node: &BtNode, runtime: &BtRuntime, id: usize) -> (r: bool)
    ensures
        r == fits(*node, runtime@, id as int),
    decreases node,
{
    proof {
        runtime.lemma_len_bound();
    }
    if id >= runtime.node_states.len() {
        return false;
    }
    match node {
        BtNode::Sequence { children, .. } | BtNode::Selector { children, .. } => {
            if runtime.entry(id).running_index > children.len() {
                return false;
            }
            children_fit_at(children, runtime, id)
        },
        BtNode::Parallel { children, .. } => children_fit_at(children, runtime, id),
        BtNode::Inverter { child, .. } | BtNode::AlwaysSucceed { child, .. } | BtNode::Repeater {
            child,
            ..
        } => fits_at(child, runtime, id + 1),
        _ => true,
    }
}

/// Whether `runtime` has room for the children `children` of the node at `id`, each laid
/// out at its pre-order index.
fn children_fit_at(children: &Vec<BtNode>, runtime: &BtRuntime, id: usize) -> (r: bool)
    requires
        id < runtime@.len(),
    ensures
        r == (id + 1 + forest_size(children@) <= runtime@.len() && children_fit(
            children@,
            runtime@,
            id as int,
        )),
    decreases children, 0nat,
{
    let ghost cs = children@;
    let ghost rt = runtime@;
    proof {
        runtime.lemma_len_bound();
        lemma_child_ranges(cs, id as int);
    }
    let mut cid: usize = id + 1;
    let mut i: usize = 0;
    while i < children.len()
        invariant
            cs == children@,
            rt == runtime@,
            id < rt.len() <= usize::MAX,
            i <= cs.len(),
            cid == child_id(id as int, cs, i as int),
            cid <= rt.len(),
            forall|j: int| 0 <= j < i ==> fits(#[trigger] cs[j], rt, child_id(id as int, cs, j)),
        decreases cs.len() - i,
    {
        proof {
            lemma_child_ranges(cs, id as int);
            assert(decreases_to!(children => children@[i as int]));
        }
        if !fits_at(&children[i], runtime, cid) {
            assert(!fits(cs[i as int], rt, child_id(id as int, cs, i as int)));
            return false;
        }
        cid = cid + count_nodes(&children[i]);
        i = i + 1;
    }
    proof {
        lemma_child_ranges(cs, id as int);
    }
    true
}

/// Runtime state for behavior tree evaluation: one entry per node, in pre-order.
#[derive(Debug)]
pub struct BtRuntime {
    node_states: Vec<NodeRuntime>,
}

impl View for BtRuntime {
    type V = Seq<NodeRuntime>;

    closed spec fn view(&self) -> Seq<NodeRuntime> {
        self.node_states@
    }
}

impl Clone for BtRuntime {
    fn clone(&self) -> (r: Self)
        ensures
            r@ == self@,
    {
        let mut states: Vec<NodeRuntime> = Vec::new();
        let mut i: usize = 0;
        while i < self.node_states.len()
            invariant
                i <= self@.len(),
                states@ == self@.take(i as int),
            decreases self@.len() - i,
        {
            states.push(self.node_states[i]);
            i = i + 1;
            assert(states@ =~= self@.take(i as int));
        }
        assert(self@.take(self@.len() as int) =~= self@);
        BtRuntime { node_states: states }
    }
}

impl Default for BtRuntime {
    fn default() -> (r: Self)
        ensures
            r@ == Seq::<NodeRuntime>::empty(),
    {
        BtRuntime { node_states: Vec::new() }
    }
}

impl BtRuntime {
    /// Allocates runtime state for the tree rooted at `root`: one untouched entry per node.
    pub fn new(root: &BtNode) -> (r: Self)
        requires
            tree_size(*root) <= usize::MAX,
        ensures
            r@.len() == tree_size(*root),
            r@ == fresh_runtime(tree_size(*root)),
            fresh_between(r@, 0, r@.len() as int),
            fits(*root, r@, 0),
    {
        let count = count_nodes(root);
        let mut states: Vec<NodeRuntime> = Vec::new();
        let mut i: usize = 0;
        while i < count
            invariant
                i <= count,
                states@.len() == i,
                fresh_between(states@, 0, i as int),
            decreases count - i,
        {
            states.push(NodeRuntime::default());
            i = i + 1;
        }
        let r = BtRuntime { node_states: states };
        proof {
            lemma_fresh_fits(*root, r@, 0);
            assert(r@ =~= fresh_runtime(tree_size(*root)));
        }
        r
    }

    /// Resets all per-node runtime state to its initial value.
    pub fn reset(&mut self)
        ensures
            final(self)@.len() == old(self)@.len(),
            final(self)@ == fresh_runtime(old(self)@.len()),
            fresh_between(final(self)@, 0, final(self)@.len() as int),
    {
        let n = self.node_states.len();
        let mut i: usize = 0;
        while i < n
            invariant
                i <= n,
                self@.len() == n,
                fresh_between(self@, 0, i as int),
            decreases n - i,
        {
            self.node_states.set(i, NodeRuntime::default());
            i = i + 1;
        }
        assert(self@ =~= fresh_runtime(n as nat));
    }

    /// The runtime has at most `usize::MAX` entries.
    pub proof fn lemma_len_bound(&self)
        ensures
            self@.len() <= usize::MAX,
    {
        assert(self.node_states@.len() == self.node_states.len());
    }

    fn entry(&self, id: usize) -> (r: NodeRuntime)
        requires
            id < self@.len(),
        ensures
            r == self@[id as int],
    {
        self.node_states[id]
    }

    fn set_entry(&mut self, id: usize, x: NodeRuntime)
        requires
            id < old(self)@.len(),
        ensures
            final(self)@ == old(self)@.update(id as int, x),
    {
        self.node_states.set(id, x);
    }
}

} // verus!

verus! {

/// Context passed to behavior tree evaluation.
pub struct BtContext<'a, F> {
    /// Blackboard read by condition nodes.
    pub blackboard: &'a Blackboard,
    /// Time delta for this tick, in microseconds.
    pub dt: u64,
    /// Per-action status supplied by the game, keyed by `action_id`.
    pub action_results: &'a ActionResults,
    /// Answers the float comparisons of condition nodes.
    pub float_compare: &'a F,
}

/// What a context gives a tick to read.
pub open spec fn env_of<'a, F: Fn(FloatQuery) -> bool>(ctx: BtContext<'a, F>) -> BtEnv {
    BtEnv {
        bb: ctx.blackboard@,
        dt: ctx.dt,
        results: ctx.action_results@,
        fo: float_answers(*ctx.float_compare),
    }
}

/// The context's stores are consistent and its float comparator is deterministic.
pub open spec fn context_ok<'a, F: Fn(FloatQuery) -> bool>(ctx: BtContext<'a, F>) -> bool {
    &&& ctx.blackboard.wf()
    &&& ctx.action_results.wf()
    &&& float_comparator(*ctx.float_compare)
}

/// Ticks children `start..` of a sequence at `id`, then counts the nodes of the children
/// it did not reach. Returns the status and the index after the sequence's last node.
fn run_sequence<F: Fn(FloatQuery) -> bool>(
    children: &Vec<BtNode>,
    ctx: &BtContext<F>,
    runtime: &mut BtRuntime,
    id: usize,
) -> (r: (BtStatus, usize))
    requires
        context_ok(*ctx),
        id + 1 + forest_size(children@) <= old(runtime)@.len(),
        old(runtime)@[id as int].running_index <= children@.len(),
        children_fit(children@, old(runtime)@, id as int),
    ensures
        r.1 == id + 1 + forest_size(children@),
        (r.0, final(runtime)@) == sequence_from(
            children@,
            env_of(*ctx),
            old(runtime)@,
            id as int,
            old(runtime)@[id as int].running_index as int,
        ),
        unchanged_outside(old(runtime)@, final(runtime)@, id as int, id + 1 + forest_size(children@)),
        children_fit(children@, final(runtime)@, id as int),
        final(runtime)@[id as int].running_index <= children@.len(),
    decreases children,
{
    let ghost cs = children@;
    let ghost e = env_of(*ctx);
    let ghost rt0 = runtime@;
    proof {
        runtime.lemma_len_bound();
        lemma_sequence_shape(cs, e, rt0, id as int, rt0[id as int].running_index as int);
    }
    let start = runtime.entry(id).running_index;
    let ghost target = sequence_from(cs, e, rt0, id as int, start as int);
    let mut next_id: usize = id + 1;
    let mut j: usize = 0;
    while j < start
        invariant
            cs == children@,
            start <= cs.len(),
            j <= start,
            id + 1 + forest_size(cs) <= rt0.len(),
            rt0.len() <= usize::MAX,
            next_id == child_id(id as int, cs, j as int),
        decreases start - j,
    {
        proof {
            lemma_child_ranges(cs, id as int);
        }
        next_id = next_id + count_nodes(&children[j]);
        j = j + 1;
    }
    let mut status = BtStatus::Success;
    let mut stopped = false;
    let mut i: usize = start;
    while i < children.len() && !stopped
        invariant
            cs == children@,
            e == env_of(*ctx),
            context_ok(*ctx),
            start <= i <= cs.len(),
            runtime@.len() == rt0.len(),
            id + 1 + forest_size(cs) <= rt0.len(),
            rt0.len() <= usize::MAX,
            next_id == child_id(id as int, cs, i as int),
            children_fit(cs, runtime@, id as int),
            !stopped ==> status == BtStatus::Success,
            !stopped ==> sequence_from(cs, e, runtime@, id as int, i as int) == target,
            stopped ==> (status, runtime@) == target,
        decreases cs.len() - i,
    {
        let ghost before = runtime@;
        proof {
            lemma_child_ranges(cs, id as int);
            lemma_sequence_unfold(cs, e, before, id as int, i as int);
            lemma_child_step(cs, e, before, id as int, i as int);
            assert(fits(cs[i as int], before, child_id(id as int, cs, i as int)));
            assert(decreases_to!(children => children@[i as int]));
        }
        let (st, after) = children[i].tick(ctx, runtime, next_id);
        let ghost rt_child = runtime@;
        assert((st, rt_child) == tick_node(cs[i as int], e, before, child_id(id as int, cs, i as int)));
        next_id = after;
        let mut x = runtime.entry(id);
        match st {
            BtStatus::Success => {
                x.running_index = i + 1;
            },
            BtStatus::Failure => {
                x.running_index = 0;
                status = BtStatus::Failure;
                stopped = true;
            },
            BtStatus::Running => {
                x.running_index = i;
                status = BtStatus::Running;
                stopped = true;
            },
        }
        proof {
            lemma_update_own_entry(cs, rt_child, id as int, x);
        }
        runtime.set_entry(id, x);
        assert(runtime@ == with_running_index(rt_child, id as int, x.running_index as int));
        i = i + 1;
    }
    proof {
        if !stopped {
            assert(i == cs.len());
            lemma_sequence_unfold(cs, e, runtime@, id as int, i as int);
        }
    }
    let rest = count_forest(children, i);
    (status, next_id + rest)
}

/// Ticks children `start..` of a selector at `id`, then counts the nodes of the children
/// it did not reach. Returns the status and the index after the selector's last node.
fn run_selector<F: Fn(FloatQuery) -> bool>(
    children: &Vec<BtNode>,
    ctx: &BtContext<F>,
    runtime: &mut BtRuntime,
    id: usize,
) -> (r: (BtStatus, usize))
    requires
        context_ok(*ctx),
        id + 1 + forest_size(children@) <= old(runtime)@.len(),
        old(runtime)@[id as int].running_index <= children@.len(),
        children_fit(children@, old(runtime)@, id as int),
    ensures
        r.1 == id + 1 + forest_size(children@),
        (r.0, final(runtime)@) == selector_from(
            children@,
            env_of(*ctx),
            old(runtime)@,
            id as int,
            old(runtime)@[id as int].running_index as int,
        ),
        unchanged_outside(old(runtime)@, final(runtime)@, id as int, id + 1 + forest_size(children@)),
        children_fit(children@, final(runtime)@, id as int),
        final(runtime)@[id as int].running_index <= children@.len(),
    decreases children,
{
    let ghost cs = children@;
    let ghost e = env_of(*ctx);
    let ghost rt0 = runtime@;
    proof {
        runtime.lemma_len_bound();
        lemma_selector_shape(cs, e, rt0, id as int, rt0[id as int].running_index as int);
    }
    let start = runtime.entry(id).running_index;
    let ghost target = selector_from(cs, e, rt0, id as int, start as int);
    let mut next_id: usize = id + 1;
    let mut j: usize = 0;
    while j < start
        invariant
            cs == children@,
            start <= cs.len(),
            j <= start,
            id + 1 + forest_size(cs) <= rt0.len(),
            rt0.len() <= usize::MAX,
            next_id == child_id(id as int, cs, j as int),
        decreases start - j,
    {
        proof {
            lemma_child_ranges(cs, id as int);
        }
        next_id = next_id + count_nodes(&children[j]);
        j = j + 1;
    }
    let mut status = BtStatus::Failure;
    let mut stopped = false;
    let mut i: usize = start;
    while i < children.len() && !stopped
        invariant
            cs == children@,
            e == env_of(*ctx),
            context_ok(*ctx),
            start <= i <= cs.len(),
            runtime@.len() == rt0.len(),
            id + 1 + forest_size(cs) <= rt0.len(),
            rt0.len() <= usize::MAX,
            next_id == child_id(id as int, cs, i as int),
            children_fit(cs, runtime@, id as int),
            !stopped ==> status == BtStatus::Failure,
            !stopped ==> selector_from(cs, e, runtime@, id as int, i as int) == target,
            stopped ==> (status, runtime@) == target,
        decreases cs.len() - i,
    {
        let ghost before = runtime@;
        proof {
            lemma_child_ranges(cs, id as int);
            lemma_selector_unfold(cs, e, before, id as int, i as int);
            lemma_child_step(cs, e, before, id as int, i as int);
            assert(fits(cs[i as int], before, child_id(id as int, cs, i as int)));
            assert(decreases_to!(children => children@[i as int]));
        }
        let (st, after) = children[i].tick(ctx, runtime, next_id);
        let ghost rt_child = runtime@;
        assert((st, rt_child) == tick_node(cs[i as int], e, before, child_id(id as int, cs, i as int)));
        next_id = after;
        let mut x = runtime.entry(id);
        match st {
            BtStatus::Success => {
                x.running_index = 0;
                status = BtStatus::Success;
                stopped = true;
            },
            BtStatus::Failure => {
                x.running_index = i + 1;
            },
            BtStatus::Running => {
                x.running_index = i;
                status = BtStatus::Running;
                stopped = true;
            },
        }
        proof {
            lemma_update_own_entry(cs, rt_child, id as int, x);
        }
        runtime.set_entry(id, x);
        assert(runtime@ == with_running_index(rt_child, id as int, x.running_index as int));
        i = i + 1;
    }
    proof {
        if !stopped {
            assert(i == cs.len());
            lemma_selector_unfold(cs, e, runtime@, id as int, i as int);
        }
    }
    let rest = count_forest(children, i);
    (status, next_id + rest)
}

/// Ticks every child of a parallel node at `id`. Returns how many succeeded, whether any
/// failed, whether any is running, and the index after the node's last node.
fn run_parallel<F: Fn(FloatQuery) -> bool>(
    children: &Vec<BtNode>,
    ctx: &BtContext<F>,
    runtime: &mut BtRuntime,
    id: usize,
) -> (r: (usize, bool, bool, usize))
    requires
        context_ok(*ctx),
        id + 1 + forest_size(children@) <= old(runtime)@.len(),
        children_fit(children@, old(runtime)@, id as int),
    ensures
        r.3 == id + 1 + forest_size(children@),
        (r.0 as nat, r.1, r.2, final(runtime)@) == parallel_from(
            children@,
            env_of(*ctx),
            old(runtime)@,
            id as int,
            0,
        ),
        unchanged_outside(old(runtime)@, final(runtime)@, id + 1, id + 1 + forest_size(children@)),
        children_fit(children@, final(runtime)@, id as int),
    decreases children,
{
    let ghost cs = children@;
    let ghost e = env_of(*ctx);
    let ghost rt0 = runtime@;
    let ghost target = parallel_from(cs, e, rt0, id as int, 0);
    proof {
        lemma_parallel_shape(cs, e, rt0, id as int, 0);
        lemma_child_ranges(cs, id as int);
        assert(cs.take(0) =~= Seq::<BtNode>::empty());
        runtime.lemma_len_bound();
    }
    let mut next_id: usize = id + 1;
    let mut count: usize = 0;
    let mut failed = false;
    let mut running = false;
    let mut i: usize = 0;
    while i < children.len()
        invariant
            cs == children@,
            e == env_of(*ctx),
            context_ok(*ctx),
            i <= cs.len(),
            count <= i,
            runtime@.len() == rt0.len(),
            id + 1 + forest_size(cs) <= rt0.len(),
            next_id == child_id(id as int, cs, i as int),
            child_id(id as int, cs, cs.len() as int) == id + 1 + forest_size(cs),
            forall|k: int|
                0 <= k < cs.len() ==> child_id(id as int, cs, k + 1) == #[trigger] child_id(
                    id as int,
                    cs,
                    k,
                ) + tree_size(cs[k]),
            forall|k: int|
                0 <= k < cs.len() ==> #[trigger] child_id(id as int, cs, k) + tree_size(cs[k]) <= id
                    + 1 + forest_size(cs),
            children_fit(cs, runtime@, id as int),
            ({
                let rest = parallel_from(cs, e, runtime@, id as int, i as int);
                &&& target.0 == count + rest.0
                &&& target.1 == (failed || rest.1)
                &&& target.2 == (running || rest.2)
                &&& target.3 == rest.3
            }),
        decreases cs.len() - i,
    {
        let ghost before = runtime@;
        proof {
            lemma_parallel_unfold(cs, e, before, id as int, i as int);
            lemma_child_step(cs, e, before, id as int, i as int);
            assert(fits(cs[i as int], before, child_id(id as int, cs, i as int)));
            assert(decreases_to!(children => children@[i as int]));
        }
        let (st, after) = children[i].tick(ctx, runtime, next_id);
        next_id = after;
        match st {
            BtStatus::Success => {
                count = count + 1;
            },
            BtStatus::Failure => {
                failed = true;
            },
            BtStatus::Running => {
                running = true;
            },
        }
        i = i + 1;
    }
    proof {
        lemma_parallel_unfold(cs, e, runtime@, id as int, i as int);
    }
    (count, failed, running, next_id)
}

} // verus!

verus! {

/// `Success` and `Failure` swapped; `Running` kept.
pub fn invert(s: BtStatus) -> (r: BtStatus)
    ensures
        r == inverted(s),
{
    match s {
        BtStatus::Success => BtStatus::Failure,
        BtStatus::Failure => BtStatus::Success,
        BtStatus::Running => BtStatus::Running,
    }
}

impl Default for BtNode {
    fn default() -> (r: Self)
        ensures
            r is Action,
            r->Action_name@ == "Action"@,
            r->action_id@ == Seq::<char>::empty(),
    {
        BtNode::Action { name: "Action".to_owned(), action_id: String::new() }
    }
}

/// `a` and `b` are the same tree: equal names and parameters, the same logic in condition
/// nodes, and children that are the same trees in the same order.
pub open spec fn same_node(a: BtNode, b: BtNode) -> bool
    decreases a,
{
    match a {
        BtNode::Sequence { name, children } => b is Sequence && b->Sequence_name == name
            && same_forest(children@, b->Sequence_children@),
        BtNode::Selector { name, children } => b is Selector && b->Selector_name == name
            && same_forest(children@, b->Selector_children@),
        BtNode::Parallel { name, children, success_threshold } => b is Parallel && b->Parallel_name
            == name && b->success_threshold == success_threshold && same_forest(
            children@,
            b->Parallel_children@,
        ),
        BtNode::Inverter { name, child } => b is Inverter && b->Inverter_name == name && same_node(
            *child,
            *b->Inverter_child,
        ),
        BtNode::Repeater { name, child, max_count } => b is Repeater && b->Repeater_name == name
            && b->max_count == max_count && same_node(*child, *b->Repeater_child),
        BtNode::AlwaysSucceed { name, child } => b is AlwaysSucceed && b->AlwaysSucceed_name == name
            && same_node(*child, *b->AlwaysSucceed_child),
        BtNode::ConditionCheck { name, condition } => b is ConditionCheck && b->ConditionCheck_name
            == name && same_logic(condition, b->condition),
        BtNode::Action { .. } => b == a,
        BtNode::Wait { .. } => b == a,
    }
}

/// `xs` and `ys` are the same trees in the same order.
pub open spec fn same_forest(xs: Seq<BtNode>, ys: Seq<BtNode>) -> bool
    decreases xs, 0nat,
{
    xs.len() == ys.len() && forall|i: int| 0 <= i < xs.len() ==> same_node(#[trigger] xs[i], ys[i])
}

impl Clone for BtNode {
    fn clone(&self) -> (r: Self)
        ensures
            same_node(*self, r),
        decreases self,
    {
        match self {
            BtNode::Sequence { name, children } => BtNode::Sequence {
                name: name.clone(),
                children: clone_forest(children),
            },
            BtNode::Selector { name, children } => BtNode::Selector {
                name: name.clone(),
                children: clone_forest(children),
            },
            BtNode::Inverter { name, child } => BtNode::Inverter {
                name: name.clone(),
                child: Box::new((**child).clone()),
            },
            BtNode::Repeater { name, child, max_count } => BtNode::Repeater {
                name: name.clone(),
                child: Box::new((**child).clone()),
                max_count: *max_count,
            },
            BtNode::AlwaysSucceed { name, child } => BtNode::AlwaysSucceed {
                name: name.clone(),
                child: Box::new((**child).clone()),
            },
            BtNode::ConditionCheck { name, condition } => BtNode::ConditionCheck {
                name: name.clone(),
                condition: condition.clone(),
            },
            BtNode::Action { name, action_id } => BtNode::Action {
                name: name.clone(),
                action_id: action_id.clone(),
            },
            BtNode::Parallel { name, children, success_threshold } => BtNode::Parallel {
                name: name.clone(),
                children: clone_forest(children),
                success_threshold: *success_threshold,
            },
            BtNode::Wait { name, duration } => BtNode::Wait { name: name.clone(), duration: *duration },
        }
    }
}

/// Two copies of the same tree (as `clone` makes them) have the same number of nodes, so a
/// runtime sized for one is sized for the other.
pub proof fn law_same_node_same_size(a: BtNode, b: BtNode)
    requires
        same_node(a, b),
    ensures
        tree_size(a) == tree_size(b),
    decreases a, 0nat,
{
    match a {
        BtNode::Sequence { children, .. } => {
            lemma_same_forest_size(children@, b->Sequence_children@);
        },
        BtNode::Selector { children, .. } => {
            lemma_same_forest_size(children@, b->Selector_children@);
        },
        BtNode::Parallel { children, .. } => {
            lemma_same_forest_size(children@, b->Parallel_children@);
        },
        BtNode::Inverter { child, .. } => {
            law_same_node_same_size(*child, *b->Inverter_child);
        },
        BtNode::Repeater { child, .. } => {
            law_same_node_same_size(*child, *b->Repeater_child);
        },
        BtNode::AlwaysSucceed { child, .. } => {
            law_same_node_same_size(*child, *b->AlwaysSucceed_child);
        },
        _ => {},
    }
}

proof fn lemma_same_forest_size(xs: Seq<BtNode>, ys: Seq<BtNode>)
    requires
        same_forest(xs, ys),
    ensures
        forest_size(xs) == forest_size(ys),
    decreases xs, xs.len(),
{
    if xs.len() > 0 {
        assert(same_forest(xs.drop_last(), ys.drop_last()));
        lemma_same_forest_size(xs.drop_last(), ys.drop_last());
        assert(same_node(xs.last(), ys.last()));
        law_same_node_same_size(xs.last(), ys.last());
    }
}

fn clone_forest(children: &Vec<BtNode>) -> (r: Vec<BtNode>)
    ensures
        same_forest(children@, r@),
    decreases children,
{
    let mut r: Vec<BtNode> = Vec::new();
    let mut i: usize = 0;
    while i < children.len()
        invariant
            i <= children@.len(),
            r@.len() == i,
            forall|j: int| 0 <= j < i ==> same_node(#[trigger] children@[j], r@[j]),
        decreases children@.len() - i,
    {
        assert(decreases_to!(children => children@[i as int]));
        r.push(children[i].clone());
        i = i + 1;
    }
    r
}

impl BtNode {
    /// Builds a [`BtNode::Sequence`].
    pub fn sequence(name: &str, children: Vec<BtNode>) -> (r: Self)
        ensures
            r is Sequence,
            r->Sequence_name@ == name@,
            r->Sequence_children == children,
    {
        BtNode::Sequence { name: name.to_owned(), children }
    }

    /// Builds a [`BtNode::Selector`].
    pub fn selector(name: &str, children: Vec<BtNode>) -> (r: Self)
        ensures
            r is Selector,
            r->Selector_name@ == name@,
            r->Selector_children == children,
    {
        BtNode::Selector { name: name.to_owned(), children }
    }

    /// Builds a [`BtNode::Action`].
    pub fn action(name: &str, action_id: &str) -> (r: Self)
        ensures
            r is Action,
            r->Action_name@ == name@,
            r->action_id@ == action_id@,
    {
        BtNode::Action { name: name.to_owned(), action_id: action_id.to_owned() }
    }

    /// Builds a [`BtNode::ConditionCheck`].
    pub fn condition(name: &str, condition: ConditionNode) -> (r: Self)
        ensures
            r is ConditionCheck,
            r->ConditionCheck_name@ == name@,
            r->condition == condition,
    {
        BtNode::ConditionCheck { name: name.to_owned(), condition }
    }

    /// Builds a [`BtNode::Wait`] of `duration` microseconds.
    pub fn wait(name: &str, duration: u64) -> (r: Self)
        ensures
            r is Wait,
            r->Wait_name@ == name@,
            r->duration == duration,
    {
        BtNode::Wait { name: name.to_owned(), duration }
    }

    /// Builds a [`BtNode::Inverter`].
    pub fn inverter(name: &str, child: BtNode) -> (r: Self)
        ensures
            r is Inverter,
            r->Inverter_name@ == name@,
            *r->Inverter_child == child,
    {
        BtNode::Inverter { name: name.to_owned(), child: Box::new(child) }
    }

    /// Builds a [`BtNode::Parallel`]. `success_threshold` of `0` means *all* children must succeed.
    pub fn parallel(name: &str, children: Vec<BtNode>, success_threshold: usize) -> (r: Self)
        ensures
            r is Parallel,
            r->Parallel_name@ == name@,
            r->Parallel_children == children,
            r->success_threshold == success_threshold,
    {
        BtNode::Parallel { name: name.to_owned(), children, success_threshold }
    }

    /// Builds a [`BtNode::Repeater`]. `max_count` of `0` repeats forever.
    pub fn repeater(name: &str, child: BtNode, max_count: u32) -> (r: Self)
        ensures
            r is Repeater,
            r->Repeater_name@ == name@,
            *r->Repeater_child == child,
            r->max_count == max_count,
    {
        BtNode::Repeater { name: name.to_owned(), child: Box::new(child), max_count }
    }

    /// Builds a [`BtNode::AlwaysSucceed`] decorator.
    pub fn always_succeed(name: &str, child: BtNode) -> (r: Self)
        ensures
            r is AlwaysSucceed,
            r->AlwaysSucceed_name@ == name@,
            *r->AlwaysSucceed_child == child,
    {
        BtNode::AlwaysSucceed { name: name.to_owned(), child: Box::new(child) }
    }

    /// Returns this node's name.
    pub fn name(&self) -> (r: &str)
        ensures
            r@ == node_name(*self)@,
    {
        match self {
            BtNode::Sequence { name, .. } | BtNode::Selector { name, .. } | BtNode::Inverter {
                name,
                ..
            } | BtNode::Repeater { name, .. } | BtNode::AlwaysSucceed { name, .. }
            | BtNode::ConditionCheck { name, .. } | BtNode::Action { name, .. } | BtNode::Parallel {
                name,
                ..
            } | BtNode::Wait { name, .. } => name.as_str(),
        }
    }

    /// Evaluates this node, returning its status and the index after its last node.
    ///
    /// `node_id` is the pre-order index of this node within the tree; it indexes into the
    /// [`BtRuntime`] state.
    #[verifier::rlimit(30)]
    pub fn tick<F: Fn(FloatQuery) -> bool>(
        &self,
        ctx: &BtContext<F>,
        runtime: &mut BtRuntime,
        node_id: usize,
    ) -> (r: (BtStatus, usize))
        requires
            context_ok(*ctx),
            fits(*self, old(runtime)@, node_id as int),
        ensures
            r.1 == node_id + tree_size(*self),
            (r.0, final(runtime)@) == tick_node(*self, env_of(*ctx), old(runtime)@, node_id as int),
            final(runtime)@[node_id as int].last_status == r.0,
            unchanged_outside(old(runtime)@, final(runtime)@, node_id as int, node_id + tree_size(*self)),
            fits(*self, final(runtime)@, node_id as int),
        decreases self,
    {
        proof {
            runtime.lemma_len_bound();
            lemma_tick_unfold(*self, env_of(*ctx), runtime@, node_id as int);
        }
        let (status, next) = match self {
            BtNode::Sequence { children, .. } => {
                let (s, next) = run_sequence(children, ctx, runtime, node_id);
                if s == BtStatus::Success {
                    let mut x = runtime.entry(node_id);
                    x.running_index = 0;
                    runtime.set_entry(node_id, x);
                }
                (s, next)
            },
            BtNode::Selector { children, .. } => {
                let (s, next) = run_selector(children, ctx, runtime, node_id);
                if s == BtStatus::Failure {
                    let mut x = runtime.entry(node_id);
                    x.running_index = 0;
                    runtime.set_entry(node_id, x);
                }
                (s, next)
            },
            BtNode::Inverter { child, .. } => {
                let (s, next) = child.tick(ctx, runtime, node_id + 1);
                (invert(s), next)
            },
            BtNode::Repeater { child, max_count, .. } => {
                let (s, next) = child.tick(ctx, runtime, node_id + 1);
                if s != BtStatus::Running {
                    let mut x = runtime.entry(node_id);
                    let c: u32 = if x.repeat_count == u32::MAX {
                        0
                    } else {
                        x.repeat_count + 1
                    };
                    if *max_count > 0 && c >= *max_count {
                        x.repeat_count = 0;
                        runtime.set_entry(node_id, x);
                        (BtStatus::Success, next)
                    } else {
                        x.repeat_count = c;
                        runtime.set_entry(node_id, x);
                        (BtStatus::Running, next)
                    }
                } else {
                    (BtStatus::Running, next)
                }
            },
            BtNode::AlwaysSucceed { child, .. } => {
                let (s, next) = child.tick(ctx, runtime, node_id + 1);
                if s == BtStatus::Running {
                    (BtStatus::Running, next)
                } else {
                    (BtStatus::Success, next)
                }
            },
            BtNode::ConditionCheck { condition, .. } => {
                if condition.evaluate(ctx.blackboard, ctx.float_compare) {
                    (BtStatus::Success, node_id + 1)
                } else {
                    (BtStatus::Failure, node_id + 1)
                }
            },
            BtNode::Action { action_id, .. } => {
                match ctx.action_results.get(action_id.as_str()) {
                    Some(r) => (*r, node_id + 1),
                    None => (runtime.entry(node_id).last_status, node_id + 1),
                }
            },
            BtNode::Parallel { children, success_threshold, .. } => {
                let (count, failed, running, next) = run_parallel(children, ctx, runtime, node_id);
                let threshold = if *success_threshold == 0 {
                    children.len()
                } else {
                    *success_threshold
                };
                if count >= threshold {
                    (BtStatus::Success, next)
                } else if failed {
                    (BtStatus::Failure, next)
                } else if running {
                    (BtStatus::Running, next)
                } else {
                    (BtStatus::Failure, next)
                }
            },
            BtNode::Wait { duration, .. } => {
                let mut x = runtime.entry(node_id);
                let waited = x.elapsed.saturating_add(ctx.dt);
                if waited >= *duration {
                    x.elapsed = 0;
                    runtime.set_entry(node_id, x);
                    (BtStatus::Success, node_id + 1)
                } else {
                    x.elapsed = waited;
                    runtime.set_entry(node_id, x);
                    (BtStatus::Running, node_id + 1)
                }
            },
        };
        let mut x = runtime.entry(node_id);
        x.last_status = status;
        runtime.set_entry(node_id, x);
        proof {
            lemma_tick_shape(*self, env_of(*ctx), old(runtime)@, node_id as int);
        }
        (status, next)
    }
}

/// The name of node `n`.
pub open spec fn node_name(n: BtNode) -> String {
    match n {
        BtNode::Sequence { name, .. } => name,
        BtNode::Selector { name, .. } => name,
        BtNode::Inverter { name, .. } => name,
        BtNode::Repeater { name, .. } => name,
        BtNode::AlwaysSucceed { name, .. } => name,
        BtNode::ConditionCheck { name, .. } => name,
        BtNode::Action { name, .. } => name,
        BtNode::Parallel { name, .. } => name,
        BtNode::Wait { name, .. } => name,
    }
}

} // verus!
