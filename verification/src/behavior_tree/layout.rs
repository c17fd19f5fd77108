//! How ticking a tree uses its runtime: each node owns a range of entries, and a tick
//! changes nothing outside the ticked node's range and keeps the runtime laid out for it.

use vstd::prelude::*;
use super::node::{BtNode, BtStatus, NodeRuntime, fresh_node_runtime};
use super::semantics::{
    child_id, fits, forest_size, lemma_parallel_unfold, lemma_selector_unfold,
    lemma_sequence_unfold, lemma_tick_unfold, parallel_from, selector_from, sequence_from,
    tick_node, tick_step, tree_size, with_running_index, with_last_status, BtEnv,
};

verus! {

pub proof fn lemma_take_step(cs: Seq<BtNode>, j: int)
    requires
        0 <= j < cs.len(),
    ensures
        forest_size(cs.take(j + 1)) == forest_size(cs.take(j)) + tree_size(cs[j]),
{
    assert(cs.take(j + 1).drop_last() =~= cs.take(j));
    assert(cs.take(j + 1).last() == cs[j]);
}

pub proof fn lemma_take_mono(cs: Seq<BtNode>, a: int, b: int)
    requires
        0 <= a <= b <= cs.len(),
    ensures
        forest_size(cs.take(a)) <= forest_size(cs.take(b)),
    decreases b - a,
{
    if a < b {
        lemma_take_step(cs, b - 1);
        lemma_take_mono(cs, a, b - 1);
    }
}

/// The node ranges of the children of a node lie inside the node's range, one after another.
pub proof fn lemma_child_ranges(cs: Seq<BtNode>, id: int)
    ensures
        forall|j: int|
            0 <= j < cs.len() ==> id + 1 <= #[trigger] child_id(id, cs, j) && child_id(id, cs, j)
                + tree_size(cs[j]) <= id + 1 + forest_size(cs),
        forall|j: int, k: int|
            0 <= j < k < cs.len() ==> #[trigger] child_id(id, cs, j) + tree_size(cs[j])
                <= #[trigger] child_id(id, cs, k),
        forall|j: int|
            0 <= j < cs.len() ==> child_id(id, cs, j + 1) == #[trigger] child_id(id, cs, j)
                + tree_size(cs[j]),
        child_id(id, cs, cs.len() as int) == id + 1 + forest_size(cs),
{
    assert(cs.take(cs.len() as int) =~= cs);
    assert forall|j: int| 0 <= j < cs.len() implies id + 1 <= #[trigger] child_id(id, cs, j)
        && child_id(id, cs, j) + tree_size(cs[j]) <= id + 1 + forest_size(cs) && child_id(
        id,
        cs,
        j + 1,
    ) == child_id(id, cs, j) + tree_size(cs[j]) by {
        lemma_take_step(cs, j);
        lemma_take_mono(cs, j + 1, cs.len() as int);
    }
    assert forall|j: int, k: int| 0 <= j < k < cs.len() implies #[trigger] child_id(id, cs, j)
        + tree_size(cs[j]) <= #[trigger] child_id(id, cs, k) by {
        lemma_take_step(cs, j);
        lemma_take_mono(cs, j + 1, k);
    }
}

/// Whether `n` fits a runtime depends only on the runtime's length and its entries in
/// `n`'s range.
pub proof fn lemma_fits_local(n: BtNode, rt1: Seq<NodeRuntime>, rt2: Seq<NodeRuntime>, id: int)
    requires
        fits(n, rt1, id),
        rt1.len() == rt2.len(),
        forall|j: int| id <= j < id + tree_size(n) ==> rt1[j] == rt2[j],
    ensures
        fits(n, rt2, id),
    decreases n, 1nat,
{
    match n {
        BtNode::Sequence { children, .. } => {
            lemma_forest_fits_local(children, rt1, rt2, id);
        },
        BtNode::Selector { children, .. } => {
            lemma_forest_fits_local(children, rt1, rt2, id);
        },
        BtNode::Parallel { children, .. } => {
            lemma_forest_fits_local(children, rt1, rt2, id);
        },
        BtNode::Inverter { child, .. } => {
            lemma_fits_local(*child, rt1, rt2, id + 1);
        },
        BtNode::Repeater { child, .. } => {
            lemma_fits_local(*child, rt1, rt2, id + 1);
        },
        BtNode::AlwaysSucceed { child, .. } => {
            lemma_fits_local(*child, rt1, rt2, id + 1);
        },
        _ => {},
    }
}

proof fn lemma_forest_fits_local(children: Vec<BtNode>, rt1: Seq<NodeRuntime>, rt2: Seq<NodeRuntime>, id: int)
    requires
        children_fit(children@, rt1, id),
        rt1.len() == rt2.len(),
        forall|j: int| id < j < id + 1 + forest_size(children@) ==> rt1[j] == rt2[j],
    ensures
        children_fit(children@, rt2, id),
    decreases children, 0nat,
{
    let cs = children@;
    lemma_child_ranges(cs, id);
    assert forall|j: int| 0 <= j < cs.len() implies fits(#[trigger] cs[j], rt2, child_id(id, cs, j)) by {
        let c = child_id(id, cs, j);
        assert(id < c && c + tree_size(cs[j]) <= id + 1 + forest_size(cs));
        assert(fits(cs[j], rt1, c));
        assert forall|k: int| c <= k < c + tree_size(cs[j]) implies rt1[k] == rt2[k] by {}
        assert(decreases_to!(children => children@[j]));
        lemma_fits_local(cs[j], rt1, rt2, c);
    }
}

/// `rt2` differs from `rt1` at most inside `lo..hi`, and has the same length.
pub open spec fn unchanged_outside(rt1: Seq<NodeRuntime>, rt2: Seq<NodeRuntime>, lo: int, hi: int) -> bool {
    &&& rt1.len() == rt2.len()
    &&& forall|j: int| 0 <= j < rt1.len() && !(lo <= j < hi) ==> #[trigger] rt2[j] == rt1[j]
}

/// Every child fits the runtime at its own index.
pub open spec fn children_fit(cs: Seq<BtNode>, rt: Seq<NodeRuntime>, id: int) -> bool {
    forall|j: int| 0 <= j < cs.len() ==> fits(#[trigger] cs[j], rt, child_id(id, cs, j))
}

pub proof fn lemma_children_fit_local(cs: Seq<BtNode>, rt1: Seq<NodeRuntime>, rt2: Seq<NodeRuntime>, id: int, lo: int, hi: int)
    requires
        children_fit(cs, rt1, id),
        unchanged_outside(rt1, rt2, lo, hi),
    ensures
        forall|j: int|
            0 <= j < cs.len() && (child_id(id, cs, j) + tree_size(cs[j]) <= lo || hi <= child_id(
                id,
                cs,
                j,
            )) ==> fits(#[trigger] cs[j], rt2, child_id(id, cs, j)),
{
    assert forall|j: int|
        0 <= j < cs.len() && (child_id(id, cs, j) + tree_size(cs[j]) <= lo || hi <= child_id(
            id,
            cs,
            j,
        )) implies fits(#[trigger] cs[j], rt2, child_id(id, cs, j)) by {
        let c = child_id(id, cs, j);
        assert(fits(cs[j], rt1, c));
        assert forall|k: int| c <= k < c + tree_size(cs[j]) implies rt1[k] == rt2[k] by {
            assert(rt2[k] == rt1[k]);
        }
        lemma_fits_local(cs[j], rt1, rt2, c);
    }
}

/// Ticking a node keeps the runtime's length, changes nothing outside the node's range,
/// and leaves a runtime that still fits the node.
pub proof fn lemma_tick_shape(n: BtNode, e: BtEnv, rt: Seq<NodeRuntime>, id: int)
    requires
        fits(n, rt, id),
    ensures
        unchanged_outside(rt, tick_node(n, e, rt, id).1, id, id + tree_size(n)),
        fits(n, tick_node(n, e, rt, id).1, id),
    decreases n, 2nat,
{
    match n {
        BtNode::Sequence { .. } => lemma_sequence_node_shape(n, e, rt, id),
        BtNode::Selector { .. } => lemma_selector_node_shape(n, e, rt, id),
        BtNode::Parallel { .. } => lemma_parallel_node_shape(n, e, rt, id),
        BtNode::Inverter { .. } | BtNode::AlwaysSucceed { .. } | BtNode::Repeater { .. } => {
            lemma_decorator_shape(n, e, rt, id)
        },
        _ => {
            lemma_tick_unfold(n, e, rt, id);
        },
    }
}

#[verifier::rlimit(40)]
proof fn lemma_sequence_node_shape(n: BtNode, e: BtEnv, rt: Seq<NodeRuntime>, id: int)
    requires
        fits(n, rt, id),
        n is Sequence,
    ensures
        unchanged_outside(rt, tick_node(n, e, rt, id).1, id, id + tree_size(n)),
        fits(n, tick_node(n, e, rt, id).1, id),
    decreases n, 1nat,
{
    lemma_tick_unfold(n, e, rt, id);
    let result = tick_node(n, e, rt, id).1;
    let cs = n->Sequence_children@;
    lemma_child_ranges(cs, id);
    lemma_sequence_shape(cs, e, rt, id, rt[id].running_index as int);
    let (s, rt2) = sequence_from(cs, e, rt, id, rt[id].running_index as int);
    let rt3 = if s == BtStatus::Success {
        with_running_index(rt2, id, 0)
    } else {
        rt2
    };
    lemma_children_fit_local(cs, rt2, rt3, id, id, id + 1);
    assert(children_fit(cs, rt3, id));
    assert(result == with_last_status(rt3, id, s));
    lemma_children_fit_local(cs, rt3, result, id, id, id + 1);
    assert(children_fit(cs, result, id));
    assert(result[id].running_index <= cs.len());
    assert(tree_size(n) == 1 + forest_size(cs));
}

#[verifier::rlimit(40)]
proof fn lemma_selector_node_shape(n: BtNode, e: BtEnv, rt: Seq<NodeRuntime>, id: int)
    requires
        fits(n, rt, id),
        n is Selector,
    ensures
        unchanged_outside(rt, tick_node(n, e, rt, id).1, id, id + tree_size(n)),
        fits(n, tick_node(n, e, rt, id).1, id),
    decreases n, 1nat,
{
    lemma_tick_unfold(n, e, rt, id);
    let result = tick_node(n, e, rt, id).1;
    let cs = n->Selector_children@;
    lemma_child_ranges(cs, id);
    lemma_selector_shape(cs, e, rt, id, rt[id].running_index as int);
    let (s, rt2) = selector_from(cs, e, rt, id, rt[id].running_index as int);
    let rt3 = if s == BtStatus::Failure {
        with_running_index(rt2, id, 0)
    } else {
        rt2
    };
    lemma_children_fit_local(cs, rt2, rt3, id, id, id + 1);
    assert(children_fit(cs, rt3, id));
    assert(result == with_last_status(rt3, id, s));
    lemma_children_fit_local(cs, rt3, result, id, id, id + 1);
    assert(children_fit(cs, result, id));
    assert(result[id].running_index <= cs.len());
    assert(tree_size(n) == 1 + forest_size(cs));
}

proof fn lemma_parallel_node_shape(n: BtNode, e: BtEnv, rt: Seq<NodeRuntime>, id: int)
    requires
        fits(n, rt, id),
        n is Parallel,
    ensures
        unchanged_outside(rt, tick_node(n, e, rt, id).1, id, id + tree_size(n)),
        fits(n, tick_node(n, e, rt, id).1, id),
    decreases n, 1nat,
{
    lemma_tick_unfold(n, e, rt, id);
    let result = tick_node(n, e, rt, id).1;
    let cs = n->Parallel_children@;
    lemma_child_ranges(cs, id);
    lemma_parallel_shape(cs, e, rt, id, 0);
    let rt2 = parallel_from(cs, e, rt, id, 0).3;
    lemma_children_fit_local(cs, rt2, result, id, id, id + 1);
}

proof fn lemma_decorator_shape(n: BtNode, e: BtEnv, rt: Seq<NodeRuntime>, id: int)
    requires
        fits(n, rt, id),
        n is Inverter || n is AlwaysSucceed || n is Repeater,
    ensures
        unchanged_outside(rt, tick_node(n, e, rt, id).1, id, id + tree_size(n)),
        fits(n, tick_node(n, e, rt, id).1, id),
    decreases n, 1nat,
{
    lemma_tick_unfold(n, e, rt, id);
    let result = tick_node(n, e, rt, id).1;
    let child = match n {
        BtNode::Inverter { child, .. } => *child,
        BtNode::AlwaysSucceed { child, .. } => *child,
        BtNode::Repeater { child, .. } => *child,
        _ => n,
    };
    lemma_tick_shape(child, e, rt, id + 1);
    let rt2 = tick_node(child, e, rt, id + 1).1;
    lemma_fits_local(child, rt2, result, id + 1);
}

pub proof fn lemma_child_step(cs: Seq<BtNode>, e: BtEnv, rt: Seq<NodeRuntime>, id: int, i: int)
    requires
        0 <= id,
        id + 1 + forest_size(cs) <= rt.len(),
        0 <= i < cs.len(),
        children_fit(cs, rt, id),
    ensures
        unchanged_outside(rt, tick_node(cs[i], e, rt, child_id(id, cs, i)).1, id + 1, id + 1 + forest_size(cs)),
        children_fit(cs, tick_node(cs[i], e, rt, child_id(id, cs, i)).1, id),
    decreases cs, 0nat,
{
    lemma_child_ranges(cs, id);
    let c = child_id(id, cs, i);
    assert(fits(cs[i], rt, c));
    lemma_tick_shape(cs[i], e, rt, c);
    let rt2 = tick_node(cs[i], e, rt, c).1;
    lemma_children_fit_local(cs, rt, rt2, id, c, c + tree_size(cs[i]));
    assert forall|j: int| 0 <= j < cs.len() implies fits(#[trigger] cs[j], rt2, child_id(id, cs, j)) by {
        if j < i {
            assert(child_id(id, cs, j) + tree_size(cs[j]) <= c);
        } else if j > i {
            assert(c + tree_size(cs[i]) <= child_id(id, cs, j));
        }
    }
}

pub proof fn lemma_update_own_entry(cs: Seq<BtNode>, rt: Seq<NodeRuntime>, id: int, x: NodeRuntime)
    requires
        0 <= id,
        id + 1 + forest_size(cs) <= rt.len(),
        children_fit(cs, rt, id),
    ensures
        unchanged_outside(rt, rt.update(id, x), id, id + 1),
        children_fit(cs, rt.update(id, x), id),
{
    lemma_child_ranges(cs, id);
    lemma_children_fit_local(cs, rt, rt.update(id, x), id, id, id + 1);
}

pub proof fn lemma_sequence_shape(cs: Seq<BtNode>, e: BtEnv, rt: Seq<NodeRuntime>, id: int, i: int)
    requires
        0 <= id,
        id + 1 + forest_size(cs) <= rt.len(),
        0 <= i <= cs.len(),
        rt[id].running_index <= cs.len(),
        children_fit(cs, rt, id),
    ensures
        unchanged_outside(rt, sequence_from(cs, e, rt, id, i).1, id, id + 1 + forest_size(cs)),
        children_fit(cs, sequence_from(cs, e, rt, id, i).1, id),
        sequence_from(cs, e, rt, id, i).1[id].running_index <= cs.len(),
    decreases cs, cs.len() - i,
{
    lemma_sequence_unfold(cs, e, rt, id, i);
    if i < cs.len() {
        let c = child_id(id, cs, i);
        lemma_child_step(cs, e, rt, id, i);
        let (s, rt2) = tick_node(cs[i], e, rt, c);
        let next_i = match s {
            BtStatus::Success => i + 1,
            BtStatus::Failure => 0,
            BtStatus::Running => i,
        };
        lemma_update_own_entry(cs, rt2, id, NodeRuntime { running_index: next_i as usize, ..rt2[id] });
        if s == BtStatus::Success {
            lemma_sequence_shape(cs, e, with_running_index(rt2, id, i + 1), id, i + 1);
        }
    }
}

pub proof fn lemma_selector_shape(cs: Seq<BtNode>, e: BtEnv, rt: Seq<NodeRuntime>, id: int, i: int)
    requires
        0 <= id,
        id + 1 + forest_size(cs) <= rt.len(),
        0 <= i <= cs.len(),
        rt[id].running_index <= cs.len(),
        children_fit(cs, rt, id),
    ensures
        unchanged_outside(rt, selector_from(cs, e, rt, id, i).1, id, id + 1 + forest_size(cs)),
        children_fit(cs, selector_from(cs, e, rt, id, i).1, id),
        selector_from(cs, e, rt, id, i).1[id].running_index <= cs.len(),
    decreases cs, cs.len() - i,
{
    lemma_selector_unfold(cs, e, rt, id, i);
    if i < cs.len() {
        let c = child_id(id, cs, i);
        lemma_child_step(cs, e, rt, id, i);
        let (s, rt2) = tick_node(cs[i], e, rt, c);
        let next_i = match s {
            BtStatus::Success => 0,
            BtStatus::Failure => i + 1,
            BtStatus::Running => i,
        };
        lemma_update_own_entry(cs, rt2, id, NodeRuntime { running_index: next_i as usize, ..rt2[id] });
        if s == BtStatus::Failure {
            lemma_selector_shape(cs, e, with_running_index(rt2, id, i + 1), id, i + 1);
        }
    }
}

pub proof fn lemma_parallel_shape(cs: Seq<BtNode>, e: BtEnv, rt: Seq<NodeRuntime>, id: int, i: int)
    requires
        0 <= id,
        id + 1 + forest_size(cs) <= rt.len(),
        0 <= i <= cs.len(),
        children_fit(cs, rt, id),
    ensures
        unchanged_outside(rt, parallel_from(cs, e, rt, id, i).3, id + 1, id + 1 + forest_size(cs)),
        children_fit(cs, parallel_from(cs, e, rt, id, i).3, id),
    decreases cs, cs.len() - i,
{
    lemma_parallel_unfold(cs, e, rt, id, i);
    if i < cs.len() {
        lemma_child_step(cs, e, rt, id, i);
        let rt2 = tick_node(cs[i], e, rt, child_id(id, cs, i)).1;
        lemma_parallel_shape(cs, e, rt2, id, i + 1);
    }
}

/// Where a sequence run from child `i` leaves the sequence's resume index: at the first
/// child again when it fails, and at a child that is still running when it runs.
proof fn lemma_sequence_resume(cs: Seq<BtNode>, e: BtEnv, rt: Seq<NodeRuntime>, id: int, i: int)
    requires
        0 <= id,
        id + 1 + forest_size(cs) <= rt.len(),
        0 <= i <= cs.len(),
        children_fit(cs, rt, id),
    ensures
        sequence_from(cs, e, rt, id, i).0 == BtStatus::Failure ==> sequence_from(
            cs,
            e,
            rt,
            id,
            i,
        ).1[id].running_index == 0,
        sequence_from(cs, e, rt, id, i).0 == BtStatus::Running ==> sequence_from(
            cs,
            e,
            rt,
            id,
            i,
        ).1[id].running_index < cs.len(),
    decreases cs.len() - i,
{
    lemma_sequence_unfold(cs, e, rt, id, i);
    if i < cs.len() {
        lemma_child_step(cs, e, rt, id, i);
        let (s, rt2) = tick_node(cs[i], e, rt, child_id(id, cs, i));
        if s == BtStatus::Success {
            lemma_update_own_entry(cs, rt2, id, NodeRuntime { running_index: (i + 1) as usize, ..rt2[id] });
            lemma_sequence_resume(cs, e, with_running_index(rt2, id, i + 1), id, i + 1);
        }
    }
}

/// Where a selector run from child `i` leaves the selector's resume index: at the first
/// child again when it succeeds, and at a child that is still running when it runs.
proof fn lemma_selector_resume(cs: Seq<BtNode>, e: BtEnv, rt: Seq<NodeRuntime>, id: int, i: int)
    requires
        0 <= id,
        id + 1 + forest_size(cs) <= rt.len(),
        0 <= i <= cs.len(),
        children_fit(cs, rt, id),
    ensures
        selector_from(cs, e, rt, id, i).0 == BtStatus::Success ==> selector_from(
            cs,
            e,
            rt,
            id,
            i,
        ).1[id].running_index == 0,
        selector_from(cs, e, rt, id, i).0 == BtStatus::Running ==> selector_from(
            cs,
            e,
            rt,
            id,
            i,
        ).1[id].running_index < cs.len(),
    decreases cs.len() - i,
{
    lemma_selector_unfold(cs, e, rt, id, i);
    if i < cs.len() {
        lemma_child_step(cs, e, rt, id, i);
        let (s, rt2) = tick_node(cs[i], e, rt, child_id(id, cs, i));
        if s == BtStatus::Failure {
            lemma_update_own_entry(cs, rt2, id, NodeRuntime { running_index: (i + 1) as usize, ..rt2[id] });
            lemma_selector_resume(cs, e, with_running_index(rt2, id, i + 1), id, i + 1);
        }
    }
}

/// A sequence or selector that finishes a tick (reports `Success` or `Failure`) starts over:
/// its next tick begins at its first child. One that reports `Running` resumes next time at
/// one of its children, the one still running.
pub proof fn law_composite_resumes_or_restarts(n: BtNode, e: BtEnv, rt: Seq<NodeRuntime>, id: int)
    requires
        fits(n, rt, id),
        n is Sequence || n is Selector,
    ensures
        ({
            let (s, rt2) = tick_node(n, e, rt, id);
            let len = if n is Sequence {
                n->Sequence_children@.len()
            } else {
                n->Selector_children@.len()
            };
            &&& s != BtStatus::Running ==> rt2[id].running_index == 0
            &&& s == BtStatus::Running ==> rt2[id].running_index < len
        }),
{
    lemma_tick_unfold(n, e, rt, id);
    lemma_tick_shape(n, e, rt, id);
    if n is Sequence {
        let cs = n->Sequence_children@;
        lemma_sequence_resume(cs, e, rt, id, rt[id].running_index as int);
        lemma_sequence_shape(cs, e, rt, id, rt[id].running_index as int);
    } else {
        let cs = n->Selector_children@;
        lemma_selector_resume(cs, e, rt, id, rt[id].running_index as int);
        lemma_selector_shape(cs, e, rt, id, rt[id].running_index as int);
    }
}

/// A runtime of `len` entries, every one in its initial state.
pub open spec fn fresh_runtime(len: nat) -> Seq<NodeRuntime> {
    Seq::new(len, |_i: int| fresh_node_runtime())
}

/// A runtime whose entries `lo..hi` are all untouched.
pub open spec fn fresh_between(rt: Seq<NodeRuntime>, lo: int, hi: int) -> bool {
    forall|j: int| lo <= j < hi ==> #[trigger] rt[j] == fresh_node_runtime()
}

/// Resetting a runtime of as many entries as the tree has nodes gives exactly the runtime
/// that a new one for the tree is, and it fits the tree.
pub proof fn law_reset_runtime_is_new(root: BtNode, len: nat)
    requires
        len == tree_size(root),
    ensures
        fresh_runtime(len) == fresh_runtime(tree_size(root)),
        fits(root, fresh_runtime(len), 0),
{
    lemma_fresh_fits(root, fresh_runtime(len), 0);
}

/// A runtime that is untouched over a node's range fits that node.
pub proof fn lemma_fresh_fits(n: BtNode, rt: Seq<NodeRuntime>, id: int)
    requires
        0 <= id,
        id + tree_size(n) <= rt.len(),
        fresh_between(rt, id, id + tree_size(n)),
    ensures
        fits(n, rt, id),
    decreases n,
{
    match n {
        BtNode::Sequence { children, .. } | BtNode::Selector { children, .. } | BtNode::Parallel {
            children,
            ..
        } => {
            lemma_child_ranges(children@, id);
            assert(rt[id] == fresh_node_runtime());
            assert forall|j: int| 0 <= j < children@.len() implies fits(
                #[trigger] children@[j],
                rt,
                child_id(id, children@, j),
            ) by {
                lemma_fresh_fits(children@[j], rt, child_id(id, children@, j));
            }
        },
        BtNode::Inverter { child, .. } | BtNode::Repeater { child, .. } | BtNode::AlwaysSucceed {
            child,
            ..
        } => {
            lemma_fresh_fits(*child, rt, id + 1);
        },
        _ => {},
    }
}


/// `sub` is the node of the tree rooted at `n` (pre-order index `nid`) whose pre-order index
/// is `id`.
pub open spec fn is_subtree_at(n: BtNode, nid: int, sub: BtNode, id: int) -> bool
    decreases n,
{
    ||| nid == id && n == sub
    ||| match n {
        BtNode::Sequence { children, .. } | BtNode::Selector { children, .. } | BtNode::Parallel {
            children,
            ..
        } => exists|j: int|
            0 <= j < children@.len() && is_subtree_at(
                #[trigger] children@[j],
                child_id(nid, children@, j),
                sub,
                id,
            ),
        BtNode::Inverter { child, .. } | BtNode::Repeater { child, .. } | BtNode::AlwaysSucceed {
            child,
            ..
        } => is_subtree_at(*child, nid + 1, sub, id),
        _ => false,
    }
}

/// A node of a tree lies inside the tree's range and fits where the tree fits; and a
/// runtime that changes only inside the node's range, and still fits the node, still fits
/// the whole tree.
pub proof fn lemma_subtree_fits(
    n: BtNode,
    nid: int,
    sub: BtNode,
    id: int,
    rt: Seq<NodeRuntime>,
    rt2: Seq<NodeRuntime>,
)
    requires
        fits(n, rt, nid),
        is_subtree_at(n, nid, sub, id),
    ensures
        nid <= id,
        id + tree_size(sub) <= nid + tree_size(n),
        fits(sub, rt, id),
        fits(sub, rt2, id) && unchanged_outside(rt, rt2, id, id + tree_size(sub)) ==> fits(
            n,
            rt2,
            nid,
        ),
    decreases n, 1nat,
{
    if nid == id && n == sub {
    } else {
        match n {
            BtNode::Sequence { children, .. } => {
                lemma_subtree_fits_forest(children@, nid, sub, id, rt, rt2);
            },
            BtNode::Selector { children, .. } => {
                lemma_subtree_fits_forest(children@, nid, sub, id, rt, rt2);
            },
            BtNode::Parallel { children, .. } => {
                lemma_subtree_fits_forest(children@, nid, sub, id, rt, rt2);
            },
            BtNode::Inverter { child, .. } => {
                lemma_subtree_fits(*child, nid + 1, sub, id, rt, rt2);
            },
            BtNode::Repeater { child, .. } => {
                lemma_subtree_fits(*child, nid + 1, sub, id, rt, rt2);
            },
            BtNode::AlwaysSucceed { child, .. } => {
                lemma_subtree_fits(*child, nid + 1, sub, id, rt, rt2);
            },
            _ => {},
        }
    }
}

/// The children `cs` of a node at `nid` that fit `rt`, one of which holds the node `sub`
/// at `id`: the same facts for the children.
proof fn lemma_subtree_fits_forest(
    cs: Seq<BtNode>,
    nid: int,
    sub: BtNode,
    id: int,
    rt: Seq<NodeRuntime>,
    rt2: Seq<NodeRuntime>,
)
    requires
        0 <= nid,
        children_fit(cs, rt, nid),
        exists|j: int|
            0 <= j < cs.len() && is_subtree_at(#[trigger] cs[j], child_id(nid, cs, j), sub, id),
    ensures
        nid < id,
        id + tree_size(sub) <= nid + 1 + forest_size(cs),
        fits(sub, rt, id),
        fits(sub, rt2, id) && unchanged_outside(rt, rt2, id, id + tree_size(sub))
            ==> children_fit(cs, rt2, nid),
    decreases cs, 0nat,
{
    lemma_child_ranges(cs, nid);
    let j = choose|j: int|
        0 <= j < cs.len() && is_subtree_at(#[trigger] cs[j], child_id(nid, cs, j), sub, id);
    let c = child_id(nid, cs, j);
    assert(fits(cs[j], rt, c));
    lemma_subtree_fits(cs[j], c, sub, id, rt, rt2);
    if fits(sub, rt2, id) && unchanged_outside(rt, rt2, id, id + tree_size(sub)) {
        lemma_children_fit_local(cs, rt, rt2, nid, id, id + tree_size(sub));
        assert forall|k: int| 0 <= k < cs.len() implies fits(
            #[trigger] cs[k],
            rt2,
            child_id(nid, cs, k),
        ) by {
            if k < j {
                assert(child_id(nid, cs, k) + tree_size(cs[k]) <= c);
            } else if k > j {
                assert(c + tree_size(cs[j]) <= child_id(nid, cs, k));
            }
        }
    }
}

/// Ticking any node of a tree on a runtime laid out for the tree changes only that node's
/// range, and leaves a runtime still laid out for the whole tree.
pub proof fn law_subtree_tick_keeps_tree_fitting(
    root: BtNode,
    sub: BtNode,
    id: int,
    e: BtEnv,
    rt: Seq<NodeRuntime>,
)
    requires
        fits(root, rt, 0),
        is_subtree_at(root, 0, sub, id),
    ensures
        unchanged_outside(rt, tick_node(sub, e, rt, id).1, id, id + tree_size(sub)),
        fits(root, tick_node(sub, e, rt, id).1, 0),
{
    let rt2 = tick_node(sub, e, rt, id).1;
    lemma_subtree_fits(root, 0, sub, id, rt, rt2);
    lemma_tick_shape(sub, e, rt, id);
    lemma_subtree_fits(root, 0, sub, id, rt, rt2);
}

} // verus!
