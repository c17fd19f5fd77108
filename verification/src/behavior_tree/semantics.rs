//! What ticking a behavior tree means, stated over plain values, with the facts about it
//! that the evaluation code and the laws rely on.

use vstd::prelude::*;
use crate::blackboard::BlackboardValue;
use crate::state_machine::condition::{node_holds, FloatQuery};
use crate::state_machine::saturating_sum;
use super::layout::lemma_tick_shape;
use super::node::{BtNode, BtStatus, NodeRuntime, fresh_node_runtime};

verus! {

/// Number of nodes in the tree rooted at `n`.
pub open spec fn tree_size(n: BtNode) -> nat
    decreases n, 0nat,
{
    match n {
        BtNode::Sequence { children, .. } => 1 + forest_size(children@),
        BtNode::Selector { children, .. } => 1 + forest_size(children@),
        BtNode::Parallel { children, .. } => 1 + forest_size(children@),
        BtNode::Inverter { child, .. } => 1 + tree_size(*child),
        BtNode::Repeater { child, .. } => 1 + tree_size(*child),
        BtNode::AlwaysSucceed { child, .. } => 1 + tree_size(*child),
        _ => 1,
    }
}

/// Number of nodes in the trees rooted at `cs`.
pub open spec fn forest_size(cs: Seq<BtNode>) -> nat
    decreases cs, cs.len(),
{
    if cs.len() == 0 {
        0
    } else {
        forest_size(cs.drop_last()) + tree_size(cs.last())
    }
}

/// Pre-order index of child `i` of the node at `id` whose children are `cs`.
pub open spec fn child_id(id: int, cs: Seq<BtNode>, i: int) -> int {
    id + 1 + forest_size(cs.take(i))
}

/// The runtime `rt` is laid out for the tree rooted at `n` with pre-order index `id`: it
/// has an entry for every node, and every sequence or selector resumes at most one past
/// its last child.
pub open spec fn fits(n: BtNode, rt: Seq<NodeRuntime>, id: int) -> bool
    decreases n,
{
    &&& 0 <= id
    &&& id + tree_size(n) <= rt.len()
    &&& match n {
        BtNode::Sequence { children, .. } => {
            &&& rt[id].running_index <= children@.len()
            &&& forall|j: int|
                0 <= j < children@.len() ==> fits(
                    #[trigger] children@[j],
                    rt,
                    child_id(id, children@, j),
                )
        },
        BtNode::Selector { children, .. } => {
            &&& rt[id].running_index <= children@.len()
            &&& forall|j: int|
                0 <= j < children@.len() ==> fits(
                    #[trigger] children@[j],
                    rt,
                    child_id(id, children@, j),
                )
        },
        BtNode::Parallel { children, .. } => forall|j: int|
            0 <= j < children@.len() ==> fits(
                #[trigger] children@[j],
                rt,
                child_id(id, children@, j),
            ),
        BtNode::Inverter { child, .. } => fits(*child, rt, id + 1),
        BtNode::Repeater { child, .. } => fits(*child, rt, id + 1),
        BtNode::AlwaysSucceed { child, .. } => fits(*child, rt, id + 1),
        _ => true,
    }
}

/// What a tick reads: the blackboard, the time step, the action results, and the answers
/// to float comparisons.
pub struct BtEnv {
    /// Blackboard contents.
    pub bb: Map<Seq<char>, BlackboardValue>,
    /// Time step in microseconds.
    pub dt: u64,
    /// Action results by action id.
    pub results: Map<Seq<char>, BtStatus>,
    /// Answers to float comparisons.
    pub fo: spec_fn(FloatQuery) -> bool,
}

/// `Success` and `Failure` swapped; `Running` kept.
pub open spec fn inverted(s: BtStatus) -> BtStatus {
    match s {
        BtStatus::Success => BtStatus::Failure,
        BtStatus::Failure => BtStatus::Success,
        BtStatus::Running => BtStatus::Running,
    }
}

/// `rt` with the entry at `id` resuming at `i`.
pub open spec fn with_running_index(rt: Seq<NodeRuntime>, id: int, i: int) -> Seq<NodeRuntime> {
    rt.update(id, NodeRuntime { running_index: i as usize, ..rt[id] })
}

/// `rt` with the repeat count at `id` set to `c`.
pub open spec fn with_repeat_count(rt: Seq<NodeRuntime>, id: int, c: u32) -> Seq<NodeRuntime> {
    rt.update(id, NodeRuntime { repeat_count: c, ..rt[id] })
}

/// `rt` with the elapsed time at `id` set to `e`.
pub open spec fn with_elapsed(rt: Seq<NodeRuntime>, id: int, e: u64) -> Seq<NodeRuntime> {
    rt.update(id, NodeRuntime { elapsed: e, ..rt[id] })
}

/// `rt` with the last status at `id` set to `s`.
pub open spec fn with_last_status(rt: Seq<NodeRuntime>, id: int, s: BtStatus) -> Seq<NodeRuntime> {
    rt.update(id, NodeRuntime { last_status: s, ..rt[id] })
}

/// `c + 1`, wrapping to 0 after `u32::MAX`.
pub open spec fn wrapping_succ(c: u32) -> u32 {
    if c == u32::MAX {
        0
    } else {
        (c + 1) as u32
    }
}

/// Ticks the node `n` with pre-order index `id`: its status and the runtime after.
pub closed spec fn tick_node(n: BtNode, e: BtEnv, rt: Seq<NodeRuntime>, id: int) -> (
    BtStatus,
    Seq<NodeRuntime>,
)
    decreases n, 1nat,
{
    tick_step(n, e, rt, id)
}

/// One node's part of a tick: how the node's kind combines the ticks of its children.
pub open spec fn tick_step(n: BtNode, e: BtEnv, rt: Seq<NodeRuntime>, id: int) -> (
    BtStatus,
    Seq<NodeRuntime>,
)
    decreases n, 0nat,
{
    let (status, after) = match n {
        BtNode::Sequence { children, .. } => {
            let (s, rt2) = sequence_from(children@, e, rt, id, rt[id].running_index as int);
            if s == BtStatus::Success {
                (s, with_running_index(rt2, id, 0))
            } else {
                (s, rt2)
            }
        },
        BtNode::Selector { children, .. } => {
            let (s, rt2) = selector_from(children@, e, rt, id, rt[id].running_index as int);
            if s == BtStatus::Failure {
                (s, with_running_index(rt2, id, 0))
            } else {
                (s, rt2)
            }
        },
        BtNode::Inverter { child, .. } => {
            let (s, rt2) = tick_node(*child, e, rt, id + 1);
            (inverted(s), rt2)
        },
        BtNode::Repeater { child, max_count, .. } => {
            let (s, rt2) = tick_node(*child, e, rt, id + 1);
            if s != BtStatus::Running {
                let c = wrapping_succ(rt2[id].repeat_count);
                if max_count > 0 && c >= max_count {
                    (BtStatus::Success, with_repeat_count(rt2, id, 0))
                } else {
                    (BtStatus::Running, with_repeat_count(rt2, id, c))
                }
            } else {
                (BtStatus::Running, rt2)
            }
        },
        BtNode::AlwaysSucceed { child, .. } => {
            let (s, rt2) = tick_node(*child, e, rt, id + 1);
            (
                if s == BtStatus::Running {
                    BtStatus::Running
                } else {
                    BtStatus::Success
                },
                rt2,
            )
        },
        BtNode::ConditionCheck { condition, .. } => (
            if node_holds(condition, e.bb, e.fo) {
                BtStatus::Success
            } else {
                BtStatus::Failure
            },
            rt,
        ),
        BtNode::Action { action_id, .. } => (
            if e.results.contains_key(action_id@) {
                e.results[action_id@]
            } else {
                rt[id].last_status
            },
            rt,
        ),
        BtNode::Parallel { children, success_threshold, .. } => {
            let (count, failed, running, rt2) = parallel_from(children@, e, rt, id, 0);
            let threshold = if success_threshold == 0 {
                children@.len()
            } else {
                success_threshold as nat
            };
            (
                if count >= threshold {
                    BtStatus::Success
                } else if failed {
                    BtStatus::Failure
                } else if running {
                    BtStatus::Running
                } else {
                    BtStatus::Failure
                },
                rt2,
            )
        },
        BtNode::Wait { duration, .. } => {
            let waited = saturating_sum(rt[id].elapsed, e.dt);
            if waited >= duration {
                (BtStatus::Success, with_elapsed(rt, id, 0))
            } else {
                (BtStatus::Running, with_elapsed(rt, id, waited))
            }
        },
    };
    (status, with_last_status(after, id, status))
}

/// A sequence at `id` with children `cs`, run from child `i` on: the first child that
/// does not succeed decides; the sequence resumes at a running child next time.
pub closed spec fn sequence_from(cs: Seq<BtNode>, e: BtEnv, rt: Seq<NodeRuntime>, id: int, i: int) -> (
    BtStatus,
    Seq<NodeRuntime>,
)
    decreases cs, cs.len() - i,
{
    if i < 0 || i >= cs.len() {
        (BtStatus::Success, rt)
    } else {
        let (s, rt2) = tick_node(cs[i], e, rt, child_id(id, cs, i));
        match s {
            BtStatus::Success => sequence_from(cs, e, with_running_index(rt2, id, i + 1), id, i + 1),
            BtStatus::Failure => (BtStatus::Failure, with_running_index(rt2, id, 0)),
            BtStatus::Running => (BtStatus::Running, with_running_index(rt2, id, i)),
        }
    }
}

/// A selector at `id` with children `cs`, run from child `i` on: the first child that
/// does not fail decides; the selector resumes at a running child next time.
pub closed spec fn selector_from(cs: Seq<BtNode>, e: BtEnv, rt: Seq<NodeRuntime>, id: int, i: int) -> (
    BtStatus,
    Seq<NodeRuntime>,
)
    decreases cs, cs.len() - i,
{
    if i < 0 || i >= cs.len() {
        (BtStatus::Failure, rt)
    } else {
        let (s, rt2) = tick_node(cs[i], e, rt, child_id(id, cs, i));
        match s {
            BtStatus::Success => (BtStatus::Success, with_running_index(rt2, id, 0)),
            BtStatus::Failure => selector_from(cs, e, with_running_index(rt2, id, i + 1), id, i + 1),
            BtStatus::Running => (BtStatus::Running, with_running_index(rt2, id, i)),
        }
    }
}

/// A parallel node at `id` with children `cs`, ticking children `i..` in order: how many
/// succeeded, whether any failed, whether any is running, and the runtime after.
pub closed spec fn parallel_from(cs: Seq<BtNode>, e: BtEnv, rt: Seq<NodeRuntime>, id: int, i: int) -> (
    nat,
    bool,
    bool,
    Seq<NodeRuntime>,
)
    decreases cs, cs.len() - i,
{
    if i < 0 || i >= cs.len() {
        (0, false, false, rt)
    } else {
        let (s, rt2) = tick_node(cs[i], e, rt, child_id(id, cs, i));
        let (count, failed, running, rt3) = parallel_from(cs, e, rt2, id, i + 1);
        (
            if s == BtStatus::Success {
                count + 1
            } else {
                count
            },
            failed || s == BtStatus::Failure,
            running || s == BtStatus::Running,
            rt3,
        )
    }
}

/// A tick of `n` is its step.
pub proof fn lemma_tick_unfold(n: BtNode, e: BtEnv, rt: Seq<NodeRuntime>, id: int)
    ensures
        tick_node(n, e, rt, id) == tick_step(n, e, rt, id),
{
}

/// One step of a sequence run from child `i`: the child is ticked; if it succeeds the run
/// goes on with the next child (and an exhausted run succeeds), otherwise its status is the
/// sequence's and no later child is ticked, with the sequence set to resume at that child if
/// it runs and to start over from the first child if it failed.
pub proof fn lemma_sequence_unfold(cs: Seq<BtNode>, e: BtEnv, rt: Seq<NodeRuntime>, id: int, i: int)
    ensures
        sequence_from(cs, e, rt, id, i) == (if i < 0 || i >= cs.len() {
            (BtStatus::Success, rt)
        } else {
            let (s, rt2) = tick_node(cs[i], e, rt, child_id(id, cs, i));
            match s {
                BtStatus::Success => sequence_from(cs, e, with_running_index(rt2, id, i + 1), id, i + 1),
                BtStatus::Failure => (BtStatus::Failure, with_running_index(rt2, id, 0)),
                BtStatus::Running => (BtStatus::Running, with_running_index(rt2, id, i)),
            }
        }),
{
}

/// One step of a selector run from child `i`: the child is ticked; if it fails the run goes
/// on with the next child (and an exhausted run fails), otherwise its status is the
/// selector's and no later child is ticked, with the selector set to resume at that child if
/// it runs and to start over from the first child if it succeeded.
pub proof fn lemma_selector_unfold(cs: Seq<BtNode>, e: BtEnv, rt: Seq<NodeRuntime>, id: int, i: int)
    ensures
        selector_from(cs, e, rt, id, i) == (if i < 0 || i >= cs.len() {
            (BtStatus::Failure, rt)
        } else {
            let (s, rt2) = tick_node(cs[i], e, rt, child_id(id, cs, i));
            match s {
                BtStatus::Success => (BtStatus::Success, with_running_index(rt2, id, 0)),
                BtStatus::Failure => selector_from(cs, e, with_running_index(rt2, id, i + 1), id, i + 1),
                BtStatus::Running => (BtStatus::Running, with_running_index(rt2, id, i)),
            }
        }),
{
}

/// One step of a parallel run.
pub proof fn lemma_parallel_unfold(cs: Seq<BtNode>, e: BtEnv, rt: Seq<NodeRuntime>, id: int, i: int)
    ensures
        parallel_from(cs, e, rt, id, i) == (if i < 0 || i >= cs.len() {
            (0, false, false, rt)
        } else {
            let (s, rt2) = tick_node(cs[i], e, rt, child_id(id, cs, i));
            let (count, failed, running, rt3) = parallel_from(cs, e, rt2, id, i + 1);
            (
                if s == BtStatus::Success {
                    count + 1
                } else {
                    count
                },
                failed || s == BtStatus::Failure,
                running || s == BtStatus::Running,
                rt3,
            )
        }),
{
}

} // verus!

verus! {

/// An inverter reports `Failure` where its child succeeds, `Success` where it fails, and
/// `Running` while it runs.
pub proof fn law_inverter_swaps(n: BtNode, e: BtEnv, rt: Seq<NodeRuntime>, id: int)
    requires
        n is Inverter,
    ensures
        tick_node(n, e, rt, id).0 == inverted(tick_node(*n->Inverter_child, e, rt, id + 1).0),
        tick_node(*n->Inverter_child, e, rt, id + 1).0 == BtStatus::Success ==> tick_node(
            n,
            e,
            rt,
            id,
        ).0 == BtStatus::Failure,
        tick_node(*n->Inverter_child, e, rt, id + 1).0 == BtStatus::Failure ==> tick_node(
            n,
            e,
            rt,
            id,
        ).0 == BtStatus::Success,
        tick_node(*n->Inverter_child, e, rt, id + 1).0 == BtStatus::Running ==> tick_node(
            n,
            e,
            rt,
            id,
        ).0 == BtStatus::Running,
{
    lemma_tick_unfold(n, e, rt, id);
}

/// An always-succeed decorator never reports `Failure`; it reports `Running` exactly while
/// its child runs.
pub proof fn law_always_succeed_never_fails(n: BtNode, e: BtEnv, rt: Seq<NodeRuntime>, id: int)
    requires
        n is AlwaysSucceed,
    ensures
        tick_node(n, e, rt, id).0 != BtStatus::Failure,
        (tick_node(n, e, rt, id).0 == BtStatus::Running) == (tick_node(
            *n->AlwaysSucceed_child,
            e,
            rt,
            id + 1,
        ).0 == BtStatus::Running),
{
    lemma_tick_unfold(n, e, rt, id);
}

/// A condition node succeeds exactly when its condition holds on the blackboard, and
/// fails otherwise.
pub proof fn law_condition_check(n: BtNode, e: BtEnv, rt: Seq<NodeRuntime>, id: int)
    requires
        n is ConditionCheck,
    ensures
        tick_node(n, e, rt, id).0 == if node_holds(n->condition, e.bb, e.fo) {
            BtStatus::Success
        } else {
            BtStatus::Failure
        },
{
    lemma_tick_unfold(n, e, rt, id);
}

/// An action reports the status the game gave for its id, and where the game gave none,
/// the status it reported on its last tick.
pub proof fn law_action_status(n: BtNode, e: BtEnv, rt: Seq<NodeRuntime>, id: int)
    requires
        n is Action,
    ensures
        tick_node(n, e, rt, id).0 == if e.results.contains_key(n->action_id@) {
            e.results[n->action_id@]
        } else {
            rt[id].last_status
        },
{
    lemma_tick_unfold(n, e, rt, id);
}

/// A wait node runs until the time it has waited, plus this tick's step, reaches its
/// duration; then it succeeds and starts over.
pub proof fn law_wait(n: BtNode, e: BtEnv, rt: Seq<NodeRuntime>, id: int)
    requires
        n is Wait,
        0 <= id < rt.len(),
    ensures
        ({
            let waited = saturating_sum(rt[id].elapsed, e.dt);
            let (s, rt2) = tick_node(n, e, rt, id);
            &&& s == if waited >= n->duration {
                BtStatus::Success
            } else {
                BtStatus::Running
            }
            &&& rt2[id].elapsed == if waited >= n->duration {
                0
            } else {
                waited
            }
        }),
{
    lemma_tick_unfold(n, e, rt, id);
}

/// A repeater whose count is zero repeats forever: it always reports `Running`.
pub proof fn law_repeat_forever(n: BtNode, e: BtEnv, rt: Seq<NodeRuntime>, id: int)
    requires
        n is Repeater,
        n->max_count == 0,
    ensures
        tick_node(n, e, rt, id).0 == BtStatus::Running,
{
    lemma_tick_unfold(n, e, rt, id);
}

/// A repeater with a count `m > 0` runs while its child runs; each time the child finishes
/// it counts one completion and runs again, until the `m`-th completion, where it succeeds
/// (whatever the child reported) and starts counting afresh.
pub proof fn law_repeater_counts_to_success(n: BtNode, e: BtEnv, rt: Seq<NodeRuntime>, id: int)
    requires
        n is Repeater,
        n->max_count > 0,
        fits(n, rt, id),
    ensures
        ({
            let (s, rt2) = tick_node(*n->Repeater_child, e, rt, id + 1);
            let c = wrapping_succ(rt2[id].repeat_count);
            let (r, rt3) = tick_node(n, e, rt, id);
            &&& s == BtStatus::Running ==> r == BtStatus::Running && rt3[id].repeat_count
                == rt2[id].repeat_count
            &&& s != BtStatus::Running && c < n->max_count ==> r == BtStatus::Running
                && rt3[id].repeat_count == c
            &&& s != BtStatus::Running && c >= n->max_count ==> r == BtStatus::Success
                && rt3[id].repeat_count == 0
        }),
{
    lemma_tick_unfold(n, e, rt, id);
    lemma_tick_shape(*n->Repeater_child, e, rt, id + 1);
    let rt2 = tick_node(*n->Repeater_child, e, rt, id + 1).1;
    assert(rt2[id] == rt[id]);
}

/// Child `j` of a node at `id` with children `cs` reports `s` whatever the runtime.
pub open spec fn always_reports(cs: Seq<BtNode>, e: BtEnv, id: int, j: int, s: BtStatus) -> bool {
    forall|r: Seq<NodeRuntime>| #[trigger] tick_node(cs[j], e, r, child_id(id, cs, j)).0 == s
}

/// A sequence whose children all succeed succeeds.
pub proof fn law_sequence_all_succeed(cs: Seq<BtNode>, e: BtEnv, rt: Seq<NodeRuntime>, id: int, i: int)
    requires
        forall|j: int| 0 <= j < cs.len() ==> #[trigger] always_reports(cs, e, id, j, BtStatus::Success),
    ensures
        sequence_from(cs, e, rt, id, i).0 == BtStatus::Success,
    decreases cs.len() - i,
{
    if 0 <= i < cs.len() {
        assert(always_reports(cs, e, id, i, BtStatus::Success));
        let (s, rt2) = tick_node(cs[i], e, rt, child_id(id, cs, i));
        assert(s == BtStatus::Success);
        law_sequence_all_succeed(cs, e, with_running_index(rt2, id, i + 1), id, i + 1);
    }
}

/// A sequence never succeeds once a child that always fails lies ahead.
pub proof fn law_sequence_failing_child(cs: Seq<BtNode>, e: BtEnv, rt: Seq<NodeRuntime>, id: int, i: int, j: int)
    requires
        0 <= i <= j < cs.len(),
        always_reports(cs, e, id, j, BtStatus::Failure),
    ensures
        sequence_from(cs, e, rt, id, i).0 != BtStatus::Success,
    decreases j - i,
{
    let (s, rt2) = tick_node(cs[i], e, rt, child_id(id, cs, i));
    if i == j {
        assert(s == BtStatus::Failure);
    } else if s == BtStatus::Success {
        law_sequence_failing_child(cs, e, with_running_index(rt2, id, i + 1), id, i + 1, j);
    }
}

/// A selector whose children all fail fails.
pub proof fn law_selector_all_fail(cs: Seq<BtNode>, e: BtEnv, rt: Seq<NodeRuntime>, id: int, i: int)
    requires
        forall|j: int| 0 <= j < cs.len() ==> #[trigger] always_reports(cs, e, id, j, BtStatus::Failure),
    ensures
        selector_from(cs, e, rt, id, i).0 == BtStatus::Failure,
    decreases cs.len() - i,
{
    if 0 <= i < cs.len() {
        assert(always_reports(cs, e, id, i, BtStatus::Failure));
        let (s, rt2) = tick_node(cs[i], e, rt, child_id(id, cs, i));
        assert(s == BtStatus::Failure);
        law_selector_all_fail(cs, e, with_running_index(rt2, id, i + 1), id, i + 1);
    }
}

/// A selector never fails once a child that always succeeds lies ahead: it falls back to
/// that child.
pub proof fn law_selector_fallback(cs: Seq<BtNode>, e: BtEnv, rt: Seq<NodeRuntime>, id: int, i: int, j: int)
    requires
        0 <= i <= j < cs.len(),
        always_reports(cs, e, id, j, BtStatus::Success),
    ensures
        selector_from(cs, e, rt, id, i).0 != BtStatus::Failure,
    decreases j - i,
{
    let (s, rt2) = tick_node(cs[i], e, rt, child_id(id, cs, i));
    if i == j {
        assert(s == BtStatus::Success);
    } else if s == BtStatus::Failure {
        law_selector_fallback(cs, e, with_running_index(rt2, id, i + 1), id, i + 1, j);
    }
}

/// A parallel run over children that all succeed counts every one of them, with none
/// failed and none running.
pub proof fn law_parallel_all_succeed(cs: Seq<BtNode>, e: BtEnv, rt: Seq<NodeRuntime>, id: int, i: int)
    requires
        0 <= i <= cs.len(),
        forall|j: int| 0 <= j < cs.len() ==> #[trigger] always_reports(cs, e, id, j, BtStatus::Success),
    ensures
        parallel_from(cs, e, rt, id, i).0 == cs.len() - i,
        !parallel_from(cs, e, rt, id, i).1,
        !parallel_from(cs, e, rt, id, i).2,
    decreases cs.len() - i,
{
    if i < cs.len() {
        assert(always_reports(cs, e, id, i, BtStatus::Success));
        let (s, rt2) = tick_node(cs[i], e, rt, child_id(id, cs, i));
        assert(s == BtStatus::Success);
        law_parallel_all_succeed(cs, e, rt2, id, i + 1);
    }
}

/// A parallel node with threshold 0 ("all") whose children all succeed succeeds.
pub proof fn law_parallel_threshold_all(n: BtNode, e: BtEnv, rt: Seq<NodeRuntime>, id: int)
    requires
        n is Parallel,
        n->success_threshold == 0,
        forall|j: int|
            0 <= j < n->Parallel_children@.len() ==> #[trigger] always_reports(
                n->Parallel_children@,
                e,
                id,
                j,
                BtStatus::Success,
            ),
    ensures
        tick_node(n, e, rt, id).0 == BtStatus::Success,
{
    lemma_tick_unfold(n, e, rt, id);
    law_parallel_all_succeed(n->Parallel_children@, e, rt, id, 0);
}


/// How many entries of `st` equal `s`.
pub open spec fn count_status(st: Seq<BtStatus>, s: BtStatus) -> nat
    decreases st.len(),
{
    if st.len() == 0 {
        0
    } else {
        (if st[0] == s {
            1nat
        } else {
            0nat
        }) + count_status(st.drop_first(), s)
    }
}

/// A parallel run from child `i`, where each child `j` reports `st[j]` whatever the runtime:
/// it counts the successes among `st[i..]`, and notes whether any of them failed or runs.
proof fn lemma_parallel_counts(
    cs: Seq<BtNode>,
    e: BtEnv,
    rt: Seq<NodeRuntime>,
    id: int,
    st: Seq<BtStatus>,
    i: int,
)
    requires
        0 <= i <= cs.len(),
        st.len() == cs.len(),
        forall|j: int| 0 <= j < cs.len() ==> #[trigger] always_reports(cs, e, id, j, st[j]),
    ensures
        parallel_from(cs, e, rt, id, i).0 == count_status(st.subrange(i, st.len() as int), BtStatus::Success),
        parallel_from(cs, e, rt, id, i).1 == (exists|j: int| i <= j < st.len() && st[j] == BtStatus::Failure),
        parallel_from(cs, e, rt, id, i).2 == (exists|j: int| i <= j < st.len() && st[j] == BtStatus::Running),
    decreases cs.len() - i,
{
    lemma_parallel_unfold(cs, e, rt, id, i);
    if i < cs.len() {
        assert(always_reports(cs, e, id, i, st[i]));
        let (s, rt2) = tick_node(cs[i], e, rt, child_id(id, cs, i));
        assert(s == st[i]);
        lemma_parallel_counts(cs, e, rt2, id, st, i + 1);
        assert(st.subrange(i, st.len() as int).drop_first() =~= st.subrange(i + 1, st.len() as int));
        assert(st.subrange(i, st.len() as int)[0] == st[i]);
    } else {
        assert(st.subrange(i, st.len() as int).len() == 0);
    }
}

/// A parallel node whose children report fixed statuses `st` (each whatever the runtime)
/// succeeds when at least its threshold of them succeed (all of them for threshold 0);
/// otherwise it fails if any child failed, runs if any child runs, and fails if none did
/// either.
pub proof fn law_parallel_outcome(n: BtNode, e: BtEnv, rt: Seq<NodeRuntime>, id: int, st: Seq<BtStatus>)
    requires
        n is Parallel,
        st.len() == n->Parallel_children@.len(),
        forall|j: int|
            0 <= j < st.len() ==> #[trigger] always_reports(n->Parallel_children@, e, id, j, st[j]),
    ensures
        ({
            let threshold = if n->success_threshold == 0 {
                st.len()
            } else {
                n->success_threshold as nat
            };
            tick_node(n, e, rt, id).0 == if count_status(st, BtStatus::Success) >= threshold {
                BtStatus::Success
            } else if st.contains(BtStatus::Failure) {
                BtStatus::Failure
            } else if st.contains(BtStatus::Running) {
                BtStatus::Running
            } else {
                BtStatus::Failure
            }
        }),
{
    let cs = n->Parallel_children@;
    lemma_tick_unfold(n, e, rt, id);
    lemma_parallel_counts(cs, e, rt, id, st, 0);
    assert(st.subrange(0, st.len() as int) =~= st);
    if st.contains(BtStatus::Failure) {
        let j = choose|j: int| 0 <= j < st.len() && st[j] == BtStatus::Failure;
        assert(0 <= j < st.len() && st[j] == BtStatus::Failure);
    }
    if st.contains(BtStatus::Running) {
        let j = choose|j: int| 0 <= j < st.len() && st[j] == BtStatus::Running;
        assert(0 <= j < st.len() && st[j] == BtStatus::Running);
    }
}

/// A parallel run from child `i` counts at most one success per child it ticks, and none for
/// a child that always fails, which it notes as failed.
proof fn lemma_parallel_failing_child(
    cs: Seq<BtNode>,
    e: BtEnv,
    rt: Seq<NodeRuntime>,
    id: int,
    i: int,
    f: int,
)
    requires
        0 <= i <= cs.len(),
        0 <= f < cs.len(),
        always_reports(cs, e, id, f, BtStatus::Failure),
    ensures
        parallel_from(cs, e, rt, id, i).0 <= cs.len() - i - (if i <= f {
            1int
        } else {
            0int
        }),
        i <= f ==> parallel_from(cs, e, rt, id, i).1,
    decreases cs.len() - i,
{
    lemma_parallel_unfold(cs, e, rt, id, i);
    if i < cs.len() {
        let (s, rt2) = tick_node(cs[i], e, rt, child_id(id, cs, i));
        if i == f {
            assert(s == BtStatus::Failure);
        }
        lemma_parallel_failing_child(cs, e, rt2, id, i + 1, f);
    }
}

/// A parallel node that needs every child to succeed (threshold 0, or at least the number of
/// children) and has a child that always fails reports `Failure`, whatever its other
/// children report, running ones included.
pub proof fn law_parallel_failed_child_fails(n: BtNode, e: BtEnv, rt: Seq<NodeRuntime>, id: int, f: int)
    requires
        n is Parallel,
        n->success_threshold == 0 || n->success_threshold >= n->Parallel_children@.len(),
        0 <= f < n->Parallel_children@.len(),
        always_reports(n->Parallel_children@, e, id, f, BtStatus::Failure),
    ensures
        tick_node(n, e, rt, id).0 == BtStatus::Failure,
{
    lemma_tick_unfold(n, e, rt, id);
    lemma_parallel_failing_child(n->Parallel_children@, e, rt, id, 0, f);
}

/// The first index from `i` on (`i >= 0`) at which `st` holds something other than `s`, or
/// `st.len()` where there is none.
pub open spec fn first_other(st: Seq<BtStatus>, i: int, s: BtStatus) -> int
    decreases st.len() - i,
{
    if i < 0 || i >= st.len() {
        st.len() as int
    } else if st[i] != s {
        i
    } else {
        first_other(st, i + 1, s)
    }
}

/// `first_other(st, i, s)` is the first index from `i` on where `st` differs from `s`.
pub proof fn lemma_first_other(st: Seq<BtStatus>, i: int, s: BtStatus)
    requires
        0 <= i <= st.len(),
    ensures
        i <= first_other(st, i, s) <= st.len(),
        forall|j: int| i <= j < first_other(st, i, s) ==> #[trigger] st[j] == s,
        first_other(st, i, s) < st.len() ==> st[first_other(st, i, s)] != s,
    decreases st.len() - i,
{
    if i < st.len() && st[i] == s {
        lemma_first_other(st, i + 1, s);
    }
}

proof fn lemma_sequence_statuses(
    cs: Seq<BtNode>,
    e: BtEnv,
    rt: Seq<NodeRuntime>,
    id: int,
    st: Seq<BtStatus>,
    i: int,
)
    requires
        0 <= i,
        st.len() == cs.len(),
        forall|j: int| 0 <= j < cs.len() ==> #[trigger] always_reports(cs, e, id, j, st[j]),
    ensures
        sequence_from(cs, e, rt, id, i).0 == if first_other(st, i, BtStatus::Success) < st.len() {
            st[first_other(st, i, BtStatus::Success)]
        } else {
            BtStatus::Success
        },
    decreases cs.len() - i,
{
    lemma_sequence_unfold(cs, e, rt, id, i);
    if i < cs.len() {
        assert(always_reports(cs, e, id, i, st[i]));
        let rt2 = tick_node(cs[i], e, rt, child_id(id, cs, i)).1;
        lemma_sequence_statuses(cs, e, with_running_index(rt2, id, i + 1), id, st, i + 1);
    }
}

proof fn lemma_selector_statuses(
    cs: Seq<BtNode>,
    e: BtEnv,
    rt: Seq<NodeRuntime>,
    id: int,
    st: Seq<BtStatus>,
    i: int,
)
    requires
        0 <= i,
        st.len() == cs.len(),
        forall|j: int| 0 <= j < cs.len() ==> #[trigger] always_reports(cs, e, id, j, st[j]),
    ensures
        selector_from(cs, e, rt, id, i).0 == if first_other(st, i, BtStatus::Failure) < st.len() {
            st[first_other(st, i, BtStatus::Failure)]
        } else {
            BtStatus::Failure
        },
    decreases cs.len() - i,
{
    lemma_selector_unfold(cs, e, rt, id, i);
    if i < cs.len() {
        assert(always_reports(cs, e, id, i, st[i]));
        let rt2 = tick_node(cs[i], e, rt, child_id(id, cs, i)).1;
        lemma_selector_statuses(cs, e, with_running_index(rt2, id, i + 1), id, st, i + 1);
    }
}

/// A sequence whose children report fixed statuses `st` (each whatever the runtime), ticked
/// from its resume index `r`: with `k` the first child from `r` on that does not succeed,
/// the sequence reports that child's status (so no later child decides anything), and
/// succeeds where every child from `r` on succeeds.
pub proof fn law_sequence_outcome(n: BtNode, e: BtEnv, rt: Seq<NodeRuntime>, id: int, st: Seq<BtStatus>)
    requires
        n is Sequence,
        0 <= id < rt.len(),
        st.len() == n->Sequence_children@.len(),
        rt[id].running_index <= st.len(),
        forall|j: int|
            0 <= j < st.len() ==> #[trigger] always_reports(n->Sequence_children@, e, id, j, st[j]),
    ensures
        ({
            let r = rt[id].running_index as int;
            let k = first_other(st, r, BtStatus::Success);
            &&& r <= k <= st.len()
            &&& forall|j: int| r <= j < k ==> #[trigger] st[j] == BtStatus::Success
            &&& k < st.len() ==> st[k] != BtStatus::Success && tick_node(n, e, rt, id).0 == st[k]
            &&& k == st.len() ==> tick_node(n, e, rt, id).0 == BtStatus::Success
        }),
{
    lemma_tick_unfold(n, e, rt, id);
    lemma_first_other(st, rt[id].running_index as int, BtStatus::Success);
    lemma_sequence_statuses(n->Sequence_children@, e, rt, id, st, rt[id].running_index as int);
}

/// A selector whose children report fixed statuses `st` (each whatever the runtime), ticked
/// from its resume index `r`: with `k` the first child from `r` on that does not fail, the
/// selector reports that child's status (so no later child decides anything), and fails
/// where every child from `r` on fails.
pub proof fn law_selector_outcome(n: BtNode, e: BtEnv, rt: Seq<NodeRuntime>, id: int, st: Seq<BtStatus>)
    requires
        n is Selector,
        0 <= id < rt.len(),
        st.len() == n->Selector_children@.len(),
        rt[id].running_index <= st.len(),
        forall|j: int|
            0 <= j < st.len() ==> #[trigger] always_reports(n->Selector_children@, e, id, j, st[j]),
    ensures
        ({
            let r = rt[id].running_index as int;
            let k = first_other(st, r, BtStatus::Failure);
            &&& r <= k <= st.len()
            &&& forall|j: int| r <= j < k ==> #[trigger] st[j] == BtStatus::Failure
            &&& k < st.len() ==> st[k] != BtStatus::Failure && tick_node(n, e, rt, id).0 == st[k]
            &&& k == st.len() ==> tick_node(n, e, rt, id).0 == BtStatus::Failure
        }),
{
    lemma_tick_unfold(n, e, rt, id);
    lemma_first_other(st, rt[id].running_index as int, BtStatus::Failure);
    lemma_selector_statuses(n->Selector_children@, e, rt, id, st, rt[id].running_index as int);
}

} // verus!
