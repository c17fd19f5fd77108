//! Static validation for [`AiStateMachine`] and [`BehaviorTree`] graphs.
//!
//! These checks catch common authoring mistakes (dangling transitions, missing entry
//! state, unreachable states, empty action ids) without running the simulation.

use vstd::prelude::*;
use vstd::set_lib::{lemma_int_range, lemma_len_subset, set_int_range};
use vstd::string::StrSliceExecFns;
use crate::behavior_tree::node::BtNode;
use crate::behavior_tree::BehaviorTree;
use crate::state_machine::{AiStateMachine, MachineView};

verus! {

/// A problem reported by [`AiStateMachine::validate`] or [`BehaviorTree::validate`].
#[derive(Debug, PartialEq)]
pub enum ValidationError {
    /// A transition points at an out-of-range state index.
    ///
    /// `from` / `to` are the indices recorded on the transition; `max` is the number
    /// of states currently in the machine (so any valid index must be `< max`).
    DanglingTransition {
        /// Source state index recorded on the transition.
        from: usize,
        /// Destination state index recorded on the transition.
        to: usize,
        /// Number of states in the machine; valid indices are `< max`.
        max: usize,
    },
    /// The state machine has no entry state set.
    MissingEntryState,
    /// A state is not reachable from the entry state via any sequence of transitions.
    UnreachableState(usize),
    /// A [`BtNode::Action`] node has an empty `action_id` (its node name is reported).
    EmptyActionId(String),
}

impl Clone for ValidationError {
    fn clone(&self) -> (r: Self)
        ensures
            r == *self,
    {
        match self {
            ValidationError::DanglingTransition { from, to, max } => ValidationError::DanglingTransition {
                from: *from,
                to: *to,
                max: *max,
            },
            ValidationError::MissingEntryState => ValidationError::MissingEntryState,
            ValidationError::UnreachableState(s) => ValidationError::UnreachableState(*s),
            ValidationError::EmptyActionId(name) => ValidationError::EmptyActionId(name.clone()),
        }
    }
}

/// The errors for the out-of-range transitions among the first `k`, in order.
pub open spec fn dangling_errors(v: MachineView, k: int) -> Seq<ValidationError>
    decreases k,
{
    if k <= 0 {
        Seq::empty()
    } else {
        let t = v.transitions[k - 1];
        dangling_errors(v, k - 1) + if t.from >= v.states.len() || t.to >= v.states.len() {
            seq![
                ValidationError::DanglingTransition {
                    from: t.from,
                    to: t.to,
                    max: v.states.len() as usize,
                },
            ]
        } else {
            Seq::empty()
        }
    }
}

/// The `k`-th transition listed on state `s` exists and leads to a state in range.
pub open spec fn valid_step(v: MachineView, s: int, k: int) -> bool {
    &&& 0 <= s < v.states.len()
    &&& 0 <= k < v.states[s].transitions@.len()
    &&& v.states[s].transitions@[k] < v.transitions.len()
    &&& v.transitions[v.states[s].transitions@[k] as int].to < v.states.len()
}

/// Where the `k`-th transition listed on state `s` leads.
pub open spec fn step_target(v: MachineView, s: int, k: int) -> int {
    v.transitions[v.states[s].transitions@[k] as int].to as int
}

/// Some transition listed on state `a` leads to state `b`.
pub open spec fn step_between(v: MachineView, a: int, b: int) -> bool {
    exists|k: int| #[trigger] valid_step(v, a, k) && step_target(v, a, k) == b
}

/// Each state in `p` follows the one before by a transition listed on it.
pub open spec fn is_path(v: MachineView, p: Seq<int>) -> bool {
    &&& p.len() >= 1
    &&& forall|i: int| 0 <= i < p.len() - 1 ==> #[trigger] step_between(v, p[i], p[i + 1])
}

/// State `t` can be reached from state `e` by following transitions listed on states.
pub open spec fn reachable(v: MachineView, e: int, t: int) -> bool {
    exists|p: Seq<int>| #[trigger] is_path(v, p) && p[0] == e && p.last() == t
}

/// The errors for the states among the first `k` that cannot be reached from `e`.
pub open spec fn unreachable_errors(v: MachineView, e: int, k: int) -> Seq<ValidationError>
    decreases k,
{
    if k <= 0 {
        Seq::empty()
    } else {
        unreachable_errors(v, e, k - 1) + if !reachable(v, e, k - 1) {
            seq![ValidationError::UnreachableState((k - 1) as usize)]
        } else {
            Seq::empty()
        }
    }
}

/// The errors about the entry state: missing, out of range, or states it cannot reach.
pub open spec fn entry_errors(v: MachineView) -> Seq<ValidationError> {
    match v.entry_state {
        None => if v.states.len() > 0 {
            seq![ValidationError::MissingEntryState]
        } else {
            Seq::empty()
        },
        Some(e) => if e >= v.states.len() {
            seq![
                ValidationError::DanglingTransition {
                    from: e,
                    to: e,
                    max: v.states.len() as usize,
                },
            ]
        } else {
            unreachable_errors(v, e as int, v.states.len() as int)
        },
    }
}

/// Every problem with a machine, in the order they are reported.
pub open spec fn machine_errors(v: MachineView) -> Seq<ValidationError> {
    dangling_errors(v, v.transitions.len() as int) + entry_errors(v)
}

proof fn lemma_reach_step(v: MachineView, e: int, s: int, k: int)
    requires
        reachable(v, e, s),
        valid_step(v, s, k),
    ensures
        reachable(v, e, step_target(v, s, k)),
{
    let p = choose|p: Seq<int>| #[trigger] is_path(v, p) && p[0] == e && p.last() == s;
    let q = p.push(step_target(v, s, k));
    assert forall|i: int| 0 <= i < q.len() - 1 implies #[trigger] step_between(v, q[i], q[i + 1]) by {
        if i < p.len() - 1 {
            assert(q[i] == p[i] && q[i + 1] == p[i + 1]);
            assert(step_between(v, p[i], p[i + 1]));
        } else {
            assert(q[i] == s);
            assert(valid_step(v, q[i], k) && step_target(v, q[i], k) == q[i + 1]);
        }
    }
    assert(is_path(v, q));
}

/// A set of states that holds `e` and every target of a valid step from its states holds
/// every state reachable from `e`.
proof fn lemma_closed_holds_reachable(v: MachineView, e: int, marked: Seq<bool>, t: int)
    requires
        marked.len() == v.states.len(),
        0 <= e < v.states.len(),
        marked[e],
        forall|s: int, k: int|
            0 <= s < marked.len() && marked[s] && #[trigger] valid_step(v, s, k) ==> marked[step_target(
                v,
                s,
                k,
            )],
        reachable(v, e, t),
    ensures
        0 <= t < v.states.len() && marked[t],
{
    let p = choose|p: Seq<int>| #[trigger] is_path(v, p) && p[0] == e && p.last() == t;
    assert forall|i: int| 0 <= i < p.len() implies 0 <= #[trigger] p[i] < marked.len() && marked[p[i]] by {
        lemma_path_prefix_marked(v, e, marked, p, i);
    }
    assert(p[p.len() - 1] == t);
}

proof fn lemma_path_prefix_marked(v: MachineView, e: int, marked: Seq<bool>, p: Seq<int>, i: int)
    requires
        marked.len() == v.states.len(),
        0 <= e < v.states.len(),
        marked[e],
        forall|s: int, k: int|
            0 <= s < marked.len() && marked[s] && #[trigger] valid_step(v, s, k) ==> marked[step_target(
                v,
                s,
                k,
            )],
        is_path(v, p),
        p[0] == e,
        0 <= i < p.len(),
    ensures
        0 <= p[i] < marked.len() && marked[p[i]],
    decreases i,
{
    if i > 0 {
        lemma_path_prefix_marked(v, e, marked, p, i - 1);
        let j = i - 1;
        assert(step_between(v, p[j], p[j + 1]));
        let k = choose|k: int| #[trigger] valid_step(v, p[i - 1], k) && step_target(v, p[i - 1], k) == p[i];
        assert(valid_step(v, p[i - 1], k));
    }
}

impl AiStateMachine {
    /// Static checks: entry state present, every transition's `from`/`to` in range,
    /// every state reachable from the entry state.
    ///
    /// Returns `Ok(())` if the machine is well-formed, otherwise a `Vec` collecting
    /// every problem found (the function does not short-circuit on the first error).
    pub fn validate(&self) -> (r: Result<(), Vec<ValidationError>>)
        ensures
            r is Ok <==> machine_errors(self@).len() == 0,
            r matches Err(es) ==> es@ == machine_errors(self@),
    {
        let ghost v = self@;
        let mut errors: Vec<ValidationError> = Vec::new();
        let states = self.states();
        let transitions = self.transitions();
        let n_states = states.len();
        let mut t: usize = 0;
        while t < transitions.len()
            invariant
                v == self@,
                states@ == v.states,
                transitions@ == v.transitions,
                n_states == v.states.len(),
                t <= transitions@.len(),
                errors@ == dangling_errors(v, t as int),
            decreases transitions@.len() - t,
        {
            let tr = &transitions[t];
            if tr.from >= n_states || tr.to >= n_states {
                errors.push(ValidationError::DanglingTransition { from: tr.from, to: tr.to, max: n_states });
            }
            t = t + 1;
        }
        let ghost before_entry = errors@;
        match self.entry_state() {
            None => {
                if n_states > 0 {
                    errors.push(ValidationError::MissingEntryState);
                }
            },
            Some(entry) => {
                if entry >= n_states {
                    errors.push(ValidationError::DanglingTransition { from: entry, to: entry, max: n_states });
                } else {
                    let visited = self.reachable_from(entry);
                    let mut i: usize = 0;
                    while i < n_states
                        invariant
                            v == self@,
                            n_states == v.states.len(),
                            entry < n_states,
                            i <= n_states,
                            visited@.len() == n_states,
                            forall|j: int| 0 <= j < n_states ==> visited@[j] == reachable(v, entry as int, j),
                            errors@ == before_entry + unreachable_errors(v, entry as int, i as int),
                        decreases n_states - i,
                    {
                        if !visited[i] {
                            errors.push(ValidationError::UnreachableState(i));
                        }
                        i = i + 1;
                    }
                }
            },
        }
        assert(errors@ =~= machine_errors(v));
        if errors.len() == 0 {
            Ok(())
        } else {
            Err(errors)
        }
    }

    /// Marks the states that can be reached from `entry` by following the transitions listed
    /// on each state, searching depth first.
    fn reachable_from(&self, entry: usize) -> (visited: Vec<bool>)
        requires
            entry < self@.states.len(),
        ensures
            visited@.len() == self@.states.len(),
            forall|j: int|
                0 <= j < self@.states.len() ==> visited@[j] == reachable(self@, entry as int, j),
    {
        let ghost v = self@;
        let states = self.states();
        let transitions = self.transitions();
        let n = states.len();
        let mut visited: Vec<bool> = Vec::new();
        let mut i: usize = 0;
        while i < n
            invariant
                i <= n,
                visited@.len() == i,
                forall|j: int| 0 <= j < i ==> !visited@[j],
            decreases n - i,
        {
            visited.push(false);
            i = i + 1;
        }
        visited.set(entry, true);
        let mut stack: Vec<usize> = Vec::new();
        stack.push(entry);
        assert(stack@[0] == entry);
        assert(forall|j: int| 0 <= j < n && j != entry ==> !visited@[j]);
        let ghost mut marked: Set<int> = Set::empty().insert(entry as int);
        let mut count: usize = 1;
        let ghost mut done: Set<int> = Set::empty();
        proof {
            let p = seq![entry as int];
            assert(is_path(v, p));
            assert(reachable(v, entry as int, entry as int));
            assert(marked.len() == 1) by {
                assert(Set::<int>::empty().len() == 0);
            }
        }
        while stack.len() > 0
            invariant
                v == self@,
                states@ == v.states,
                transitions@ == v.transitions,
                n == v.states.len(),
                entry < n,
                visited@.len() == n,
                visited@[entry as int],
                forall|j: int| 0 <= j < n && #[trigger] visited@[j] ==> reachable(v, entry as int, j),
                forall|j: int| 0 <= j < stack@.len() ==> #[trigger] stack@[j] < n && visited@[stack@[j] as int],
                forall|j: int| #[trigger] marked.contains(j) <==> (0 <= j < n && visited@[j]),
                marked.finite(),
                marked.len() == count,
                count <= n,
                forall|s: int| #[trigger] done.contains(s) ==> 0 <= s < n && visited@[s],
                forall|s: int, k: int|
                    done.contains(s) && #[trigger] valid_step(v, s, k) ==> visited@[step_target(v, s, k)],
                forall|s: int|
                    0 <= s < n && #[trigger] visited@[s] ==> done.contains(s) || stack@.contains(s as usize),
            decreases 2 * (n - count) + stack@.len(),
        {
            let ghost stack_before = stack@;
            let ghost measure = 2 * (n - count) + stack@.len();
            let s = stack.pop().unwrap();
            proof {
                assert(stack_before == stack@.push(s));
                assert forall|ss: int|
                    0 <= ss < n && #[trigger] visited@[ss] implies ss == s || done.contains(ss) || stack@.contains(ss as usize) by {
                    if !done.contains(ss) && ss != s {
                        assert(stack_before.contains(ss as usize));
                        let j = choose|j: int| 0 <= j < stack_before.len() && stack_before[j] == ss as usize;
                        if j < stack@.len() {
                            assert(stack@[j] == ss as usize);
                        }
                    }
                }
            }
            let succ = &states[s].transitions;
            let mut k: usize = 0;
            while k < succ.len()
                invariant
                    v == self@,
                    states@ == v.states,
                    transitions@ == v.transitions,
                    n == v.states.len(),
                    s < n,
                    succ@ == v.states[s as int].transitions@,
                    k <= succ@.len(),
                    entry < n,
                    visited@.len() == n,
                    visited@[entry as int],
                    visited@[s as int],
                    forall|j: int| 0 <= j < n && #[trigger] visited@[j] ==> reachable(v, entry as int, j),
                    reachable(v, entry as int, s as int),
                    forall|j: int| 0 <= j < stack@.len() ==> #[trigger] stack@[j] < n && visited@[stack@[j] as int],
                    forall|j: int| #[trigger] marked.contains(j) <==> (0 <= j < n && visited@[j]),
                    marked.finite(),
                    marked.len() == count,
                    count <= n,
                    forall|ss: int| #[trigger] done.contains(ss) ==> 0 <= ss < n && visited@[ss],
                    forall|ss: int, kk: int|
                        done.contains(ss) && #[trigger] valid_step(v, ss, kk) ==> visited@[step_target(v, ss, kk)],
                    forall|ss: int|
                        0 <= ss < n && #[trigger] visited@[ss] ==> ss == s || done.contains(ss) || stack@.contains(ss as usize),
                    forall|kk: int| 0 <= kk < k && #[trigger] valid_step(v, s as int, kk) ==> visited@[step_target(v, s as int, kk)],
                    2 * (n - count) + stack@.len() < measure,
                decreases succ@.len() - k,
            {
                let ti = succ[k];
                if ti < transitions.len() {
                    let to = transitions[ti].to;
                    if to < n && !visited[to] {
                        proof {
                            assert(valid_step(v, s as int, k as int));
                            lemma_reach_step(v, entry as int, s as int, k as int);
                            lemma_int_range(0, n as int);
                            assert(marked.subset_of(set_int_range(0, n as int)));
                            lemma_len_subset(marked, set_int_range(0, n as int));
                            if count == n {
                                assert(marked =~= set_int_range(0, n as int)) by {
                                    assert forall|j: int| set_int_range(0, n as int).contains(j) implies marked.contains(j) by {
                                        if !marked.contains(j) {
                                            lemma_len_subset(marked, set_int_range(0, n as int).remove(j));
                                        }
                                    }
                                }
                                assert(marked.contains(to as int));
                            }
                            marked = marked.insert(to as int);
                        }
                        let ghost stack_mid = stack@;
                        visited.set(to, true);
                        count = count + 1;
                        stack.push(to);
                        proof {
                            assert(stack@[stack@.len() - 1] == to);
                            assert forall|x: usize| stack_mid.contains(x) implies stack@.contains(x) by {
                                let j = choose|j: int| 0 <= j < stack_mid.len() && stack_mid[j] == x;
                                assert(stack@[j] == x);
                            }
                        }
                    }
                }
                k = k + 1;
            }
            proof {
                done = done.insert(s as int);
                assert forall|ss: int|
                    0 <= ss < n && #[trigger] visited@[ss] implies done.contains(ss) || stack@.contains(ss as usize) by {}
            }
        }
        proof {
            assert forall|j: int| 0 <= j < n implies visited@[j] == reachable(v, entry as int, j) by {
                if reachable(v, entry as int, j) {
                    assert forall|s: int, k: int|
                        0 <= s < visited@.len() && visited@[s] && #[trigger] valid_step(v, s, k) implies visited@[step_target(v, s, k)] by {
                        assert(done.contains(s) || stack@.contains(s as usize));
                    }
                    lemma_closed_holds_reachable(v, entry as int, visited@, j);
                }
            }
        }
        visited
    }
}

/// Whether `c` is a Unicode `White_Space` character (what `char::is_whitespace` and
/// `str::trim` treat as whitespace).
pub open spec fn is_white_space(c: char) -> bool {
    let u = c as u32;
    ||| 0x09 <= u <= 0x0d
    ||| u == 0x20
    ||| u == 0x85
    ||| u == 0xa0
    ||| u == 0x1680
    ||| 0x2000 <= u <= 0x200a
    ||| u == 0x2028
    ||| u == 0x2029
    ||| u == 0x202f
    ||| u == 0x205f
    ||| u == 0x3000
}

/// Whether `s` is empty once surrounding whitespace is trimmed: every character is whitespace.
pub open spec fn is_blank(s: Seq<char>) -> bool {
    forall|i: int| 0 <= i < s.len() ==> is_white_space(#[trigger] s[i])
}

/// Whether `c` is a Unicode `White_Space` character.
pub fn char_is_white_space(c: char) -> (r: bool)
    ensures
        r == is_white_space(c),
{
    let u = c as u32;
    (0x09 <= u && u <= 0x0d) || u == 0x20 || u == 0x85 || u == 0xa0 || u == 0x1680 || (0x2000 <= u
        && u <= 0x200a) || u == 0x2028 || u == 0x2029 || u == 0x202f || u == 0x205f || u == 0x3000
}

/// Whether `s` holds only whitespace (or nothing).
pub fn str_is_blank(s: &str) -> (r: bool)
    ensures
        r == is_blank(s@),
{
    let n = s.unicode_len();
    let mut i: usize = 0;
    while i < n
        invariant
            n == s@.len(),
            i <= n,
            forall|j: int| 0 <= j < i ==> is_white_space(#[trigger] s@[j]),
        decreases n - i,
    {
        if !char_is_white_space(s.get_char(i)) {
            return false;
        }
        i = i + 1;
    }
    true
}

/// The empty-action-id errors of the tree rooted at `n`, in pre-order.
pub open spec fn tree_errors(n: BtNode) -> Seq<ValidationError>
    decreases n, 0nat,
{
    match n {
        BtNode::Action { name, action_id } => if is_blank(action_id@) {
            seq![ValidationError::EmptyActionId(name)]
        } else {
            Seq::empty()
        },
        BtNode::Sequence { children, .. } => forest_errors(children@),
        BtNode::Selector { children, .. } => forest_errors(children@),
        BtNode::Parallel { children, .. } => forest_errors(children@),
        BtNode::Inverter { child, .. } => tree_errors(*child),
        BtNode::AlwaysSucceed { child, .. } => tree_errors(*child),
        BtNode::Repeater { child, .. } => tree_errors(*child),
        _ => Seq::empty(),
    }
}

/// An action is reported for an empty id exactly when every character of its id, the
/// last included, is white space (so an empty id is reported, and an id with any other
/// character never is); the report names the action.
pub proof fn law_action_reported_iff_blank(name: String, action_id: String)
    ensures
        tree_errors(BtNode::Action { name, action_id }).len() > 0 <==> forall|i: int|
            0 <= i < action_id@.len() ==> is_white_space(#[trigger] action_id@[i]),
        (exists|i: int| 0 <= i < action_id@.len() && !is_white_space(#[trigger] action_id@[i]))
            ==> tree_errors(BtNode::Action { name, action_id }) == Seq::<ValidationError>::empty(),
        tree_errors(BtNode::Action { name, action_id }).len() > 0 ==> tree_errors(
            BtNode::Action { name, action_id },
        ) == seq![ValidationError::EmptyActionId(name)],
{
}

/// The empty-action-id errors of the trees rooted at `cs`, in order.
pub open spec fn forest_errors(cs: Seq<BtNode>) -> Seq<ValidationError>
    decreases cs, cs.len(),
{
    if cs.len() == 0 {
        Seq::empty()
    } else {
        forest_errors(cs.drop_last()) + tree_errors(cs.last())
    }
}

fn walk_bt(node: &BtNode, errors: &mut Vec<ValidationError>)
    ensures
        final(errors)@ == old(errors)@ + tree_errors(*node),
    decreases node, 1nat,
{
    match node {
        BtNode::Action { name, action_id } => {
            if str_is_blank(action_id.as_str()) {
                errors.push(ValidationError::EmptyActionId(name.clone()));
            } else {
                assert(errors@ =~= errors@ + Seq::<ValidationError>::empty());
            }
        },
        BtNode::Sequence { children, .. } => walk_forest(children, errors),
        BtNode::Selector { children, .. } => walk_forest(children, errors),
        BtNode::Parallel { children, .. } => walk_forest(children, errors),
        BtNode::Inverter { child, .. } => walk_bt(child, errors),
        BtNode::AlwaysSucceed { child, .. } => walk_bt(child, errors),
        BtNode::Repeater { child, .. } => walk_bt(child, errors),
        BtNode::ConditionCheck { .. } | BtNode::Wait { .. } => {
            assert(errors@ =~= errors@ + Seq::<ValidationError>::empty());
        },
    }
}

fn walk_forest(children: &Vec<BtNode>, errors: &mut Vec<ValidationError>)
    ensures
        final(errors)@ == old(errors)@ + forest_errors(children@),
    decreases children, 0nat,
{
    let ghost start = errors@;
    let mut i: usize = 0;
    assert(children@.take(0) =~= Seq::<BtNode>::empty());
    assert(start =~= start + forest_errors(children@.take(0)));
    while i < children.len()
        invariant
            i <= children@.len(),
            errors@ == start + forest_errors(children@.take(i as int)),
        decreases children@.len() - i,
    {
        assert(children@.take(i + 1).drop_last() =~= children@.take(i as int));
        assert(decreases_to!(children => children@[i as int]));
        let ghost mid = errors@;
        walk_bt(&children[i], errors);
        assert(errors@ =~= start + forest_errors(children@.take(i + 1)));
        i = i + 1;
    }
    assert(children@.take(children@.len() as int) =~= children@);
}

impl BehaviorTree {
    /// Walks the tree and reports every [`BtNode::Action`] leaf whose `action_id` is empty
    /// after trimming whitespace, in pre-order.
    ///
    /// Returns `Ok(())` if no problems are found.
    pub fn validate(&self) -> (r: Result<(), Vec<ValidationError>>)
        ensures
            r is Ok <==> tree_errors(self@.root).len() == 0,
            r matches Err(es) ==> es@ == tree_errors(self@.root),
    {
        let mut errors: Vec<ValidationError> = Vec::new();
        walk_bt(self.root(), &mut errors);
        assert(errors@ =~= tree_errors(self@.root));
        if errors.len() == 0 {
            Ok(())
        } else {
            Err(errors)
        }
    }
}

} // verus!

verus! {

/// Transition `t` records states that exist.
pub open spec fn transition_in_range(v: MachineView, t: int) -> bool {
    v.transitions[t].from < v.states.len() && v.transitions[t].to < v.states.len()
}

proof fn lemma_dangling_errors(v: MachineView, k: int)
    requires
        0 <= k <= v.transitions.len(),
    ensures
        dangling_errors(v, k).len() == 0 <==> forall|t: int| 0 <= t < k ==> #[trigger] transition_in_range(v, t),
        forall|t: int|
            0 <= t < k && !#[trigger] transition_in_range(v, t) ==> dangling_errors(v, k).contains(
                ValidationError::DanglingTransition {
                    from: v.transitions[t].from,
                    to: v.transitions[t].to,
                    max: v.states.len() as usize,
                },
            ),
    decreases k,
{
    if k > 0 {
        lemma_dangling_errors(v, k - 1);
        let prev = dangling_errors(v, k - 1);
        let cur = dangling_errors(v, k);
        assert forall|t: int|
            0 <= t < k && !#[trigger] transition_in_range(v, t) implies cur.contains(
            ValidationError::DanglingTransition {
                from: v.transitions[t].from,
                to: v.transitions[t].to,
                max: v.states.len() as usize,
            },
        ) by {
            if t < k - 1 {
                let x = ValidationError::DanglingTransition {
                    from: v.transitions[t].from,
                    to: v.transitions[t].to,
                    max: v.states.len() as usize,
                };
                let w = choose|w: int| 0 <= w < prev.len() && prev[w] == x;
                assert(cur[w] == x);
            } else {
                assert(cur[cur.len() - 1] == ValidationError::DanglingTransition {
                    from: v.transitions[t].from,
                    to: v.transitions[t].to,
                    max: v.states.len() as usize,
                });
            }
        }
        if forall|t: int| 0 <= t < k ==> #[trigger] transition_in_range(v, t) {
            assert(transition_in_range(v, k - 1));
            assert(prev.len() == 0);
            assert(cur =~= prev);
        }
        if cur.len() == 0 {
            assert forall|t: int| 0 <= t < k implies #[trigger] transition_in_range(v, t) by {
                if t < k - 1 {
                } else {
                    if !transition_in_range(v, t) {
                        assert(cur.len() > 0);
                    }
                }
            }
        }
    }
}

proof fn lemma_unreachable_errors(v: MachineView, e: int, k: int, i: usize)
    requires
        0 <= k <= usize::MAX,
    ensures
        unreachable_errors(v, e, k).contains(ValidationError::UnreachableState(i)) <==> (i < k
            && !reachable(v, e, i as int)),
        unreachable_errors(v, e, k).len() == 0 <==> forall|j: int| 0 <= j < k ==> #[trigger] reachable(v, e, j),
        forall|w: int|
            0 <= w < unreachable_errors(v, e, k).len() ==> #[trigger] unreachable_errors(v, e, k)[w] is UnreachableState,
    decreases k,
{
    if k > 0 {
        lemma_unreachable_errors(v, e, k - 1, i);
        let prev = unreachable_errors(v, e, k - 1);
        let cur = unreachable_errors(v, e, k);
        let x = ValidationError::UnreachableState(i);
        assert forall|w: int| 0 <= w < cur.len() implies #[trigger] cur[w] is UnreachableState by {
            if w < prev.len() {
                assert(cur[w] == prev[w]);
            }
        }
        if cur.contains(x) {
            let w = choose|w: int| 0 <= w < cur.len() && cur[w] == x;
            if w >= prev.len() {
                assert(cur[w] == ValidationError::UnreachableState((k - 1) as usize));
                assert(i == k - 1);
            } else {
                assert(prev[w] == x);
            }
        }
        if i < k && !reachable(v, e, i as int) {
            if i < k - 1 {
                let w = choose|w: int| 0 <= w < prev.len() && prev[w] == x;
                assert(cur[w] == x);
            } else {
                assert(cur[cur.len() - 1] == x);
            }
        }
        if cur.len() == 0 {
            assert forall|j: int| 0 <= j < k implies #[trigger] reachable(v, e, j) by {
                if j == k - 1 && !reachable(v, e, j) {
                    assert(cur.len() > 0);
                }
            }
        }
    }
}

/// With its entry state in range, a machine reports a state unreachable exactly when no
/// sequence of listed transitions leads to it from the entry state.
pub proof fn law_unreachable_reported_exactly(v: MachineView, i: usize)
    requires
        v.entry_state matches Some(e) && e < v.states.len(),
        v.states.len() <= usize::MAX,
    ensures
        machine_errors(v).contains(ValidationError::UnreachableState(i)) <==> (i < v.states.len()
            && !reachable(v, v.entry_state->Some_0 as int, i as int)),
{
    let e = v.entry_state->Some_0 as int;
    let n = v.states.len() as int;
    lemma_unreachable_errors(v, e, n, i);
    lemma_dangling_errors(v, v.transitions.len() as int);
    let d = dangling_errors(v, v.transitions.len() as int);
    let u = unreachable_errors(v, e, n);
    let x = ValidationError::UnreachableState(i);
    assert(machine_errors(v) == d + u);
    lemma_dangling_errors_kind(v, v.transitions.len() as int);
    if (d + u).contains(x) {
        let w = choose|w: int| 0 <= w < (d + u).len() && (d + u)[w] == x;
        if w < d.len() {
            assert(d[w] is DanglingTransition);
        } else {
            assert(u[w - d.len()] == x);
        }
    }
    if u.contains(x) {
        let w = choose|w: int| 0 <= w < u.len() && u[w] == x;
        assert((d + u)[d.len() + w] == x);
    }
}

proof fn lemma_dangling_errors_kind(v: MachineView, k: int)
    ensures
        forall|w: int| 0 <= w < dangling_errors(v, k).len() ==> #[trigger] dangling_errors(v, k)[w] is DanglingTransition,
    decreases k,
{
    if k > 0 {
        lemma_dangling_errors_kind(v, k - 1);
        let prev = dangling_errors(v, k - 1);
        let cur = dangling_errors(v, k);
        assert forall|w: int| 0 <= w < cur.len() implies #[trigger] cur[w] is DanglingTransition by {
            if w < prev.len() {
                assert(cur[w] == prev[w]);
            }
        }
    }
}

/// A machine validates exactly when every transition records states that exist, and it
/// either has no states and no entry, or its entry state exists and every state is
/// reachable from it. Every transition with an out-of-range state is reported.
pub proof fn law_validation_passes_exactly(v: MachineView)
    requires
        v.states.len() <= usize::MAX,
    ensures
        machine_errors(v).len() == 0 <==> {
            &&& forall|t: int| 0 <= t < v.transitions.len() ==> #[trigger] transition_in_range(v, t)
            &&& match v.entry_state {
                None => v.states.len() == 0,
                Some(e) => e < v.states.len() && forall|j: int|
                    0 <= j < v.states.len() ==> #[trigger] reachable(v, e as int, j),
            }
        },
        forall|t: int|
            0 <= t < v.transitions.len() && !#[trigger] transition_in_range(v, t) ==> machine_errors(
                v,
            ).contains(
                ValidationError::DanglingTransition {
                    from: v.transitions[t].from,
                    to: v.transitions[t].to,
                    max: v.states.len() as usize,
                },
            ),
{
    lemma_dangling_errors(v, v.transitions.len() as int);
    let d = dangling_errors(v, v.transitions.len() as int);
    let en = entry_errors(v);
    assert(machine_errors(v) == d + en);
    match v.entry_state {
        Some(e) => {
            if e < v.states.len() {
                lemma_unreachable_errors(v, e as int, v.states.len() as int, 0);
            }
        },
        None => {},
    }
    assert forall|t: int|
        0 <= t < v.transitions.len() && !#[trigger] transition_in_range(v, t) implies machine_errors(
        v,
    ).contains(
        ValidationError::DanglingTransition {
            from: v.transitions[t].from,
            to: v.transitions[t].to,
            max: v.states.len() as usize,
        },
    ) by {
        let x = ValidationError::DanglingTransition {
            from: v.transitions[t].from,
            to: v.transitions[t].to,
            max: v.states.len() as usize,
        };
        let w = choose|w: int| 0 <= w < d.len() && d[w] == x;
        assert((d + en)[w] == x);
    }
}

} // verus!
