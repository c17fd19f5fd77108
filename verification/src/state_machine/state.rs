//! States ([`AiState`]) and the actions ([`StateAction`]) they run on entry and exit.

use vstd::prelude::*;
use crate::blackboard::{Blackboard, BlackboardValue};

verus! {

/// An action to execute when entering or leaving a state.
#[derive(Debug)]
pub enum StateAction {
    /// Do nothing.
    DoNothing,
    /// Set a blackboard value.
    SetBlackboard {
        /// Blackboard key to write.
        key: String,
        /// Value to store.
        value: BlackboardValue,
    },
}

impl Clone for StateAction {
    fn clone(&self) -> (r: Self)
        ensures
            r == *self,
    {
        match self {
            StateAction::DoNothing => StateAction::DoNothing,
            StateAction::SetBlackboard { key, value } => StateAction::SetBlackboard {
                key: key.clone(),
                value: value.clone(),
            },
        }
    }
}

impl Default for StateAction {
    fn default() -> (r: Self)
        ensures
            r is DoNothing,
    {
        StateAction::DoNothing
    }
}

/// The blackboard contents after running `action` on `bb`.
pub open spec fn apply_action(
    bb: Map<Seq<char>, BlackboardValue>,
    action: StateAction,
) -> Map<Seq<char>, BlackboardValue> {
    match action {
        StateAction::DoNothing => bb,
        StateAction::SetBlackboard { key, value } => bb.insert(key@, value),
    }
}

/// The blackboard contents after running `actions` on `bb`, first to last.
pub open spec fn apply_actions(
    bb: Map<Seq<char>, BlackboardValue>,
    actions: Seq<StateAction>,
) -> Map<Seq<char>, BlackboardValue>
    decreases actions.len(),
{
    if actions.len() == 0 {
        bb
    } else {
        apply_action(apply_actions(bb, actions.drop_last()), actions.last())
    }
}

/// Runs one action on the blackboard.
pub fn execute_action(action: &StateAction, blackboard: &mut Blackboard)
    requires
        old(blackboard).wf(),
    ensures
        final(blackboard).wf(),
        final(blackboard)@ == apply_action(old(blackboard)@, *action),
{
    match action {
        StateAction::DoNothing => {},
        StateAction::SetBlackboard { key, value } => {
            blackboard.set_owned(key.clone(), value.copy_value());
        },
    }
}

/// Runs `actions` in order on the blackboard.
fn execute_actions(actions: &Vec<StateAction>, blackboard: &mut Blackboard)
    requires
        old(blackboard).wf(),
    ensures
        final(blackboard).wf(),
        final(blackboard)@ == apply_actions(old(blackboard)@, actions@),
{
    let ghost start = blackboard@;
    let mut i: usize = 0;
    while i < actions.len()
        invariant
            i <= actions@.len(),
            blackboard.wf(),
            blackboard@ == apply_actions(start, actions@.subrange(0, i as int)),
        decreases actions@.len() - i,
    {
        assert(actions@.subrange(0, i + 1).drop_last() =~= actions@.subrange(0, i as int));
        execute_action(&actions[i], blackboard);
        i = i + 1;
    }
    assert(actions@.subrange(0, actions@.len() as int) =~= actions@);
}

/// A single state in the AI state machine.
#[derive(Debug)]
pub struct AiState {
    /// State name.
    pub name: String,
    /// Actions to execute when entering this state.
    pub on_enter_actions: Vec<StateAction>,
    /// Actions to execute when leaving this state.
    pub on_leave_actions: Vec<StateAction>,
    /// Indices of transitions originating from this state.
    pub transitions: Vec<usize>,
    /// Position in the editor graph view, each coordinate as the bit pattern of an `f32`.
    pub position: [u32; 2],
}

/// `a` and `b` are the same state: equal names, actions, listed transitions and position.
pub open spec fn same_state(a: AiState, b: AiState) -> bool {
    &&& a.name == b.name
    &&& a.on_enter_actions@ == b.on_enter_actions@
    &&& a.on_leave_actions@ == b.on_leave_actions@
    &&& a.transitions@ == b.transitions@
    &&& a.position == b.position
}

fn clone_actions(actions: &Vec<StateAction>) -> (r: Vec<StateAction>)
    ensures
        r@ == actions@,
{
    let mut r: Vec<StateAction> = Vec::new();
    let mut i: usize = 0;
    while i < actions.len()
        invariant
            i <= actions@.len(),
            r@ == actions@.take(i as int),
        decreases actions@.len() - i,
    {
        r.push(actions[i].clone());
        i = i + 1;
        assert(r@ =~= actions@.take(i as int));
    }
    assert(actions@.take(actions@.len() as int) =~= actions@);
    r
}

fn clone_indices(indices: &Vec<usize>) -> (r: Vec<usize>)
    ensures
        r@ == indices@,
{
    let mut r: Vec<usize> = Vec::new();
    let mut i: usize = 0;
    while i < indices.len()
        invariant
            i <= indices@.len(),
            r@ == indices@.take(i as int),
        decreases indices@.len() - i,
    {
        r.push(indices[i]);
        i = i + 1;
        assert(r@ =~= indices@.take(i as int));
    }
    assert(indices@.take(indices@.len() as int) =~= indices@);
    r
}

impl Clone for AiState {
    fn clone(&self) -> (r: Self)
        ensures
            same_state(*self, r),
    {
        AiState {
            name: self.name.clone(),
            on_enter_actions: clone_actions(&self.on_enter_actions),
            on_leave_actions: clone_actions(&self.on_leave_actions),
            transitions: clone_indices(&self.transitions),
            position: self.position,
        }
    }
}

impl Default for AiState {
    fn default() -> (r: Self)
        ensures
            r.name@ == "New State"@,
            r.on_enter_actions@ == Seq::<StateAction>::empty(),
            r.on_leave_actions@ == Seq::<StateAction>::empty(),
            r.transitions@ == Seq::<usize>::empty(),
            r.position@ == seq![0u32, 0u32],
    {
        let r = AiState {
            name: "New State".to_owned(),
            on_enter_actions: Vec::new(),
            on_leave_actions: Vec::new(),
            transitions: Vec::new(),
            position: [0, 0],
        };
        assert(r.position@ =~= seq![0u32, 0u32]);
        r
    }
}

impl AiState {
    /// Creates a state named `name` with no actions, no transitions and position (0, 0).
    pub fn new(name: &str) -> (r: Self)
        ensures
            r.name@ == name@,
            r.on_enter_actions@ == Seq::<StateAction>::empty(),
            r.on_leave_actions@ == Seq::<StateAction>::empty(),
            r.transitions@ == Seq::<usize>::empty(),
            r.position@ == seq![0u32, 0u32],
    {
        let r = AiState {
            name: name.to_owned(),
            on_enter_actions: Vec::new(),
            on_leave_actions: Vec::new(),
            transitions: Vec::new(),
            position: [0, 0],
        };
        assert(r.position@ =~= seq![0u32, 0u32]);
        r
    }

    /// Sets the editor position (each coordinate the bit pattern of an `f32`).
    pub fn with_position(self, x: u32, y: u32) -> (r: Self)
        ensures
            r.name == self.name,
            r.on_enter_actions == self.on_enter_actions,
            r.on_leave_actions == self.on_leave_actions,
            r.transitions == self.transitions,
            r.position@ == seq![x, y],
    {
        let mut r = self;
        r.position = [x, y];
        assert(r.position@ =~= seq![x, y]);
        r
    }

    /// Appends an action to run when entering this state.
    pub fn with_on_enter(self, action: StateAction) -> (r: Self)
        ensures
            r.name == self.name,
            r.on_enter_actions@ == self.on_enter_actions@.push(action),
            r.on_leave_actions == self.on_leave_actions,
            r.transitions == self.transitions,
            r.position == self.position,
    {
        let mut r = self;
        r.on_enter_actions.push(action);
        r
    }

    /// Appends an action to run when leaving this state.
    pub fn with_on_leave(self, action: StateAction) -> (r: Self)
        ensures
            r.name == self.name,
            r.on_enter_actions == self.on_enter_actions,
            r.on_leave_actions@ == self.on_leave_actions@.push(action),
            r.transitions == self.transitions,
            r.position == self.position,
    {
        let mut r = self;
        r.on_leave_actions.push(action);
        r
    }

    /// Runs the on-enter actions in order.
    pub fn execute_enter_actions(&self, blackboard: &mut Blackboard)
        requires
            old(blackboard).wf(),
        ensures
            final(blackboard).wf(),
            final(blackboard)@ == apply_actions(old(blackboard)@, self.on_enter_actions@),
    {
        execute_actions(&self.on_enter_actions, blackboard);
    }

    /// Runs the on-leave actions in order.
    pub fn execute_leave_actions(&self, blackboard: &mut Blackboard)
        requires
            old(blackboard).wf(),
        ensures
            final(blackboard).wf(),
            final(blackboard)@ == apply_actions(old(blackboard)@, self.on_leave_actions@),
    {
        execute_actions(&self.on_leave_actions, blackboard);
    }
}


/// Whether `a` writes the key `k`.
pub open spec fn sets_key(a: StateAction, k: Seq<char>) -> bool {
    a is SetBlackboard && a->key@ == k
}

/// Running a list of actions writes each key with the value of the last action in the list
/// that sets it; a key that no action sets keeps its value, or stays absent.
pub proof fn law_actions_last_write_wins(
    bb: Map<Seq<char>, BlackboardValue>,
    actions: Seq<StateAction>,
    k: Seq<char>,
)
    ensures
        (forall|i: int| 0 <= i < actions.len() ==> !sets_key(#[trigger] actions[i], k)) ==> (
        apply_actions(bb, actions).contains_key(k) == bb.contains_key(k) && (bb.contains_key(k)
            ==> apply_actions(bb, actions)[k] == bb[k])),
        forall|i: int|
            0 <= i < actions.len() && sets_key(#[trigger] actions[i], k) && (forall|j: int|
                i < j < actions.len() ==> !sets_key(#[trigger] actions[j], k)) ==> apply_actions(
                bb,
                actions,
            ).contains_key(k) && apply_actions(bb, actions)[k] == actions[i]->value,
    decreases actions.len(),
{
    if actions.len() > 0 {
        let init = actions.drop_last();
        law_actions_last_write_wins(bb, init, k);
        assert forall|i: int| 0 <= i < init.len() implies #[trigger] init[i] == actions[i] by {}
        let last = actions.last();
        let n = actions.len() - 1;
        assert(last == actions[n]);
        assert forall|i: int|
            0 <= i < actions.len() && sets_key(#[trigger] actions[i], k) && (forall|j: int|
                i < j < actions.len() ==> !sets_key(#[trigger] actions[j], k)) implies apply_actions(
            bb,
            actions,
        ).contains_key(k) && apply_actions(bb, actions)[k] == actions[i]->value by {
            if i < n {
                assert(!sets_key(actions[n], k));
                assert(sets_key(init[i], k));
                assert forall|j: int| i < j < init.len() implies !sets_key(#[trigger] init[j], k) by {
                    assert(!sets_key(actions[j], k));
                }
            }
        }
        if forall|i: int| 0 <= i < actions.len() ==> !sets_key(#[trigger] actions[i], k) {
            assert(!sets_key(actions[n], k));
            assert forall|i: int| 0 <= i < init.len() implies !sets_key(#[trigger] init[i], k) by {
                assert(!sets_key(actions[i], k));
            }
        }
    }
}

} // verus!
