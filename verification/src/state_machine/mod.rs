//! AI state machine: states, transitions and the conditions that drive them.
pub mod condition;
pub mod state;
pub mod transition;

use vstd::prelude::*;
use crate::blackboard::{Blackboard, BlackboardValue};
use condition::{float_answers, float_comparator, node_holds, FloatQuery};
use state::{apply_actions, same_state, AiState};
use transition::{same_transition, AiTransition};

verus! {

/// The result of evaluating the state machine for one tick.
#[derive(Debug, Clone, Copy, PartialEq, Eq, Structural)]
pub struct AiStateMachineEvent {
    /// The state that was left.
    pub prev_state: usize,
    /// The state that was entered.
    pub new_state: usize,
    /// Index of the transition that fired.
    pub transition: usize,
}

/// Everything an [`AiStateMachine`] holds, as plain values.
pub struct MachineView {
    /// The states, by index.
    pub states: Seq<AiState>,
    /// The transitions, by index.
    pub transitions: Seq<AiTransition>,
    /// The entry state, if one was set.
    pub entry_state: Option<usize>,
    /// The current state, if any.
    pub current_state: Option<usize>,
    /// Microseconds spent in the current state.
    pub time_in_current_state: u64,
    /// Whether the machine evaluates transitions on tick.
    pub active: bool,
}

/// `a + b`, or `u64::MAX` where the sum does not fit.
pub open spec fn saturating_sum(a: u64, b: u64) -> u64 {
    if a + b > u64::MAX {
        u64::MAX
    } else {
        (a + b) as u64
    }
}

/// The transitions listed on state `s`; none for an index past the last state.
pub open spec fn outgoing(v: MachineView, s: usize) -> Seq<usize> {
    if s < v.states.len() {
        v.states[s as int].transitions@
    } else {
        Seq::empty()
    }
}

/// Every transition listed on a state exists and starts at that state.
pub open spec fn listings_consistent(v: MachineView) -> bool {
    forall|s: int, k: int|
        0 <= s < v.states.len() && 0 <= k < v.states[s].transitions@.len() ==> {
            let t = #[trigger] v.states[s].transitions@[k];
            t < v.transitions.len() && v.transitions[t as int].from == s
        }
}

/// Transition `t` exists, its minimum time has passed and its condition holds.
pub open spec fn can_fire(
    v: MachineView,
    time: u64,
    bb: Map<Seq<char>, BlackboardValue>,
    fo: spec_fn(FloatQuery) -> bool,
    t: usize,
) -> bool {
    &&& t < v.transitions.len()
    &&& time >= v.transitions[t as int].min_time_in_state
    &&& node_holds(v.transitions[t as int].condition, bb, fo)
}

/// The first position at or after `k` in `ts` whose transition can fire.
pub open spec fn first_firing(
    v: MachineView,
    time: u64,
    bb: Map<Seq<char>, BlackboardValue>,
    fo: spec_fn(FloatQuery) -> bool,
    ts: Seq<usize>,
    k: int,
) -> Option<int>
    decreases ts.len() - k,
{
    if k < 0 || k >= ts.len() {
        None
    } else if can_fire(v, time, bb, fo, ts[k]) {
        Some(k)
    } else {
        first_firing(v, time, bb, fo, ts, k + 1)
    }
}

/// The blackboard after leaving state `s` (its leave actions, if the state exists).
pub open spec fn after_leave(
    v: MachineView,
    s: usize,
    bb: Map<Seq<char>, BlackboardValue>,
) -> Map<Seq<char>, BlackboardValue> {
    if s < v.states.len() {
        apply_actions(bb, v.states[s as int].on_leave_actions@)
    } else {
        bb
    }
}

/// The blackboard after entering state `s` (its enter actions, if the state exists).
pub open spec fn after_enter(
    v: MachineView,
    s: usize,
    bb: Map<Seq<char>, BlackboardValue>,
) -> Map<Seq<char>, BlackboardValue> {
    if s < v.states.len() {
        apply_actions(bb, v.states[s as int].on_enter_actions@)
    } else {
        bb
    }
}

/// One tick of a machine `v` that advances time by `dt` microseconds: the machine after,
/// the blackboard after, and the event reported.
pub open spec fn tick_outcome(
    v: MachineView,
    dt: u64,
    bb: Map<Seq<char>, BlackboardValue>,
    fo: spec_fn(FloatQuery) -> bool,
) -> (MachineView, Map<Seq<char>, BlackboardValue>, Option<AiStateMachineEvent>) {
    match v.current_state {
        None => (v, bb, None),
        Some(cur) => if !v.active {
            (v, bb, None)
        } else {
            let time = saturating_sum(v.time_in_current_state, dt);
            let ts = outgoing(v, cur);
            match first_firing(v, time, bb, fo, ts, 0) {
                None => (MachineView { time_in_current_state: time, ..v }, bb, None),
                Some(k) => {
                    let t = ts[k];
                    let next = v.transitions[t as int].to;
                    (
                        MachineView { current_state: Some(next), time_in_current_state: 0, ..v },
                        after_enter(v, next, after_leave(v, cur, bb)),
                        Some(AiStateMachineEvent { prev_state: cur, new_state: next, transition: t }),
                    )
                },
            }
        },
    }
}

/// Forcing state `s` on machine `v`: the machine after and the blackboard after.
pub open spec fn force_outcome(
    v: MachineView,
    s: usize,
    bb: Map<Seq<char>, BlackboardValue>,
) -> (MachineView, Map<Seq<char>, BlackboardValue>) {
    if v.current_state == Some(s) {
        (v, bb)
    } else {
        let left = match v.current_state {
            Some(old) => after_leave(v, old, bb),
            None => bb,
        };
        (
            MachineView { current_state: Some(s), time_in_current_state: 0, ..v },
            after_enter(v, s, left),
        )
    }
}

/// AI State Machine — manages states and transitions driven by a blackboard.
#[derive(Debug)]
pub struct AiStateMachine {
    states: Vec<AiState>,
    transitions: Vec<AiTransition>,
    entry_state: Option<usize>,
    current_state: Option<usize>,
    time_in_current_state: u64,
    active: bool,
}

impl View for AiStateMachine {
    type V = MachineView;

    closed spec fn view(&self) -> MachineView {
        MachineView {
            states: self.states@,
            transitions: self.transitions@,
            entry_state: self.entry_state,
            current_state: self.current_state,
            time_in_current_state: self.time_in_current_state,
            active: self.active,
        }
    }
}

/// `a` and `b` are the same machine: the same states and transitions in the same order,
/// and equal entry state, current state, time in state and activity.
pub open spec fn same_machine(a: MachineView, b: MachineView) -> bool {
    &&& a.states.len() == b.states.len()
    &&& forall|i: int| 0 <= i < a.states.len() ==> same_state(#[trigger] a.states[i], b.states[i])
    &&& a.transitions.len() == b.transitions.len()
    &&& forall|i: int|
        0 <= i < a.transitions.len() ==> same_transition(#[trigger] a.transitions[i], b.transitions[i])
    &&& a.entry_state == b.entry_state
    &&& a.current_state == b.current_state
    &&& a.time_in_current_state == b.time_in_current_state
    &&& a.active == b.active
}

impl Clone for AiStateMachine {
    fn clone(&self) -> (r: Self)
        ensures
            same_machine(self@, r@),
    {
        let mut states: Vec<AiState> = Vec::new();
        let mut i: usize = 0;
        while i < self.states.len()
            invariant
                i <= self.states@.len(),
                states@.len() == i,
                forall|j: int| 0 <= j < i ==> same_state(#[trigger] self.states@[j], states@[j]),
            decreases self.states@.len() - i,
        {
            states.push(self.states[i].clone());
            i = i + 1;
        }
        let mut transitions: Vec<AiTransition> = Vec::new();
        let mut i: usize = 0;
        while i < self.transitions.len()
            invariant
                i <= self.transitions@.len(),
                transitions@.len() == i,
                forall|j: int|
                    0 <= j < i ==> same_transition(#[trigger] self.transitions@[j], transitions@[j]),
            decreases self.transitions@.len() - i,
        {
            transitions.push(self.transitions[i].clone());
            i = i + 1;
        }
        AiStateMachine {
            states,
            transitions,
            entry_state: self.entry_state,
            current_state: self.current_state,
            time_in_current_state: self.time_in_current_state,
            active: self.active,
        }
    }
}

impl Default for AiStateMachine {
    fn default() -> (r: Self)
        ensures
            r@.states == Seq::<AiState>::empty(),
            r@.transitions == Seq::<AiTransition>::empty(),
            r@.entry_state is None,
            r@.current_state is None,
            r@.time_in_current_state == 0,
            !r@.active,
    {
        AiStateMachine {
            states: Vec::new(),
            transitions: Vec::new(),
            entry_state: None,
            current_state: None,
            time_in_current_state: 0,
            active: false,
        }
    }
}

impl AiStateMachine {
    /// Creates an empty, active state machine.
    pub fn new() -> (r: Self)
        ensures
            r@.states == Seq::<AiState>::empty(),
            r@.transitions == Seq::<AiTransition>::empty(),
            r@.entry_state is None,
            r@.current_state is None,
            r@.time_in_current_state == 0,
            r@.active,
    {
        AiStateMachine {
            states: Vec::new(),
            transitions: Vec::new(),
            entry_state: None,
            current_state: None,
            time_in_current_state: 0,
            active: true,
        }
    }

    /// Rebuilds a machine from everything it holds, as a saved machine is loaded.
    pub fn from_parts(
        states: Vec<AiState>,
        transitions: Vec<AiTransition>,
        entry_state: Option<usize>,
        current_state: Option<usize>,
        time_in_current_state: u64,
        active: bool,
    ) -> (r: Self)
        ensures
            r@ == (MachineView {
                states: states@,
                transitions: transitions@,
                entry_state,
                current_state,
                time_in_current_state,
                active,
            }),
    {
        AiStateMachine {
            states,
            transitions,
            entry_state,
            current_state,
            time_in_current_state,
            active,
        }
    }

    /// Add a state and return its index.
    pub fn add_state(&mut self, state: AiState) -> (idx: usize)
        ensures
            idx == old(self)@.states.len(),
            listings_consistent(old(self)@) && state.transitions@.len() == 0 ==> listings_consistent(
                final(self)@,
            ),
            final(self)@ == (MachineView { states: old(self)@.states.push(state), ..old(self)@ }),
    {
        let idx = self.states.len();
        let ghost before = self@;
        self.states.push(state);
        proof {
            let after = self@;
            if listings_consistent(before) && state.transitions@.len() == 0 {
                assert forall|s: int, k: int|
                    0 <= s < after.states.len() && 0 <= k < after.states[s].transitions@.len() implies {
                    let t = #[trigger] after.states[s].transitions@[k];
                    t < after.transitions.len() && after.transitions[t as int].from == s
                } by {
                    assert(s < before.states.len());
                    assert(after.states[s] == before.states[s]);
                }
            }
        }
        idx
    }

    /// Add a transition and return its index. The transition is also listed on its source
    /// state, where that state exists.
    pub fn add_transition(&mut self, transition: AiTransition) -> (idx: usize)
        ensures
            idx == old(self)@.transitions.len(),
            final(self)@.transitions == old(self)@.transitions.push(transition),
            final(self)@.states.len() == old(self)@.states.len(),
            forall|s: int|
                0 <= s < old(self)@.states.len() ==> #[trigger] final(self)@.states[s] == (if s
                    == transition.from {
                    AiState {
                        transitions: final(self)@.states[s].transitions,
                        ..old(self)@.states[s]
                    }
                } else {
                    old(self)@.states[s]
                }),
            transition.from < old(self)@.states.len() ==> final(self)@.states[transition.from as int].transitions@
                == old(self)@.states[transition.from as int].transitions@.push(idx),
            final(self)@.entry_state == old(self)@.entry_state,
            final(self)@.current_state == old(self)@.current_state,
            final(self)@.time_in_current_state == old(self)@.time_in_current_state,
            final(self)@.active == old(self)@.active,
            listings_consistent(old(self)@) ==> listings_consistent(final(self)@),
    {
        let from = transition.from;
        let idx = self.transitions.len();
        self.transitions.push(transition);
        if from < self.states.len() {
            self.states[from].transitions.push(idx);
        }
        idx
    }

    /// Sets the entry state; the current state becomes it too if there is none yet.
    pub fn set_entry_state(&mut self, state: usize)
        ensures
            final(self)@ == (MachineView {
                entry_state: Some(state),
                current_state: if old(self)@.current_state is None {
                    Some(state)
                } else {
                    old(self)@.current_state
                },
                ..old(self)@
            }),
    {
        self.entry_state = Some(state);
        if self.current_state.is_none() {
            self.current_state = Some(state);
        }
    }

    /// The entry state, if set.
    pub fn entry_state(&self) -> (r: Option<usize>)
        ensures
            r == self@.entry_state,
    {
        self.entry_state
    }

    /// The current state, if any.
    pub fn current_state(&self) -> (r: Option<usize>)
        ensures
            r == self@.current_state,
    {
        self.current_state
    }

    /// The current state, if there is one and its index is in range.
    pub fn current_state_ref(&self) -> (r: Option<&AiState>)
        ensures
            r.is_some() == (self@.current_state matches Some(c) && c < self@.states.len()),
            r matches Some(s) ==> *s == self@.states[self@.current_state->Some_0 as int],
    {
        match self.current_state {
            Some(i) => if i < self.states.len() {
                Some(&self.states[i])
            } else {
                None
            },
            None => None,
        }
    }

    /// The current state's name, or `"<none>"`.
    pub fn current_state_name(&self) -> (r: &str)
        ensures
            r@ == (match self@.current_state {
                Some(c) => if c < self@.states.len() {
                    self@.states[c as int].name@
                } else {
                    "<none>"@
                },
                None => "<none>"@,
            }),
    {
        match self.current_state_ref() {
            Some(s) => s.name.as_str(),
            None => "<none>",
        }
    }

    /// Microseconds spent in the current state.
    pub fn time_in_current_state(&self) -> (r: u64)
        ensures
            r == self@.time_in_current_state,
    {
        self.time_in_current_state
    }

    /// All states, by index.
    pub fn states(&self) -> (r: &[AiState])
        ensures
            r@ == self@.states,
    {
        self.states.as_slice()
    }

    /// Mutable access to the states.
    pub fn states_mut(&mut self) -> (r: &mut Vec<AiState>)
        ensures
            r@ == old(self)@.states,
            final(self)@ == (MachineView { states: final(r)@, ..old(self)@ }),
    {
        &mut self.states
    }

    /// All transitions, by index.
    pub fn transitions(&self) -> (r: &[AiTransition])
        ensures
            r@ == self@.transitions,
    {
        self.transitions.as_slice()
    }

    /// The state at `index`, if in range.
    pub fn state(&self, index: usize) -> (r: Option<&AiState>)
        ensures
            r.is_some() == (index < self@.states.len()),
            r matches Some(s) ==> *s == self@.states[index as int],
    {
        if index < self.states.len() {
            Some(&self.states[index])
        } else {
            None
        }
    }

    /// Mutable access to the state at `index`, if in range.
    pub fn state_mut(&mut self, index: usize) -> (r: Option<&mut AiState>)
        ensures
            r.is_some() == (index < old(self)@.states.len()),
            r matches Some(s) ==> *s == old(self)@.states[index as int] && final(self)@ == (
            MachineView { states: old(self)@.states.update(index as int, *final(s)), ..old(self)@ }),
            r is None ==> final(self)@ == old(self)@,
    {
        if index < self.states.len() {
            Some(&mut self.states[index])
        } else {
            None
        }
    }

    /// The transition at `index`, if in range.
    pub fn transition(&self, index: usize) -> (r: Option<&AiTransition>)
        ensures
            r.is_some() == (index < self@.transitions.len()),
            r matches Some(t) ==> *t == self@.transitions[index as int],
    {
        if index < self.transitions.len() {
            Some(&self.transitions[index])
        } else {
            None
        }
    }

    /// Whether the machine evaluates transitions on tick.
    pub fn is_active(&self) -> (r: bool)
        ensures
            r == self@.active,
    {
        self.active
    }

    /// Enables or disables evaluation.
    pub fn set_active(&mut self, active: bool)
        ensures
            final(self)@ == (MachineView { active, ..old(self)@ }),
    {
        self.active = active;
    }

    /// Force-set the current state: if it changes, the old state's leave actions run, the
    /// time in state restarts at zero, and the new state's enter actions run.
    pub fn force_state(&mut self, state: usize, blackboard: &mut Blackboard)
        requires
            old(blackboard).wf(),
        ensures
            final(blackboard).wf(),
            (final(self)@, final(blackboard)@) == force_outcome(old(self)@, state, old(blackboard)@),
    {
        if self.current_state != Some(state) {
            match self.current_state {
                Some(i) => if i < self.states.len() {
                    self.states[i].execute_leave_actions(blackboard);
                },
                None => {},
            }
            self.current_state = Some(state);
            self.time_in_current_state = 0;
            if state < self.states.len() {
                self.states[state].execute_enter_actions(blackboard);
            }
        }
    }

    /// Evaluates the state machine for one tick of `dt` microseconds. The first transition
    /// listed on the current state whose minimum time has passed and whose condition holds
    /// fires; the event is returned. Float comparisons are answered by `float_compare`.
    pub fn tick<F: Fn(FloatQuery) -> bool>(
        &mut self,
        dt: u64,
        blackboard: &mut Blackboard,
        float_compare: &F,
    ) -> (r: Option<AiStateMachineEvent>)
        requires
            old(blackboard).wf(),
            float_comparator(*float_compare),
        ensures
            final(blackboard).wf(),
            (final(self)@, final(blackboard)@, r) == tick_outcome(
                old(self)@,
                dt,
                old(blackboard)@,
                float_answers(*float_compare),
            ),
    {
        let ghost v = self@;
        let ghost bb0 = blackboard@;
        let ghost fo = float_answers(*float_compare);
        let current = match self.current_state {
            Some(c) => c,
            None => return None,
        };
        if !self.active {
            return None;
        }
        self.time_in_current_state = self.time_in_current_state.saturating_add(dt);
        let ghost time = self.time_in_current_state;
        let ghost ts = outgoing(v, current);
        let n: usize = if current < self.states.len() {
            self.states[current].transitions.len()
        } else {
            0
        };
        let mut k: usize = 0;
        while k < n
            invariant
                self@ == (MachineView { time_in_current_state: time, ..v }),
                blackboard@ == bb0,
                blackboard.wf(),
                float_comparator(*float_compare),
                fo == float_answers(*float_compare),
                v == old(self)@,
                bb0 == old(blackboard)@,
                v.current_state == Some(current),
                v.active,
                time == saturating_sum(v.time_in_current_state, dt),
                ts == outgoing(v, current),
                n == ts.len(),
                k <= n,
                first_firing(v, time, bb0, fo, ts, 0) == first_firing(v, time, bb0, fo, ts, k as int),
            decreases n - k,
        {
            let t_idx = self.states[current].transitions[k];
            if t_idx < self.transitions.len() && self.time_in_current_state
                >= self.transitions[t_idx].min_time_in_state
                && self.transitions[t_idx].condition.evaluate(blackboard, float_compare) {
                let next = self.transitions[t_idx].to;
                assert(t_idx == ts[k as int]);
                assert(can_fire(v, time, bb0, fo, ts[k as int]));
                assert(first_firing(v, time, bb0, fo, ts, k as int) == Some(k as int));
                if current < self.states.len() {
                    self.states[current].execute_leave_actions(blackboard);
                }
                self.current_state = Some(next);
                self.time_in_current_state = 0;
                if next < self.states.len() {
                    self.states[next].execute_enter_actions(blackboard);
                }
                let ev = AiStateMachineEvent { prev_state: current, new_state: next, transition: t_idx };
                return Some(ev);
            }
            assert(!can_fire(v, time, bb0, fo, ts[k as int]));
            k = k + 1;
        }
        None
    }
}

} // verus!

verus! {

/// The first firing position from `k0` on can fire, and none before it (from `k0`) can.
pub proof fn lemma_first_firing(
    v: MachineView,
    time: u64,
    bb: Map<Seq<char>, BlackboardValue>,
    fo: spec_fn(FloatQuery) -> bool,
    ts: Seq<usize>,
    k0: int,
)
    requires
        0 <= k0,
    ensures
        first_firing(v, time, bb, fo, ts, k0) matches Some(k) ==> {
            &&& k0 <= k < ts.len()
            &&& can_fire(v, time, bb, fo, ts[k])
            &&& forall|j: int| k0 <= j < k ==> !can_fire(v, time, bb, fo, #[trigger] ts[j])
        },
        first_firing(v, time, bb, fo, ts, k0) is None ==> forall|j: int|
            k0 <= j < ts.len() ==> !can_fire(v, time, bb, fo, #[trigger] ts[j]),
    decreases ts.len() - k0,
{
    if k0 < ts.len() {
        lemma_first_firing(v, time, bb, fo, ts, k0 + 1);
    }
}

/// A tick of an inactive machine, or of one without a current state, changes nothing and
/// reports nothing.
pub proof fn law_idle_tick_changes_nothing(
    v: MachineView,
    dt: u64,
    bb: Map<Seq<char>, BlackboardValue>,
    fo: spec_fn(FloatQuery) -> bool,
)
    requires
        !v.active || v.current_state is None,
    ensures
        tick_outcome(v, dt, bb, fo) == (v, bb, None::<AiStateMachineEvent>),
{
}

/// When a tick reports no event, the machine stays in its state, only the time in state
/// grows by `dt` (saturating), and the blackboard is untouched.
pub proof fn law_quiet_tick_only_advances_time(
    v: MachineView,
    dt: u64,
    bb: Map<Seq<char>, BlackboardValue>,
    fo: spec_fn(FloatQuery) -> bool,
)
    requires
        v.active,
        v.current_state is Some,
        tick_outcome(v, dt, bb, fo).2 is None,
    ensures
        tick_outcome(v, dt, bb, fo).0 == (MachineView {
            time_in_current_state: saturating_sum(v.time_in_current_state, dt),
            ..v
        }),
        tick_outcome(v, dt, bb, fo).1 == bb,
{
}

/// When a tick reports an event, the event names the state that was current, the
/// transition that fired and the state it leads to; the machine is now in that state with
/// its time in state restarted. The transition is listed on the state that was current,
/// its minimum time had passed and its condition held on the blackboard as it was before
/// the tick, and no transition listed before it on that state could fire.
pub proof fn law_event_reports_the_transition_taken(
    v: MachineView,
    dt: u64,
    bb: Map<Seq<char>, BlackboardValue>,
    fo: spec_fn(FloatQuery) -> bool,
)
    requires
        tick_outcome(v, dt, bb, fo).2 is Some,
    ensures
        ({
            let (v2, bb2, ev) = tick_outcome(v, dt, bb, fo);
            let e = ev->Some_0;
            let time = saturating_sum(v.time_in_current_state, dt);
            let ts = outgoing(v, e.prev_state);
            &&& v.active
            &&& v.current_state == Some(e.prev_state)
            &&& v2.current_state == Some(e.new_state)
            &&& v2.time_in_current_state == 0
            &&& v2.states == v.states
            &&& v2.transitions == v.transitions
            &&& e.transition < v.transitions.len()
            &&& v.transitions[e.transition as int].to == e.new_state
            &&& time >= v.transitions[e.transition as int].min_time_in_state
            &&& node_holds(v.transitions[e.transition as int].condition, bb, fo)
            &&& exists|k: int|
                0 <= k < ts.len() && ts[k] == e.transition && forall|j: int|
                    0 <= j < k ==> !can_fire(v, time, bb, fo, #[trigger] ts[j])
        }),
{
    let cur = v.current_state->Some_0;
    let time = saturating_sum(v.time_in_current_state, dt);
    let ts = outgoing(v, cur);
    lemma_first_firing(v, time, bb, fo, ts, 0);
    let k = first_firing(v, time, bb, fo, ts, 0)->Some_0;
    let e = tick_outcome(v, dt, bb, fo).2->Some_0;
    assert(e.prev_state == cur);
    assert(ts[k] == e.transition);
    assert(can_fire(v, time, bb, fo, ts[k]));
    assert(0 <= k < ts.len() && ts[k] == e.transition && forall|j: int|
        0 <= j < k ==> !can_fire(v, time, bb, fo, #[trigger] ts[j]));
}

/// An active machine in state `cur` reports no event on a tick exactly when no transition
/// listed on `cur` can fire: each is out of range, or the time in state (grown by `dt`,
/// saturating) is still below its minimum time, or its condition does not hold. A
/// transition whose minimum time is reached exactly may fire.
pub proof fn law_no_event_exactly_when_nothing_fires(
    v: MachineView,
    dt: u64,
    bb: Map<Seq<char>, BlackboardValue>,
    fo: spec_fn(FloatQuery) -> bool,
)
    requires
        v.active,
        v.current_state is Some,
    ensures
        ({
            let cur = v.current_state->Some_0;
            let time = saturating_sum(v.time_in_current_state, dt);
            let ts = outgoing(v, cur);
            tick_outcome(v, dt, bb, fo).2 is None <==> forall|k: int|
                0 <= k < ts.len() ==> {
                    let t = #[trigger] ts[k];
                    ||| t >= v.transitions.len()
                    ||| time < v.transitions[t as int].min_time_in_state
                    ||| !node_holds(v.transitions[t as int].condition, bb, fo)
                }
        }),
{
    let cur = v.current_state->Some_0;
    let time = saturating_sum(v.time_in_current_state, dt);
    let ts = outgoing(v, cur);
    lemma_first_firing(v, time, bb, fo, ts, 0);
    if tick_outcome(v, dt, bb, fo).2 is Some {
        let k = first_firing(v, time, bb, fo, ts, 0)->Some_0;
        assert(can_fire(v, time, bb, fo, ts[k]));
    } else {
        assert forall|k: int| 0 <= k < ts.len() implies {
            let t = #[trigger] ts[k];
            ||| t >= v.transitions.len()
            ||| time < v.transitions[t as int].min_time_in_state
            ||| !node_holds(v.transitions[t as int].condition, bb, fo)
        } by {
            assert(!can_fire(v, time, bb, fo, ts[k]));
        }
    }
}

/// When a tick fires a transition, the blackboard afterwards is the one before with the
/// left state's leave actions applied first and then the entered state's enter actions
/// (each only where that state exists), as forcing another state does.
pub proof fn law_firing_runs_leave_then_enter(
    v: MachineView,
    dt: u64,
    bb: Map<Seq<char>, BlackboardValue>,
    fo: spec_fn(FloatQuery) -> bool,
)
    requires
        tick_outcome(v, dt, bb, fo).2 is Some,
    ensures
        ({
            let (v2, bb2, ev) = tick_outcome(v, dt, bb, fo);
            let e = ev->Some_0;
            let left = if e.prev_state < v.states.len() {
                apply_actions(bb, v.states[e.prev_state as int].on_leave_actions@)
            } else {
                bb
            };
            &&& bb2 == if e.new_state < v.states.len() {
                apply_actions(left, v.states[e.new_state as int].on_enter_actions@)
            } else {
                left
            }
            &&& e.new_state != e.prev_state ==> bb2 == force_outcome(v, e.new_state, bb).1
        }),
{
    law_event_reports_the_transition_taken(v, dt, bb, fo);
}

/// In a machine whose states list only transitions that start at them (as `add_state` with
/// a fresh state and `add_transition` keep it), the transition a tick fires starts at the
/// state that was current.
pub proof fn law_fired_transition_starts_at_current_state(
    v: MachineView,
    dt: u64,
    bb: Map<Seq<char>, BlackboardValue>,
    fo: spec_fn(FloatQuery) -> bool,
)
    requires
        listings_consistent(v),
        tick_outcome(v, dt, bb, fo).2 is Some,
    ensures
        ({
            let e = tick_outcome(v, dt, bb, fo).2->Some_0;
            v.transitions[e.transition as int].from == e.prev_state
        }),
{
    let cur = v.current_state->Some_0;
    let time = saturating_sum(v.time_in_current_state, dt);
    let ts = outgoing(v, cur);
    lemma_first_firing(v, time, bb, fo, ts, 0);
    let k = first_firing(v, time, bb, fo, ts, 0)->Some_0;
    assert(cur < v.states.len());
    assert(v.states[cur as int].transitions@[k] == ts[k]);
}

/// A tick leaves the states and transitions as they were, so the listings stay consistent.
pub proof fn law_tick_keeps_the_graph(
    v: MachineView,
    dt: u64,
    bb: Map<Seq<char>, BlackboardValue>,
    fo: spec_fn(FloatQuery) -> bool,
)
    ensures
        tick_outcome(v, dt, bb, fo).0.states == v.states,
        tick_outcome(v, dt, bb, fo).0.transitions == v.transitions,
        tick_outcome(v, dt, bb, fo).0.entry_state == v.entry_state,
        tick_outcome(v, dt, bb, fo).0.active == v.active,
        listings_consistent(v) ==> listings_consistent(tick_outcome(v, dt, bb, fo).0),
{
}

/// Forcing a state makes it current. Forcing the current state changes nothing; forcing
/// another restarts the time in state and runs the old state's leave actions, then the new
/// state's enter actions.
pub proof fn law_force_state(v: MachineView, s: usize, bb: Map<Seq<char>, BlackboardValue>)
    ensures
        force_outcome(v, s, bb).0.current_state == Some(s),
        v.current_state == Some(s) ==> force_outcome(v, s, bb) == (v, bb),
        v.current_state != Some(s) ==> force_outcome(v, s, bb).0.time_in_current_state == 0
            && force_outcome(v, s, bb).1 == after_enter(
            v,
            s,
            match v.current_state {
                Some(old) => after_leave(v, old, bb),
                None => bb,
            },
        ),
{
}

} // verus!
