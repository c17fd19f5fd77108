use fyrox_ai_free::{
    AiState, AiStateMachine, AiStateMachineEvent, AiTransition, Blackboard, BlackboardValue,
    CompareOp, Condition, ConditionNode, FloatQuery, StateAction,
};

fn compare_floats(q: FloatQuery) -> bool {
    let actual = f32::from_bits(q.actual);
    let expected = f32::from_bits(q.expected);
    let tolerance = f32::from_bits(q.tolerance);
    match q.op {
        CompareOp::Equal => (actual - expected).abs() < tolerance,
        CompareOp::NotEqual => (actual - expected).abs() >= tolerance,
        CompareOp::Less => actual < expected,
        CompareOp::LessOrEqual => actual <= expected,
        CompareOp::Greater => actual > expected,
        CompareOp::GreaterOrEqual => actual >= expected,
    }
}

#[test]
fn test_basic_patrol_chase_flow() {
    let mut sm = AiStateMachine::new();
    let mut bb = Blackboard::new();

    let patrol = sm.add_state(AiState::new("Patrol"));
    let chase = sm.add_state(AiState::new("Chase"));
    let attack = sm.add_state(AiState::new("Attack"));

    sm.add_transition(AiTransition::new(
        "Spot Enemy",
        patrol,
        chase,
        ConditionNode::Leaf(Condition::is_true("enemy_visible")),
    ));
    sm.add_transition(AiTransition::new(
        "In Range",
        chase,
        attack,
        ConditionNode::Leaf(Condition::is_true("in_attack_range")),
    ));
    sm.add_transition(AiTransition::new(
        "Lost Enemy",
        chase,
        patrol,
        ConditionNode::Leaf(Condition::is_false("enemy_visible")),
    ));

    sm.set_entry_state(patrol);
    assert_eq!(sm.current_state_name(), "Patrol");

    bb.set("enemy_visible", BlackboardValue::Bool(false));
    assert!(sm.tick(16_000, &mut bb, &compare_floats).is_none());
    assert_eq!(sm.current_state_name(), "Patrol");

    bb.set("enemy_visible", BlackboardValue::Bool(true));
    let event = sm.tick(16_000, &mut bb, &compare_floats);
    assert!(event.is_some());
    assert_eq!(sm.current_state_name(), "Chase");

    bb.set("in_attack_range", BlackboardValue::Bool(true));
    let event = sm.tick(16_000, &mut bb, &compare_floats);
    assert!(event.is_some());
    assert_eq!(sm.current_state_name(), "Attack");
}

#[test]
fn test_min_time_in_state() {
    let mut sm = AiStateMachine::new();
    let mut bb = Blackboard::new();

    let a = sm.add_state(AiState::new("A"));
    let b = sm.add_state(AiState::new("B"));

    sm.add_transition(
        AiTransition::new("A->B", a, b, ConditionNode::Leaf(Condition::is_true("go")))
            .with_min_time(1_000_000),
    );
    sm.set_entry_state(a);

    bb.set("go", BlackboardValue::Bool(true));
    assert!(sm.tick(500_000, &mut bb, &compare_floats).is_none());
    assert_eq!(sm.current_state_name(), "A");

    assert!(sm.tick(600_000, &mut bb, &compare_floats).is_some());
    assert_eq!(sm.current_state_name(), "B");
}

#[test]
fn quick_start_spots_enemy() {
    let mut sm = AiStateMachine::new();
    let patrol = sm.add_state(AiState::new("Patrol"));
    let chase = sm.add_state(AiState::new("Chase"));
    sm.add_transition(AiTransition::new(
        "Spot Enemy",
        patrol,
        chase,
        ConditionNode::Leaf(Condition::is_true("enemy_visible")),
    ));
    sm.set_entry_state(patrol);

    let mut bb = Blackboard::new();
    bb.set("enemy_visible", BlackboardValue::Bool(true));
    let event = sm.tick(16_000, &mut bb, &compare_floats);
    assert_eq!(
        event,
        Some(AiStateMachineEvent { prev_state: patrol, new_state: chase, transition: 0 })
    );
    assert_eq!(sm.current_state_name(), "Chase");
    assert_eq!(sm.time_in_current_state(), 0);
}

#[test]
fn example_full_cycle_returns_to_patrol() {
    let mut sm = AiStateMachine::new();
    let patrol = sm.add_state(AiState::new("Patrol"));
    let chase = sm.add_state(AiState::new("Chase"));
    let attack = sm.add_state(AiState::new("Attack"));
    sm.add_transition(AiTransition::new("Spot Enemy", patrol, chase, ConditionNode::Leaf(Condition::is_true("enemy_visible"))));
    sm.add_transition(AiTransition::new("In Range", chase, attack, ConditionNode::Leaf(Condition::is_true("in_attack_range"))));
    sm.add_transition(AiTransition::new("Lost Enemy", chase, patrol, ConditionNode::Leaf(Condition::is_false("enemy_visible"))));
    sm.add_transition(AiTransition::new("Target Down", attack, patrol, ConditionNode::Leaf(Condition::is_false("enemy_visible"))));
    sm.set_entry_state(patrol);

    let mut bb = Blackboard::new();
    bb.set("enemy_visible", BlackboardValue::Bool(false));
    bb.set("in_attack_range", BlackboardValue::Bool(false));
    sm.tick(16_000, &mut bb, &compare_floats);
    assert_eq!(sm.current_state_name(), "Patrol");
    bb.set("enemy_visible", BlackboardValue::Bool(true));
    sm.tick(16_000, &mut bb, &compare_floats);
    assert_eq!(sm.current_state_name(), "Chase");
    bb.set("in_attack_range", BlackboardValue::Bool(true));
    sm.tick(16_000, &mut bb, &compare_floats);
    assert_eq!(sm.current_state_name(), "Attack");
    bb.set("enemy_visible", BlackboardValue::Bool(false));
    bb.set("in_attack_range", BlackboardValue::Bool(false));
    sm.tick(16_000, &mut bb, &compare_floats);
    assert_eq!(sm.current_state_name(), "Patrol");
}

#[test]
fn inactive_or_unstarted_machine_does_nothing() {
    let mut sm = AiStateMachine::new();
    let a = sm.add_state(AiState::new("A"));
    let b = sm.add_state(AiState::new("B"));
    sm.add_transition(AiTransition::new("A->B", a, b, ConditionNode::And(vec![])));
    let mut bb = Blackboard::new();
    // No current state yet.
    assert!(sm.tick(10, &mut bb, &compare_floats).is_none());
    assert_eq!(sm.current_state_name(), "<none>");
    sm.set_entry_state(a);
    sm.set_active(false);
    assert!(!sm.is_active());
    assert!(sm.tick(10, &mut bb, &compare_floats).is_none());
    assert_eq!(sm.current_state(), Some(a));
    assert_eq!(sm.time_in_current_state(), 0);
}

#[test]
fn quiet_tick_accumulates_time() {
    let mut sm = AiStateMachine::new();
    let a = sm.add_state(AiState::new("A"));
    sm.set_entry_state(a);
    let mut bb = Blackboard::new();
    assert!(sm.tick(250, &mut bb, &compare_floats).is_none());
    assert!(sm.tick(250, &mut bb, &compare_floats).is_none());
    assert_eq!(sm.time_in_current_state(), 500);
    assert!(sm.tick(u64::MAX, &mut bb, &compare_floats).is_none());
    assert_eq!(sm.time_in_current_state(), u64::MAX);
}

#[test]
fn first_listed_transition_wins_and_actions_run() {
    let mut sm = AiStateMachine::new();
    let a = sm.add_state(AiState::new("A").with_on_leave(StateAction::SetBlackboard {
        key: "left".to_string(),
        value: BlackboardValue::Int(1),
    }));
    let b = sm.add_state(AiState::new("B").with_on_enter(StateAction::SetBlackboard {
        key: "entered".to_string(),
        value: BlackboardValue::String("B".to_string()),
    }));
    let c = sm.add_state(AiState::new("C"));
    let t0 = sm.add_transition(AiTransition::new("A->B", a, b, ConditionNode::And(vec![])));
    sm.add_transition(AiTransition::new("A->C", a, c, ConditionNode::And(vec![])));
    assert_eq!(sm.state(a).unwrap().transitions, vec![0, 1]);
    sm.set_entry_state(a);
    let mut bb = Blackboard::new();
    let ev = sm.tick(1, &mut bb, &compare_floats).unwrap();
    assert_eq!(ev, AiStateMachineEvent { prev_state: a, new_state: b, transition: t0 });
    assert_eq!(bb.get_int("left"), Some(1));
    assert_eq!(bb.get_string("entered"), Some("B"));
}

#[test]
fn transition_from_missing_state_is_not_listed() {
    let mut sm = AiStateMachine::new();
    let a = sm.add_state(AiState::new("A"));
    let idx = sm.add_transition(AiTransition::new("ghost", 7, a, ConditionNode::And(vec![])));
    assert_eq!(idx, 0);
    assert_eq!(sm.transitions().len(), 1);
    assert!(sm.state(a).unwrap().transitions.is_empty());
    assert!(sm.state(7).is_none());
    assert!(sm.transition(3).is_none());
}

#[test]
fn force_state_runs_actions_and_resets_time() {
    let mut sm = AiStateMachine::new();
    let a = sm.add_state(AiState::new("A").with_on_leave(StateAction::SetBlackboard {
        key: "bye".to_string(),
        value: BlackboardValue::Bool(true),
    }));
    let b = sm.add_state(AiState::new("B").with_on_enter(StateAction::SetBlackboard {
        key: "hi".to_string(),
        value: BlackboardValue::Bool(true),
    }));
    sm.set_entry_state(a);
    let mut bb = Blackboard::new();
    sm.tick(42, &mut bb, &compare_floats);
    assert_eq!(sm.time_in_current_state(), 42);
    // Forcing the current state changes nothing.
    sm.force_state(a, &mut bb);
    assert_eq!(sm.time_in_current_state(), 42);
    assert!(!bb.contains("bye"));
    sm.force_state(b, &mut bb);
    assert_eq!(sm.current_state(), Some(b));
    assert_eq!(sm.time_in_current_state(), 0);
    assert_eq!(bb.get_bool("bye"), Some(true));
    assert_eq!(bb.get_bool("hi"), Some(true));
    // Forcing a state index past the last state still makes it current.
    sm.force_state(9, &mut bb);
    assert_eq!(sm.current_state(), Some(9));
    assert_eq!(sm.current_state_name(), "<none>");
    assert!(sm.current_state_ref().is_none());
}

#[test]
fn set_entry_state_keeps_existing_current_state() {
    let mut sm = AiStateMachine::new();
    let a = sm.add_state(AiState::new("A"));
    let b = sm.add_state(AiState::new("B"));
    sm.set_entry_state(a);
    sm.set_entry_state(b);
    assert_eq!(sm.entry_state(), Some(b));
    assert_eq!(sm.current_state(), Some(a));
}

#[test]
fn state_mut_edits_a_state() {
    let mut sm = AiStateMachine::new();
    let a = sm.add_state(AiState::new("A"));
    sm.state_mut(a).unwrap().name = "Renamed".to_string();
    sm.set_entry_state(a);
    assert_eq!(sm.current_state_name(), "Renamed");
    sm.states_mut().push(AiState::new("Extra"));
    assert_eq!(sm.states().len(), 2);
    assert!(sm.state_mut(5).is_none());
}

#[test]
fn float_condition_uses_comparator() {
    let mut sm = AiStateMachine::new();
    let a = sm.add_state(AiState::new("A"));
    let b = sm.add_state(AiState::new("B"));
    sm.add_transition(AiTransition::new(
        "low health",
        a,
        b,
        ConditionNode::Leaf(Condition::new("health", CompareOp::Less, BlackboardValue::Float(25.0f32.to_bits()))),
    ));
    sm.set_entry_state(a);
    let mut bb = Blackboard::new();
    bb.set("health", BlackboardValue::Float(80.0f32.to_bits()));
    assert!(sm.tick(1, &mut bb, &compare_floats).is_none());
    bb.set("health", BlackboardValue::Float(10.0f32.to_bits()));
    assert!(sm.tick(1, &mut bb, &compare_floats).is_some());
    assert_eq!(sm.current_state_name(), "B");
}

#[test]
fn defaults() {
    let s = AiState::default();
    assert_eq!(s.name, "New State");
    assert_eq!(s.position, [0, 0]);
    let s = AiState::new("X").with_position(1.5f32.to_bits(), 2.0f32.to_bits());
    assert_eq!(s.position, [1.5f32.to_bits(), 2.0f32.to_bits()]);
    let t = AiTransition::default();
    assert_eq!(t.name, "Transition");
    assert_eq!(t.from, usize::MAX);
    assert_eq!(t.to, usize::MAX);
    assert_eq!(t.min_time_in_state, 0);
    let sm = AiStateMachine::default();
    assert!(!sm.is_active());
    assert!(AiStateMachine::new().is_active());
    assert!(matches!(StateAction::default(), StateAction::DoNothing));
}

#[test]
fn from_parts_restores_a_machine() {
    let mut sm = AiStateMachine::new();
    let a = sm.add_state(AiState::new("A"));
    let b = sm.add_state(AiState::new("B"));
    sm.add_transition(AiTransition::new("A->B", a, b, ConditionNode::Leaf(Condition::is_true("go"))));
    sm.set_entry_state(a);
    let mut bb = Blackboard::new();
    sm.tick(30, &mut bb, &compare_floats);
    let restored = AiStateMachine::from_parts(
        sm.states().to_vec(),
        sm.transitions().to_vec(),
        sm.entry_state(),
        sm.current_state(),
        sm.time_in_current_state(),
        sm.is_active(),
    );
    assert_eq!(restored.current_state_name(), "A");
    assert_eq!(restored.time_in_current_state(), 30);
    assert_eq!(restored.states().len(), 2);
    assert_eq!(restored.transitions()[0].name, "A->B");
    assert_eq!(restored.entry_state(), Some(a));
}

#[test]
fn machine_clone_is_independent() {
    let mut sm = AiStateMachine::new();
    let a = sm.add_state(AiState::new("A"));
    let b = sm.add_state(AiState::new("B"));
    sm.add_transition(AiTransition::new("A->B", a, b, ConditionNode::Leaf(Condition::is_true("go"))));
    sm.set_entry_state(a);
    let mut bb = Blackboard::new();
    sm.tick(5, &mut bb, &compare_floats);
    let mut copy = sm.clone();
    assert_eq!(copy.time_in_current_state(), 5);
    assert_eq!(copy.state(a).unwrap().transitions, vec![0]);
    bb.set("go", BlackboardValue::Bool(true));
    assert!(copy.tick(1, &mut bb, &compare_floats).is_some());
    assert_eq!(copy.current_state_name(), "B");
    assert_eq!(sm.current_state_name(), "A");
}
