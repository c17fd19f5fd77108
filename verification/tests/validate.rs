use fyrox_ai_free::{
    AiState, AiStateMachine, AiTransition, BehaviorTree, BlackboardValue, BtNode, Condition,
    ConditionNode, ValidationError,
};

#[test]
fn statemachine_ok_when_well_formed() {
    let mut sm = AiStateMachine::new();
    let a = sm.add_state(AiState::new("A"));
    let b = sm.add_state(AiState::new("B"));
    sm.add_transition(AiTransition::new(
        "A->B",
        a,
        b,
        ConditionNode::Leaf(Condition::is_true("go")),
    ));
    sm.set_entry_state(a);
    assert!(sm.validate().is_ok());
}

#[test]
fn statemachine_detects_missing_entry_and_dangling_and_unreachable() {
    let mut sm = AiStateMachine::new();
    let _a = sm.add_state(AiState::new("A"));
    let _b = sm.add_state(AiState::new("B"));
    // dangling: `to` points past the end
    sm.add_transition(AiTransition::new(
        "bad",
        0,
        99,
        ConditionNode::Leaf(Condition::is_true("x")),
    ));
    // no entry state set

    let errs = sm.validate().unwrap_err();
    assert!(errs.iter().any(|e| matches!(
        e,
        ValidationError::DanglingTransition { to: 99, max: 2, .. }
    )));
    assert!(errs.contains(&ValidationError::MissingEntryState));

    // Now set entry: B becomes unreachable (only the dangling transition references it,
    // and 99 is out of range so the search cannot reach 1).
    sm.set_entry_state(0);
    let errs = sm.validate().unwrap_err();
    assert!(errs.contains(&ValidationError::UnreachableState(1)));
}

#[test]
fn behaviortree_detects_empty_action_id() {
    let tree = BehaviorTree::new(BtNode::sequence(
        "root",
        vec![
            BtNode::action("named", "ok_id"),
            BtNode::action("empty", ""),
            BtNode::condition(
                "c",
                ConditionNode::Leaf(Condition::eq("k", BlackboardValue::Bool(true))),
            ),
        ],
    ));
    let errs = tree.validate().unwrap_err();
    assert_eq!(errs.len(), 1);
    assert_eq!(errs[0], ValidationError::EmptyActionId("empty".into()));

    let good = BehaviorTree::new(BtNode::action("only", "id"));
    assert!(good.validate().is_ok());
}

#[test]
fn empty_machine_is_valid() {
    assert_eq!(AiStateMachine::new().validate(), Ok(()));
}

#[test]
fn out_of_range_entry_is_reported_as_dangling() {
    let mut sm = AiStateMachine::new();
    sm.add_state(AiState::new("A"));
    sm.set_entry_state(5);
    assert_eq!(
        sm.validate(),
        Err(vec![ValidationError::DanglingTransition { from: 5, to: 5, max: 1 }])
    );
}

#[test]
fn errors_come_in_order() {
    let mut sm = AiStateMachine::new();
    let a = sm.add_state(AiState::new("A"));
    let b = sm.add_state(AiState::new("B"));
    let c = sm.add_state(AiState::new("C"));
    sm.add_transition(AiTransition::new("a->c", a, c, ConditionNode::And(vec![])));
    sm.add_transition(AiTransition::new("c->x", c, 7, ConditionNode::And(vec![])));
    sm.add_transition(AiTransition::new("y->b", 8, b, ConditionNode::And(vec![])));
    sm.set_entry_state(a);
    assert_eq!(
        sm.validate(),
        Err(vec![
            ValidationError::DanglingTransition { from: 2, to: 7, max: 3 },
            ValidationError::DanglingTransition { from: 8, to: 1, max: 3 },
            ValidationError::UnreachableState(1),
        ])
    );
}

#[test]
fn reachability_follows_chains_and_cycles() {
    let mut sm = AiStateMachine::new();
    for name in ["A", "B", "C", "D"] {
        sm.add_state(AiState::new(name));
    }
    sm.add_transition(AiTransition::new("a->b", 0, 1, ConditionNode::And(vec![])));
    sm.add_transition(AiTransition::new("b->c", 1, 2, ConditionNode::And(vec![])));
    sm.add_transition(AiTransition::new("c->a", 2, 0, ConditionNode::And(vec![])));
    sm.add_transition(AiTransition::new("d->a", 3, 0, ConditionNode::And(vec![])));
    sm.set_entry_state(1);
    assert_eq!(sm.validate(), Err(vec![ValidationError::UnreachableState(3)]));
}

#[test]
fn whitespace_action_ids_are_empty() {
    let tree = BehaviorTree::new(BtNode::selector(
        "root",
        vec![
            BtNode::action("spaces", " \t\n"),
            BtNode::inverter("inv", BtNode::action("nbsp", "\u{a0}\u{3000}")),
            BtNode::parallel("par", vec![BtNode::action("fine", " x ")], 0),
            BtNode::repeater("rep", BtNode::always_succeed("as", BtNode::action("deep", "")), 2),
            BtNode::wait("w", 3),
        ],
    ));
    assert_eq!(
        tree.validate(),
        Err(vec![
            ValidationError::EmptyActionId("spaces".to_string()),
            ValidationError::EmptyActionId("nbsp".to_string()),
            ValidationError::EmptyActionId("deep".to_string()),
        ])
    );
}

#[test]
fn validation_errors_clone_equal() {
    let e = ValidationError::EmptyActionId("x".to_string());
    assert_eq!(e.clone(), e);
    let d = ValidationError::DanglingTransition { from: 1, to: 2, max: 1 };
    assert_eq!(d.clone(), d);
}
