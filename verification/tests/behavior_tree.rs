use fyrox_ai_free::{
    ActionResults, BehaviorTree, Blackboard, BlackboardValue, BtNode, BtRuntime, BtStatus,
    CompareOp, Condition, ConditionNode, FloatQuery,
};

fn compare_floats(q: FloatQuery) -> bool {
    let actual = f32::from_bits(q.actual);
    let expected = f32::from_bits(q.expected);
    let tolerance = f32::from_bits(q.tolerance);
    match q.op {
        CompareOp::Equal => (actual - expected).abs() < tolerance,
        CompareOp::NotEqual => (actual - expected).abs() >= tolerance,
        CompareOp::Less => actual < expected,
        CompareOp::LessOrEqual => actual <= expected,
        CompareOp::Greater => actual > expected,
        CompareOp::GreaterOrEqual => actual >= expected,
    }
}

fn tick(tree: &BehaviorTree, dt: u64, bb: &Blackboard, actions: &ActionResults, rt: &mut BtRuntime) -> BtStatus {
    tree.tick(dt, bb, actions, rt, &compare_floats)
}

#[test]
fn test_selector_fallback() {
    let bb = &mut Blackboard::new();
    let actions = &mut ActionResults::new();

    let tree = BehaviorTree::new(BtNode::selector(
        "Root",
        vec![
            BtNode::sequence(
                "Attack",
                vec![
                    BtNode::condition("In Range?", ConditionNode::Leaf(Condition::is_true("in_range"))),
                    BtNode::action("Do Attack", "attack"),
                ],
            ),
            BtNode::action("Patrol", "patrol"),
        ],
    ));
    let mut runtime = tree.create_runtime();

    bb.set("in_range", BlackboardValue::Bool(false));
    actions.insert("patrol".to_string(), BtStatus::Success);
    actions.insert("attack".to_string(), BtStatus::Success);
    assert_eq!(tree.tick(16_000, bb, actions, &mut runtime, &compare_floats), BtStatus::Success);

    runtime.reset();
    bb.set("in_range", BlackboardValue::Bool(true));
    assert_eq!(tree.tick(16_000, bb, actions, &mut runtime, &compare_floats), BtStatus::Success);
}

#[test]
fn test_wait_node() {
    let bb = Blackboard::new();
    let actions = ActionResults::new();
    let tree = BehaviorTree::new(BtNode::wait("Wait 1s", 1_000_000));
    let mut runtime = tree.create_runtime();

    assert_eq!(tick(&tree, 300_000, &bb, &actions, &mut runtime), BtStatus::Running);
    assert_eq!(tick(&tree, 300_000, &bb, &actions, &mut runtime), BtStatus::Running);
    assert_eq!(tick(&tree, 500_000, &bb, &actions, &mut runtime), BtStatus::Success);
}

#[test]
fn parallel_repeater_always_succeed_builders() {
    let p = BtNode::parallel("P", vec![BtNode::action("a", "id_a")], 1);
    match p {
        BtNode::Parallel { name, children, success_threshold } => {
            assert_eq!(name, "P");
            assert_eq!(children.len(), 1);
            assert_eq!(success_threshold, 1);
        }
        _ => panic!("expected Parallel"),
    }

    let r = BtNode::repeater("R", BtNode::action("a", "id_a"), 3);
    match r {
        BtNode::Repeater { name, max_count, .. } => {
            assert_eq!(name, "R");
            assert_eq!(max_count, 3);
        }
        _ => panic!("expected Repeater"),
    }

    let s = BtNode::always_succeed("AS", BtNode::action("a", "id_a"));
    match s {
        BtNode::AlwaysSucceed { name, .. } => assert_eq!(name, "AS"),
        _ => panic!("expected AlwaysSucceed"),
    }
}

#[test]
fn sequence_resumes_running_child() {
    let bb = Blackboard::new();
    let mut actions = ActionResults::new();
    let tree = BehaviorTree::new(BtNode::sequence(
        "S",
        vec![BtNode::action("first", "first"), BtNode::action("second", "second")],
    ));
    let mut rt = tree.create_runtime();
    actions.insert("first".to_string(), BtStatus::Success);
    actions.insert("second".to_string(), BtStatus::Running);
    assert_eq!(tick(&tree, 1, &bb, &actions, &mut rt), BtStatus::Running);
    // The sequence resumes at its second child, so a failing first child is not looked at.
    actions.insert("first".to_string(), BtStatus::Failure);
    actions.insert("second".to_string(), BtStatus::Success);
    assert_eq!(tick(&tree, 1, &bb, &actions, &mut rt), BtStatus::Success);
    // After success it starts over from the first child.
    assert_eq!(tick(&tree, 1, &bb, &actions, &mut rt), BtStatus::Failure);
}

#[test]
fn empty_composites() {
    let bb = Blackboard::new();
    let actions = ActionResults::new();
    let seq = BehaviorTree::new(BtNode::sequence("S", vec![]));
    let mut rt = seq.create_runtime();
    assert_eq!(tick(&seq, 1, &bb, &actions, &mut rt), BtStatus::Success);
    let sel = BehaviorTree::new(BtNode::selector("S", vec![]));
    let mut rt = sel.create_runtime();
    assert_eq!(tick(&sel, 1, &bb, &actions, &mut rt), BtStatus::Failure);
    let par = BehaviorTree::new(BtNode::parallel("P", vec![], 0));
    let mut rt = par.create_runtime();
    assert_eq!(tick(&par, 1, &bb, &actions, &mut rt), BtStatus::Success);
}

#[test]
fn action_keeps_last_status_without_result() {
    let bb = Blackboard::new();
    let mut actions = ActionResults::new();
    let tree = BehaviorTree::new(BtNode::action("act", "act"));
    let mut rt = tree.create_runtime();
    // A fresh node reports its initial status.
    assert_eq!(tick(&tree, 1, &bb, &actions, &mut rt), BtStatus::Success);
    actions.insert("act".to_string(), BtStatus::Running);
    assert_eq!(tick(&tree, 1, &bb, &actions, &mut rt), BtStatus::Running);
    assert_eq!(actions.remove("act"), Some(BtStatus::Running));
    assert_eq!(tick(&tree, 1, &bb, &actions, &mut rt), BtStatus::Running);
}

#[test]
fn inverter_and_always_succeed() {
    let bb = Blackboard::new();
    let mut actions = ActionResults::new();
    let inv = BehaviorTree::new(BtNode::inverter("I", BtNode::action("a", "a")));
    let ok = BehaviorTree::new(BtNode::always_succeed("AS", BtNode::action("a", "a")));
    let mut rt_inv = inv.create_runtime();
    let mut rt_ok = ok.create_runtime();
    actions.insert("a".to_string(), BtStatus::Failure);
    assert_eq!(tick(&inv, 1, &bb, &actions, &mut rt_inv), BtStatus::Success);
    assert_eq!(tick(&ok, 1, &bb, &actions, &mut rt_ok), BtStatus::Success);
    actions.insert("a".to_string(), BtStatus::Success);
    assert_eq!(tick(&inv, 1, &bb, &actions, &mut rt_inv), BtStatus::Failure);
    actions.insert("a".to_string(), BtStatus::Running);
    assert_eq!(tick(&inv, 1, &bb, &actions, &mut rt_inv), BtStatus::Running);
    assert_eq!(tick(&ok, 1, &bb, &actions, &mut rt_ok), BtStatus::Running);
}

#[test]
fn repeater_counts_completions() {
    let bb = Blackboard::new();
    let mut actions = ActionResults::new();
    actions.insert("a".to_string(), BtStatus::Failure);
    let tree = BehaviorTree::new(BtNode::repeater("R", BtNode::action("a", "a"), 3));
    let mut rt = tree.create_runtime();
    assert_eq!(tick(&tree, 1, &bb, &actions, &mut rt), BtStatus::Running);
    assert_eq!(tick(&tree, 1, &bb, &actions, &mut rt), BtStatus::Running);
    // After `max_count` completions the repeater succeeds, whatever the child reported.
    assert_eq!(tick(&tree, 1, &bb, &actions, &mut rt), BtStatus::Success);
    // The count starts over after the last repetition.
    assert_eq!(tick(&tree, 1, &bb, &actions, &mut rt), BtStatus::Running);

    let forever = BehaviorTree::new(BtNode::repeater("F", BtNode::action("a", "a"), 0));
    let mut rt = forever.create_runtime();
    for _ in 0..10 {
        assert_eq!(tick(&forever, 1, &bb, &actions, &mut rt), BtStatus::Running);
    }
}

#[test]
fn parallel_threshold() {
    let bb = Blackboard::new();
    let mut actions = ActionResults::new();
    let children = || vec![BtNode::action("a", "a"), BtNode::action("b", "b"), BtNode::action("c", "c")];
    let two = BehaviorTree::new(BtNode::parallel("P2", children(), 2));
    let all = BehaviorTree::new(BtNode::parallel("P0", children(), 0));
    let mut rt2 = two.create_runtime();
    let mut rt0 = all.create_runtime();
    actions.insert("a".to_string(), BtStatus::Success);
    actions.insert("b".to_string(), BtStatus::Success);
    actions.insert("c".to_string(), BtStatus::Failure);
    assert_eq!(tick(&two, 1, &bb, &actions, &mut rt2), BtStatus::Success);
    assert_eq!(tick(&all, 1, &bb, &actions, &mut rt0), BtStatus::Failure);
    actions.insert("c".to_string(), BtStatus::Running);
    assert_eq!(tick(&all, 1, &bb, &actions, &mut rt0), BtStatus::Running);
    actions.insert("c".to_string(), BtStatus::Success);
    assert_eq!(tick(&all, 1, &bb, &actions, &mut rt0), BtStatus::Success);
}

#[test]
fn inactive_tree_fails() {
    let bb = Blackboard::new();
    let actions = ActionResults::new();
    let mut tree = BehaviorTree::new(BtNode::sequence("S", vec![]));
    let mut rt = tree.create_runtime();
    assert!(tree.is_active());
    tree.set_active(false);
    assert_eq!(tick(&tree, 1, &bb, &actions, &mut rt), BtStatus::Failure);
    assert_eq!(BehaviorTree::default().is_active(), false);
}

#[test]
fn condition_node_reads_blackboard_with_float_comparator() {
    let mut bb = Blackboard::new();
    let actions = ActionResults::new();
    let tree = BehaviorTree::new(BtNode::condition(
        "close?",
        ConditionNode::Leaf(Condition::new("distance", CompareOp::LessOrEqual, BlackboardValue::Float(5.0f32.to_bits()))),
    ));
    let mut rt = tree.create_runtime();
    assert_eq!(tick(&tree, 1, &bb, &actions, &mut rt), BtStatus::Failure);
    bb.set("distance", BlackboardValue::Float(4.5f32.to_bits()));
    assert_eq!(tick(&tree, 1, &bb, &actions, &mut rt), BtStatus::Success);
    bb.set("distance", BlackboardValue::Float(7.0f32.to_bits()));
    assert_eq!(tick(&tree, 1, &bb, &actions, &mut rt), BtStatus::Failure);
}

#[test]
fn wait_saturates_long_ticks_and_restarts() {
    let bb = Blackboard::new();
    let actions = ActionResults::new();
    let tree = BehaviorTree::new(BtNode::wait("W", u64::MAX));
    let mut rt = tree.create_runtime();
    assert_eq!(tick(&tree, u64::MAX - 1, &bb, &actions, &mut rt), BtStatus::Running);
    assert_eq!(tick(&tree, 5, &bb, &actions, &mut rt), BtStatus::Success);
    assert_eq!(tick(&tree, 5, &bb, &actions, &mut rt), BtStatus::Running);
}

#[test]
fn node_names_and_tree_access() {
    let mut tree = BehaviorTree::new(BtNode::selector("Root", vec![BtNode::wait("W", 1)]));
    assert_eq!(tree.root().name(), "Root");
    *tree.root_mut() = BtNode::inverter("Inv", BtNode::wait("W", 1));
    assert_eq!(tree.root().name(), "Inv");
    assert_eq!(BtStatus::default(), BtStatus::Success);
}

#[test]
fn clone_is_laid_out_like_the_original() {
    let bb = Blackboard::new();
    let mut actions = ActionResults::new();
    actions.insert("a".to_string(), BtStatus::Success);
    let tree = BehaviorTree::new(BtNode::sequence(
        "S",
        vec![BtNode::inverter("I", BtNode::action("a", "a")), BtNode::wait("W", 10)],
    ));
    let copy = tree.clone();
    let mut rt = tree.create_runtime();
    assert!(copy.runtime_fits(&rt));
    assert_eq!(tick(&copy, 1, &bb, &actions, &mut rt), BtStatus::Failure);
    assert_eq!(tick(&tree, 1, &bb, &actions, &mut rt), BtStatus::Failure);
    assert_eq!(copy.root().name(), "S");
}

#[test]
fn runtime_fits_only_its_tree() {
    let small = BehaviorTree::new(BtNode::wait("W", 1));
    let big = BehaviorTree::new(BtNode::selector("S", vec![BtNode::wait("W", 1), BtNode::wait("V", 2)]));
    let rt_small = small.create_runtime();
    let rt_big = big.create_runtime();
    assert!(small.runtime_fits(&rt_small));
    assert!(big.runtime_fits(&rt_big));
    assert!(!big.runtime_fits(&rt_small));
    assert!(small.runtime_fits(&rt_big));
    assert!(!small.runtime_fits(&BtRuntime::default()));
}

#[test]
fn one_shot_repeater_succeeds_over_failing_child() {
    let bb = Blackboard::new();
    let mut actions = ActionResults::new();
    actions.insert("a".to_string(), BtStatus::Failure);
    let tree = BehaviorTree::new(BtNode::repeater("R", BtNode::action("a", "a"), 1));
    let mut rt = tree.create_runtime();
    assert_eq!(tick(&tree, 1, &bb, &actions, &mut rt), BtStatus::Success);
    actions.insert("a".to_string(), BtStatus::Running);
    assert_eq!(tick(&tree, 1, &bb, &actions, &mut rt), BtStatus::Running);
}

#[test]
fn inactive_tree_ignores_the_runtime() {
    let bb = Blackboard::new();
    let actions = ActionResults::new();
    let mut tree = BehaviorTree::new(BtNode::sequence("S", vec![BtNode::wait("W", 1), BtNode::wait("V", 1)]));
    tree.set_active(false);
    let mut empty = BtRuntime::default();
    assert!(!tree.runtime_fits(&empty));
    assert_eq!(tick(&tree, 1, &bb, &actions, &mut empty), BtStatus::Failure);
}

#[test]
fn reset_runtime_behaves_as_new() {
    let bb = Blackboard::new();
    let actions = ActionResults::new();
    let tree = BehaviorTree::new(BtNode::sequence("S", vec![BtNode::wait("W", 10), BtNode::wait("V", 10)]));
    let mut rt = tree.create_runtime();
    assert_eq!(tick(&tree, 6, &bb, &actions, &mut rt), BtStatus::Running);
    rt.reset();
    let mut fresh = tree.create_runtime();
    assert_eq!(tick(&tree, 6, &bb, &actions, &mut rt), tick(&tree, 6, &bb, &actions, &mut fresh));
    assert_eq!(tick(&tree, 4, &bb, &actions, &mut rt), BtStatus::Running);
    assert_eq!(tick(&tree, 4, &bb, &actions, &mut fresh), BtStatus::Running);
}
