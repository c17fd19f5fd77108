use fyrox_ai_free::state_machine::condition::compare_op;
use fyrox_ai_free::{
    Blackboard, BlackboardValue, CompareOp, Condition, ConditionNode, FloatQuery,
    StringMap,
};

fn compare_floats(q: FloatQuery) -> bool {
    let actual = f32::from_bits(q.actual);
    let expected = f32::from_bits(q.expected);
    let tolerance = f32::from_bits(q.tolerance);
    match q.op {
        CompareOp::Equal => (actual - expected).abs() < tolerance,
        CompareOp::NotEqual => (actual - expected).abs() >= tolerance,
        CompareOp::Less => actual < expected,
        CompareOp::LessOrEqual => actual <= expected,
        CompareOp::Greater => actual > expected,
        CompareOp::GreaterOrEqual => actual >= expected,
    }
}

#[test]
fn blackboard_read_after_set_and_remove() {
    let mut bb = Blackboard::new();
    assert!(!bb.contains("hp"));
    bb.set("hp", BlackboardValue::Int(10));
    assert_eq!(bb.get("hp"), Some(&BlackboardValue::Int(10)));
    bb.set("hp", BlackboardValue::Int(7));
    assert_eq!(bb.get_int("hp"), Some(7));
    assert_eq!(bb.iter().len(), 1);
    assert_eq!(bb.remove("hp"), Some(BlackboardValue::Int(7)));
    assert_eq!(bb.remove("hp"), None);
    assert!(bb.get("hp").is_none());
}

#[test]
fn typed_getters_check_the_kind() {
    let mut bb = Blackboard::default();
    bb.set("b", BlackboardValue::Bool(true));
    bb.set("i", BlackboardValue::Int(-3));
    bb.set("f", BlackboardValue::Float(1.25f32.to_bits()));
    bb.set("s", BlackboardValue::String("hello".to_string()));
    assert_eq!(bb.get_bool("b"), Some(true));
    assert_eq!(bb.get_int("b"), None);
    assert_eq!(bb.get_int("i"), Some(-3));
    assert_eq!(bb.get_float("i"), None);
    assert_eq!(bb.get_float("f"), Some(1.25f32.to_bits()));
    assert_eq!(bb.get_string("s"), Some("hello"));
    assert_eq!(bb.get_string("missing"), None);
    bb.clear();
    assert!(bb.iter().is_empty());
    assert!(!bb.contains("b"));
}

#[test]
fn value_accessors_and_default() {
    assert_eq!(BlackboardValue::default(), BlackboardValue::Bool(false));
    assert_eq!(BlackboardValue::Int(4).as_int(), Some(4));
    assert_eq!(BlackboardValue::Int(4).as_bool(), None);
    assert_eq!(BlackboardValue::String("x".to_string()).as_string(), Some("x"));
    assert_eq!(BlackboardValue::Float(9).as_float(), Some(9));
    let v = BlackboardValue::String("copy".to_string());
    assert_eq!(v.copy_value(), v);
}

#[test]
fn string_map_basics() {
    let mut m: StringMap<u32> = StringMap::new();
    assert_eq!(m.len(), 0);
    m.insert("a".to_string(), 1);
    m.insert("b".to_string(), 2);
    m.insert("a".to_string(), 3);
    assert_eq!(m.len(), 2);
    assert_eq!(m.get("a"), Some(&3));
    assert!(m.contains_key("b"));
    assert_eq!(m.entries()[0], ("a".to_string(), 3));
    assert_eq!(m.remove("a"), Some(3));
    assert_eq!(m.len(), 1);
    m.clear();
    assert_eq!(m.len(), 0);
}

#[test]
fn compare_op_on_integers() {
    assert!(compare_op(CompareOp::Equal, 3, 3));
    assert!(!compare_op(CompareOp::Equal, 3, 4));
    assert!(compare_op(CompareOp::NotEqual, 3, 4));
    assert!(compare_op(CompareOp::Less, -1, 0));
    assert!(!compare_op(CompareOp::Less, 0, 0));
    assert!(compare_op(CompareOp::LessOrEqual, 0, 0));
    assert!(compare_op(CompareOp::Greater, 5, 4));
    assert!(!compare_op(CompareOp::GreaterOrEqual, 3, 4));
    assert_eq!(CompareOp::default(), CompareOp::Equal);
}

#[test]
fn conditions_on_each_kind() {
    let mut bb = Blackboard::new();
    bb.set("flag", BlackboardValue::Bool(true));
    bb.set("ammo", BlackboardValue::Int(3));
    bb.set("name", BlackboardValue::String("orc".to_string()));
    bb.set("speed", BlackboardValue::Float(2.0f32.to_bits()));

    assert!(Condition::is_true("flag").evaluate(&bb, &compare_floats));
    assert!(!Condition::is_false("flag").evaluate(&bb, &compare_floats));
    // Booleans order false before true.
    assert!(Condition::new("flag", CompareOp::Greater, BlackboardValue::Bool(false)).evaluate(&bb, &compare_floats));
    assert!(Condition::new("ammo", CompareOp::GreaterOrEqual, BlackboardValue::Int(3)).evaluate(&bb, &compare_floats));
    assert!(Condition::eq("name", BlackboardValue::String("orc".to_string())).evaluate(&bb, &compare_floats));
    // Strings only support equality.
    assert!(!Condition::new("name", CompareOp::Less, BlackboardValue::String("pig".to_string())).evaluate(&bb, &compare_floats));
    assert!(Condition::new("name", CompareOp::NotEqual, BlackboardValue::String("pig".to_string())).evaluate(&bb, &compare_floats));
    // Floats are compared within the tolerance.
    let near = BlackboardValue::Float((2.0f32 + 1e-8).to_bits());
    assert!(Condition::eq("speed", near).evaluate(&bb, &compare_floats));
    let loose = Condition::eq("speed", BlackboardValue::Float(2.4f32.to_bits())).with_tolerance(0.5f32.to_bits());
    assert!(loose.evaluate(&bb, &compare_floats));
    assert_eq!(Condition::float_tolerance(), f32::EPSILON.to_bits());
    // Missing keys and kind mismatches are false for every operator.
    assert!(!Condition::is_true("missing").evaluate(&bb, &compare_floats));
    assert!(!Condition::new("ammo", CompareOp::NotEqual, BlackboardValue::Bool(true)).evaluate(&bb, &compare_floats));
    assert!(!Condition::new("ammo", CompareOp::NotEqual, BlackboardValue::Float(0)).evaluate(&bb, &compare_floats));
}

#[test]
fn condition_trees() {
    let mut bb = Blackboard::new();
    bb.set("a", BlackboardValue::Bool(true));
    bb.set("b", BlackboardValue::Bool(false));
    let t = |k: &str| ConditionNode::Leaf(Condition::is_true(k));
    assert!(ConditionNode::And(vec![]).evaluate(&bb, &compare_floats));
    assert!(!ConditionNode::Or(vec![]).evaluate(&bb, &compare_floats));
    assert!(!ConditionNode::And(vec![t("a"), t("b")]).evaluate(&bb, &compare_floats));
    assert!(ConditionNode::Or(vec![t("b"), t("a")]).evaluate(&bb, &compare_floats));
    assert!(ConditionNode::Not(Box::new(t("b"))).evaluate(&bb, &compare_floats));
    assert!(!ConditionNode::Not(Box::new(ConditionNode::Not(Box::new(t("b"))))).evaluate(&bb, &compare_floats));
    // The default leaf reads the empty key, which is missing.
    assert!(!ConditionNode::default().evaluate(&bb, &compare_floats));
}

#[test]
fn cloned_conditions_evaluate_alike() {
    let mut bb = Blackboard::new();
    bb.set("a", BlackboardValue::Bool(true));
    bb.set("n", BlackboardValue::Int(2));
    let tree = ConditionNode::Or(vec![
        ConditionNode::Not(Box::new(ConditionNode::Leaf(Condition::is_true("a")))),
        ConditionNode::And(vec![ConditionNode::Leaf(Condition::new("n", CompareOp::Less, BlackboardValue::Int(5)))]),
    ]);
    let copy = tree.clone();
    assert_eq!(copy.evaluate(&bb, &compare_floats), tree.evaluate(&bb, &compare_floats));
    assert!(copy.evaluate(&bb, &compare_floats));
    bb.set("n", BlackboardValue::Int(9));
    assert!(!copy.evaluate(&bb, &compare_floats));
    let v = BlackboardValue::Vec3 { x: 1, y: 2, z: 3 };
    assert_eq!(v.clone(), v);
}

#[test]
fn float_values_compare_as_floats() {
    assert_eq!(BlackboardValue::Float(0.0f32.to_bits()), BlackboardValue::Float((-0.0f32).to_bits()));
    assert_ne!(BlackboardValue::Float(f32::NAN.to_bits()), BlackboardValue::Float(f32::NAN.to_bits()));
    assert_eq!(BlackboardValue::Float(1.5f32.to_bits()), BlackboardValue::Float(1.5f32.to_bits()));
    assert_ne!(BlackboardValue::Float(1.5f32.to_bits()), BlackboardValue::Float(2.5f32.to_bits()));
    assert_ne!(BlackboardValue::Float(0), BlackboardValue::Int(0));
    let v = |x: f32| BlackboardValue::Vec3 { x: x.to_bits(), y: 1.0f32.to_bits(), z: 2.0f32.to_bits() };
    assert_eq!(v(0.0), v(-0.0));
    assert_ne!(v(f32::NAN), v(f32::NAN));
    assert_eq!(BlackboardValue::String("a".to_string()), BlackboardValue::String("a".to_string()));
}

#[test]
fn blackboard_clone_has_the_same_entries() {
    let mut bb = Blackboard::new();
    bb.set("a", BlackboardValue::Int(1));
    bb.set("b", BlackboardValue::String("x".to_string()));
    let copy = bb.clone();
    bb.set("a", BlackboardValue::Int(2));
    assert_eq!(copy.get_int("a"), Some(1));
    assert_eq!(copy.get_string("b"), Some("x"));
    assert_eq!(copy.iter().len(), 2);
}
