//! Condition system: [`Condition`] leaves combined into [`ConditionNode`] logic trees.

use vstd::prelude::*;
use crate::blackboard::{Blackboard, BlackboardValue};

verus! {

/// Comparison operator for condition evaluation.
#[derive(Debug, Clone, Copy, PartialEq, Eq, Structural)]
pub enum CompareOp {
    /// `actual == expected`.
    Equal,
    /// `actual != expected`.
    NotEqual,
    /// `actual < expected`.
    Less,
    /// `actual <= expected`.
    LessOrEqual,
    /// `actual > expected`.
    Greater,
    /// `actual >= expected`.
    GreaterOrEqual,
}

impl Default for CompareOp {
    fn default() -> (r: Self)
        ensures
            r == CompareOp::Equal,
    {
        CompareOp::Equal
    }
}

/// What `op` says of `actual` against `expected`.
pub open spec fn compare_holds(op: CompareOp, actual: int, expected: int) -> bool {
    match op {
        CompareOp::Equal => actual == expected,
        CompareOp::NotEqual => actual != expected,
        CompareOp::Less => actual < expected,
        CompareOp::LessOrEqual => actual <= expected,
        CompareOp::Greater => actual > expected,
        CompareOp::GreaterOrEqual => actual >= expected,
    }
}

/// Compares two integers with `op`.
pub fn compare_op(op: CompareOp, actual: i64, expected: i64) -> (r: bool)
    ensures
        r == compare_holds(op, actual as int, expected as int),
{
    match op {
        CompareOp::Equal => actual == expected,
        CompareOp::NotEqual => actual != expected,
        CompareOp::Less => actual < expected,
        CompareOp::LessOrEqual => actual <= expected,
        CompareOp::Greater => actual > expected,
        CompareOp::GreaterOrEqual => actual >= expected,
    }
}

/// The comparison operators order integers as usual: exactly one of `Less`, `Equal` and
/// `Greater` holds; `Greater` is `Less` with the operands swapped; `LessOrEqual`,
/// `GreaterOrEqual` and `NotEqual` are the negations of `Greater`, `Less` and `Equal`; and
/// `Less` and `Equal` agree with `<` and `==`.
pub proof fn law_compare_ops_order(a: int, b: int)
    ensures
        compare_holds(CompareOp::Less, a, b) <==> a < b,
        compare_holds(CompareOp::Equal, a, b) <==> a == b,
        compare_holds(CompareOp::Greater, a, b) <==> a > b,
        compare_holds(CompareOp::Greater, a, b) == compare_holds(CompareOp::Less, b, a),
        compare_holds(CompareOp::LessOrEqual, a, b) == !compare_holds(CompareOp::Greater, a, b),
        compare_holds(CompareOp::GreaterOrEqual, a, b) == !compare_holds(CompareOp::Less, a, b),
        compare_holds(CompareOp::NotEqual, a, b) == !compare_holds(CompareOp::Equal, a, b),
        compare_holds(CompareOp::Less, a, b) as int + compare_holds(CompareOp::Equal, a, b) as int
            + compare_holds(CompareOp::Greater, a, b) as int == 1,
{
}

/// `false` ranks below `true` when booleans are compared.
pub open spec fn bool_rank(b: bool) -> int {
    if b {
        1
    } else {
        0
    }
}

/// One comparison of two `f32` values, each given by its bit pattern, as a condition
/// leaf asks it: `actual op expected`, where `Equal` and `NotEqual` compare the absolute
/// difference against `tolerance`.
#[derive(Debug, Clone, Copy, PartialEq, Eq, Structural)]
pub struct FloatQuery {
    /// The comparison operator.
    pub op: CompareOp,
    /// Bit pattern of the value read from the blackboard.
    pub actual: u32,
    /// Bit pattern of the value the condition expects.
    pub expected: u32,
    /// Bit pattern of the tolerance for approximate equality.
    pub tolerance: u32,
}

/// `f` answers every float query, and answers each one the same way every time.
pub open spec fn float_comparator<F: Fn(FloatQuery) -> bool>(f: F) -> bool {
    &&& forall|q: FloatQuery| #[trigger] f.requires((q,))
    &&& forall|q: FloatQuery, b1: bool, b2: bool|
        #![trigger f.ensures((q,), b1), f.ensures((q,), b2)]
        f.ensures((q,), b1) && f.ensures((q,), b2) ==> b1 == b2
}

/// The answers that a deterministic float comparator gives.
pub open spec fn float_answers<F: Fn(FloatQuery) -> bool>(f: F) -> spec_fn(FloatQuery) -> bool {
    |q: FloatQuery| choose|b: bool| f.ensures((q,), b)
}

/// Asks `f` one float query.
pub fn ask_float<F: Fn(FloatQuery) -> bool>(f: &F, q: FloatQuery) -> (r: bool)
    requires
        float_comparator(*f),
    ensures
        r == float_answers(*f)(q),
        f.ensures((q,), r),
{
    let b = f(q);
    assert(f.ensures((q,), b));
    b
}

/// Bit pattern of `f32::EPSILON`, the default float equality tolerance.
pub const DEFAULT_TOLERANCE_BITS: u32 = 0x3400_0000u32;

/// A single condition that compares a blackboard value against an expected value.
///
/// For [`BlackboardValue::Float`], `Equal` and `NotEqual` compare the absolute difference
/// with `float_tolerance` (default `f32::EPSILON`); that float arithmetic is done by the
/// float comparator handed to [`Condition::evaluate`].
#[derive(Debug)]
pub struct Condition {
    /// Blackboard key to read the actual value from.
    pub key: String,
    /// Comparison operator.
    pub op: CompareOp,
    /// Expected value to compare against.
    pub value: BlackboardValue,
    /// Bit pattern of the tolerance used for approximate float equality.
    pub float_tolerance: u32,
}

/// Whether condition `c` holds on the blackboard contents `bb`, where `fo` answers
/// float comparisons.
pub open spec fn condition_holds(
    c: Condition,
    bb: Map<Seq<char>, BlackboardValue>,
    fo: spec_fn(FloatQuery) -> bool,
) -> bool {
    if !bb.contains_key(c.key@) {
        false
    } else {
        match (c.value, bb[c.key@]) {
            (BlackboardValue::Bool(e), BlackboardValue::Bool(a)) => compare_holds(
                c.op,
                bool_rank(a),
                bool_rank(e),
            ),
            (BlackboardValue::Int(e), BlackboardValue::Int(a)) => compare_holds(
                c.op,
                a as int,
                e as int,
            ),
            (BlackboardValue::Float(e), BlackboardValue::Float(a)) => fo(
                FloatQuery { op: c.op, actual: a, expected: e, tolerance: c.float_tolerance },
            ),
            (BlackboardValue::String(e), BlackboardValue::String(a)) => match c.op {
                CompareOp::Equal => a@ == e@,
                CompareOp::NotEqual => a@ != e@,
                _ => false,
            },
            _ => false,
        }
    }
}

impl Clone for Condition {
    fn clone(&self) -> (r: Self)
        ensures
            r == *self,
    {
        Condition {
            key: self.key.clone(),
            op: self.op,
            value: self.value.clone(),
            float_tolerance: self.float_tolerance,
        }
    }
}

impl Default for Condition {
    fn default() -> (r: Self)
        ensures
            r.key@ == Seq::<char>::empty(),
            r.op == CompareOp::Equal,
            r.value == BlackboardValue::Bool(true),
            r.float_tolerance == DEFAULT_TOLERANCE_BITS,
    {
        Condition {
            key: String::new(),
            op: CompareOp::Equal,
            value: BlackboardValue::Bool(true),
            float_tolerance: DEFAULT_TOLERANCE_BITS,
        }
    }
}

impl Condition {
    /// The default float equality tolerance (bit pattern of `f32::EPSILON`).
    pub fn float_tolerance() -> (r: u32)
        ensures
            r == DEFAULT_TOLERANCE_BITS,
    {
        DEFAULT_TOLERANCE_BITS
    }

    /// Creates a condition comparing the blackboard value at `key` against `value` using `op`.
    pub fn new(key: &str, op: CompareOp, value: BlackboardValue) -> (c: Self)
        ensures
            c.key@ == key@,
            c.op == op,
            c.value == value,
            c.float_tolerance == DEFAULT_TOLERANCE_BITS,
    {
        Condition { key: key.to_owned(), op, value, float_tolerance: DEFAULT_TOLERANCE_BITS }
    }

    /// Sets the tolerance (bit pattern of an `f32`) used for approximate float
    /// `Equal`/`NotEqual` comparisons.
    pub fn with_tolerance(self, tolerance: u32) -> (c: Self)
        ensures
            c == (Condition { float_tolerance: tolerance, ..self }),
    {
        let mut c = self;
        c.float_tolerance = tolerance;
        c
    }

    /// Shorthand for `key == true`.
    pub fn is_true(key: &str) -> (c: Self)
        ensures
            c.key@ == key@,
            c.op == CompareOp::Equal,
            c.value == BlackboardValue::Bool(true),
            c.float_tolerance == DEFAULT_TOLERANCE_BITS,
    {
        Self::new(key, CompareOp::Equal, BlackboardValue::Bool(true))
    }

    /// Shorthand for `key == false`.
    pub fn is_false(key: &str) -> (c: Self)
        ensures
            c.key@ == key@,
            c.op == CompareOp::Equal,
            c.value == BlackboardValue::Bool(false),
            c.float_tolerance == DEFAULT_TOLERANCE_BITS,
    {
        Self::new(key, CompareOp::Equal, BlackboardValue::Bool(false))
    }

    /// Shorthand for `key == value`.
    pub fn eq(key: &str, value: BlackboardValue) -> (c: Self)
        ensures
            c.key@ == key@,
            c.op == CompareOp::Equal,
            c.value == value,
            c.float_tolerance == DEFAULT_TOLERANCE_BITS,
    {
        Self::new(key, CompareOp::Equal, value)
    }

    /// Evaluates this condition against `blackboard`. Returns `false` if the key is missing or
    /// the stored value has a different type than the expected value. Float comparisons are
    /// answered by `float_compare`.
    pub fn evaluate<F: Fn(FloatQuery) -> bool>(&self, blackboard: &Blackboard, float_compare: &F) -> (r: bool)
        requires
            blackboard.wf(),
            float_comparator(*float_compare),
        ensures
            r == condition_holds(*self, blackboard@, float_answers(*float_compare)),
    {
        let actual = match blackboard.get(self.key.as_str()) {
            Some(a) => a,
            None => return false,
        };
        match (&self.value, actual) {
            (BlackboardValue::Bool(expected), BlackboardValue::Bool(actual)) => {
                let a: i64 = if *actual {
                    1
                } else {
                    0
                };
                let e: i64 = if *expected {
                    1
                } else {
                    0
                };
                compare_op(self.op, a, e)
            },
            (BlackboardValue::Int(expected), BlackboardValue::Int(actual)) => {
                compare_op(self.op, *actual, *expected)
            },
            (BlackboardValue::Float(expected), BlackboardValue::Float(actual)) => {
                ask_float(
                    float_compare,
                    FloatQuery {
                        op: self.op,
                        actual: *actual,
                        expected: *expected,
                        tolerance: self.float_tolerance,
                    },
                )
            },
            (BlackboardValue::String(expected), BlackboardValue::String(actual)) => match self.op {
                CompareOp::Equal => *actual == *expected,
                CompareOp::NotEqual => !(*actual == *expected),
                _ => false,
            },
            _ => false,
        }
    }
}

/// A logic tree that combines multiple [`Condition`]s.
#[derive(Debug)]
pub enum ConditionNode {
    /// Single condition check.
    Leaf(Condition),
    /// All children must be true (logical AND). An empty list is `true`.
    And(Vec<ConditionNode>),
    /// At least one child must be true (logical OR). An empty list is `false`.
    Or(Vec<ConditionNode>),
    /// Inverts the child result (logical NOT).
    Not(Box<ConditionNode>),
}

/// Whether logic tree `n` holds on the blackboard contents `bb`, where `fo` answers
/// float comparisons.
pub open spec fn node_holds(
    n: ConditionNode,
    bb: Map<Seq<char>, BlackboardValue>,
    fo: spec_fn(FloatQuery) -> bool,
) -> bool
    decreases n,
{
    match n {
        ConditionNode::Leaf(c) => condition_holds(c, bb, fo),
        ConditionNode::And(cs) => forall|i: int|
            0 <= i < cs@.len() ==> node_holds(#[trigger] cs@[i], bb, fo),
        ConditionNode::Or(cs) => exists|i: int|
            0 <= i < cs@.len() && node_holds(#[trigger] cs@[i], bb, fo),
        ConditionNode::Not(c) => !node_holds(*c, bb, fo),
    }
}

impl Default for ConditionNode {
    fn default() -> (r: Self)
        ensures
            r is Leaf,
            r->Leaf_0.key@ == Seq::<char>::empty(),
            r->Leaf_0.op == CompareOp::Equal,
            r->Leaf_0.value == BlackboardValue::Bool(true),
            r->Leaf_0.float_tolerance == DEFAULT_TOLERANCE_BITS,
    {
        ConditionNode::Leaf(Condition::default())
    }
}

/// `a` and `b` are the same logic tree: equal leaves, the same connectives, and children
/// that are the same trees in the same order.
pub open spec fn same_logic(a: ConditionNode, b: ConditionNode) -> bool
    decreases a,
{
    match a {
        ConditionNode::Leaf(x) => b is Leaf && b->Leaf_0 == x,
        ConditionNode::And(xs) => b is And && xs@.len() == b->And_0@.len() && forall|i: int|
            0 <= i < xs@.len() ==> same_logic(#[trigger] xs@[i], b->And_0@[i]),
        ConditionNode::Or(xs) => b is Or && xs@.len() == b->Or_0@.len() && forall|i: int|
            0 <= i < xs@.len() ==> same_logic(#[trigger] xs@[i], b->Or_0@[i]),
        ConditionNode::Not(x) => b is Not && same_logic(*x, *b->Not_0),
    }
}

impl Clone for ConditionNode {
    fn clone(&self) -> (r: Self)
        ensures
            same_logic(*self, r),
        decreases self,
    {
        match self {
            ConditionNode::Leaf(c) => ConditionNode::Leaf(c.clone()),
            ConditionNode::And(children) => ConditionNode::And(clone_nodes(children)),
            ConditionNode::Or(children) => ConditionNode::Or(clone_nodes(children)),
            ConditionNode::Not(child) => ConditionNode::Not(Box::new((**child).clone())),
        }
    }
}

fn clone_nodes(children: &Vec<ConditionNode>) -> (r: Vec<ConditionNode>)
    ensures
        r@.len() == children@.len(),
        forall|i: int| 0 <= i < children@.len() ==> same_logic(#[trigger] children@[i], r@[i]),
    decreases children,
{
    let mut r: Vec<ConditionNode> = Vec::new();
    let mut i: usize = 0;
    while i < children.len()
        invariant
            i <= children@.len(),
            r@.len() == i,
            forall|j: int| 0 <= j < i ==> same_logic(#[trigger] children@[j], r@[j]),
        decreases children@.len() - i,
    {
        assert(decreases_to!(children => children@[i as int]));
        r.push(children[i].clone());
        i = i + 1;
    }
    r
}

impl ConditionNode {
    /// Recursively evaluates this logic tree against `blackboard`.
    #[verifier::loop_isolation(false)]
    pub fn evaluate<F: Fn(FloatQuery) -> bool>(&self, blackboard: &Blackboard, float_compare: &F) -> (r: bool)
        requires
            blackboard.wf(),
            float_comparator(*float_compare),
        ensures
            r == node_holds(*self, blackboard@, float_answers(*float_compare)),
        decreases self,
    {
        let ghost fo = float_answers(*float_compare);
        match self {
            ConditionNode::Leaf(c) => {
                let r = c.evaluate(blackboard, float_compare);
                assert(r == condition_holds(*c, blackboard@, fo));
                assert(*self == ConditionNode::Leaf(*c));
                assert(node_holds(*self, blackboard@, fo) == condition_holds(*c, blackboard@, fo));
                r
            },
            ConditionNode::And(children) => {
                let mut i: usize = 0;
                while i < children.len()
                    invariant
                        blackboard.wf(),
                        float_comparator(*float_compare),
                        fo == float_answers(*float_compare),
                        i <= children@.len(),
                        forall|j: int| 0 <= j < i ==> node_holds(#[trigger] children@[j], blackboard@, fo),
                    decreases children@.len() - i,
                {
                    assert(decreases_to!(self => children@[i as int]));
                    if !children[i].evaluate(blackboard, float_compare) {
                        assert(!node_holds(children@[i as int], blackboard@, fo));
                        assert(!node_holds(*self, blackboard@, fo));
                        return false;
                    }
                    i = i + 1;
                }
                assert(node_holds(*self, blackboard@, fo));
                true
            },
            ConditionNode::Or(children) => {
                let mut i: usize = 0;
                while i < children.len()
                    invariant
                        blackboard.wf(),
                        float_comparator(*float_compare),
                        fo == float_answers(*float_compare),
                        i <= children@.len(),
                        forall|j: int| 0 <= j < i ==> !node_holds(#[trigger] children@[j], blackboard@, fo),
                    decreases children@.len() - i,
                {
                    assert(decreases_to!(self => children@[i as int]));
                    if children[i].evaluate(blackboard, float_compare) {
                        assert(node_holds(children@[i as int], blackboard@, fo));
                        assert(node_holds(*self, blackboard@, fo));
                        return true;
                    }
                    i = i + 1;
                }
                assert(!node_holds(*self, blackboard@, fo));
                false
            },
            ConditionNode::Not(child) => !child.evaluate(blackboard, float_compare),
        }
    }
}

} // verus!

verus! {

/// Two copies of the same logic tree (as `clone` makes them) hold on exactly the same
/// blackboards.
pub proof fn law_same_logic_same_verdict(
    a: ConditionNode,
    b: ConditionNode,
    bb: Map<Seq<char>, BlackboardValue>,
    fo: spec_fn(FloatQuery) -> bool,
)
    requires
        same_logic(a, b),
    ensures
        node_holds(a, bb, fo) == node_holds(b, bb, fo),
    decreases a,
{
    match a {
        ConditionNode::Leaf(_) => {},
        ConditionNode::And(xs) => {
            let ys = b->And_0@;
            assert forall|i: int| 0 <= i < xs@.len() implies node_holds(#[trigger] xs@[i], bb, fo)
                == node_holds(ys[i], bb, fo) by {
                assert(decreases_to!(a => xs@[i]));
                law_same_logic_same_verdict(xs@[i], ys[i], bb, fo);
            }
            if node_holds(a, bb, fo) {
                assert forall|i: int| 0 <= i < ys.len() implies node_holds(#[trigger] ys[i], bb, fo) by {
                    assert(node_holds(xs@[i], bb, fo));
                }
            } else {
                let i = choose|i: int| 0 <= i < xs@.len() && !node_holds(#[trigger] xs@[i], bb, fo);
                assert(!node_holds(ys[i], bb, fo));
            }
        },
        ConditionNode::Or(xs) => {
            let ys = b->Or_0@;
            assert forall|i: int| 0 <= i < xs@.len() implies node_holds(#[trigger] xs@[i], bb, fo)
                == node_holds(ys[i], bb, fo) by {
                assert(decreases_to!(a => xs@[i]));
                law_same_logic_same_verdict(xs@[i], ys[i], bb, fo);
            }
            if node_holds(a, bb, fo) {
                let i = choose|i: int| 0 <= i < xs@.len() && node_holds(#[trigger] xs@[i], bb, fo);
                assert(node_holds(ys[i], bb, fo));
            } else {
                assert forall|i: int| 0 <= i < ys.len() implies !node_holds(#[trigger] ys[i], bb, fo) by {
                    assert(!node_holds(xs@[i], bb, fo));
                }
            }
        },
        ConditionNode::Not(x) => {
            law_same_logic_same_verdict(*x, *b->Not_0, bb, fo);
        },
    }
}

/// A condition compares the value stored under its key (the actual value) against its own
/// value (the expected one), in that order: integers by the operator's order, booleans with
/// `false` below `true`, strings only for equality and inequality (every other operator
/// fails), and floats by the answer the float comparator gives to exactly that comparison,
/// with the condition's tolerance.
pub proof fn law_condition_compares_actual_to_expected(
    c: Condition,
    bb: Map<Seq<char>, BlackboardValue>,
    fo: spec_fn(FloatQuery) -> bool,
)
    requires
        bb.contains_key(c.key@),
    ensures
        c.value is Int && bb[c.key@] is Int ==> ({
            let (a, e) = (bb[c.key@]->Int_0, c.value->Int_0);
            condition_holds(c, bb, fo) == match c.op {
            CompareOp::Equal => a == e,
            CompareOp::NotEqual => a != e,
            CompareOp::Less => a < e,
            CompareOp::LessOrEqual => a <= e,
            CompareOp::Greater => a > e,
            CompareOp::GreaterOrEqual => a >= e,
            }
        }),
        c.value is Bool && bb[c.key@] is Bool ==> ({
            let (a, e) = (bb[c.key@]->Bool_0, c.value->Bool_0);
            condition_holds(c, bb, fo) == match c.op {
            CompareOp::Equal => a == e,
            CompareOp::NotEqual => a != e,
            CompareOp::Less => !a && e,
            CompareOp::LessOrEqual => !a || e,
            CompareOp::Greater => a && !e,
            CompareOp::GreaterOrEqual => a || !e,
            }
        }),
        c.value is String && bb[c.key@] is String ==> ({
            let (a, e) = (bb[c.key@]->String_0, c.value->String_0);
            condition_holds(c, bb, fo) == ((c.op == CompareOp::Equal && a@ == e@) || (c.op
                == CompareOp::NotEqual && a@ != e@))
        }),
        c.value is Float && bb[c.key@] is Float ==> ({
            let (a, e) = (bb[c.key@]->Float_0, c.value->Float_0);
            condition_holds(c, bb, fo) == fo(
                FloatQuery { op: c.op, actual: a, expected: e, tolerance: c.float_tolerance },
            )
        }),
{
}

/// A condition on a key that the blackboard lacks does not hold.
pub proof fn law_missing_key_fails(
    c: Condition,
    bb: Map<Seq<char>, BlackboardValue>,
    fo: spec_fn(FloatQuery) -> bool,
)
    requires
        !bb.contains_key(c.key@),
    ensures
        !condition_holds(c, bb, fo),
{
}

/// A condition does not hold when the stored value is of another kind than the expected
/// value, or when both are vectors.
pub proof fn law_kind_mismatch_fails(
    c: Condition,
    bb: Map<Seq<char>, BlackboardValue>,
    fo: spec_fn(FloatQuery) -> bool,
)
    requires
        bb.contains_key(c.key@),
        !((c.value is Bool && bb[c.key@] is Bool) || (c.value is Int && bb[c.key@] is Int) || (
        c.value is Float && bb[c.key@] is Float) || (c.value is String && bb[c.key@] is String)),
    ensures
        !condition_holds(c, bb, fo),
{
}

/// For booleans, integers and strings of matching kind, `NotEqual` holds exactly when
/// `Equal` does not.
pub proof fn law_not_equal_negates_equal(
    c: Condition,
    bb: Map<Seq<char>, BlackboardValue>,
    fo: spec_fn(FloatQuery) -> bool,
)
    requires
        c.op == CompareOp::Equal,
        bb.contains_key(c.key@),
        (c.value is Bool && bb[c.key@] is Bool) || (c.value is Int && bb[c.key@] is Int) || (
        c.value is String && bb[c.key@] is String),
    ensures
        condition_holds(Condition { op: CompareOp::NotEqual, ..c }, bb, fo) == !condition_holds(
            c,
            bb,
            fo,
        ),
{
}

/// `is_true(key)` holds exactly when the blackboard stores `Bool(true)` under `key`, and
/// `is_false(key)` exactly when it stores `Bool(false)`.
pub proof fn law_is_true_is_false(
    c: Condition,
    bb: Map<Seq<char>, BlackboardValue>,
    fo: spec_fn(FloatQuery) -> bool,
    b: bool,
)
    requires
        c.op == CompareOp::Equal,
        c.value == BlackboardValue::Bool(b),
    ensures
        condition_holds(c, bb, fo) == (bb.contains_key(c.key@) && bb[c.key@]
            == BlackboardValue::Bool(b)),
{
}

/// An `And` of no children holds; an `Or` of no children does not.
pub proof fn law_empty_and_or(
    cs: Vec<ConditionNode>,
    bb: Map<Seq<char>, BlackboardValue>,
    fo: spec_fn(FloatQuery) -> bool,
)
    requires
        cs@.len() == 0,
    ensures
        node_holds(ConditionNode::And(cs), bb, fo),
        !node_holds(ConditionNode::Or(cs), bb, fo),
{
}

/// `Not` of `Not` of a tree holds exactly when the tree holds.
pub proof fn law_double_negation(
    n: ConditionNode,
    bb: Map<Seq<char>, BlackboardValue>,
    fo: spec_fn(FloatQuery) -> bool,
)
    ensures
        node_holds(ConditionNode::Not(Box::new(ConditionNode::Not(Box::new(n)))), bb, fo)
            == node_holds(n, bb, fo),
{
    let inner = ConditionNode::Not(Box::new(n));
    assert(node_holds(inner, bb, fo) == !node_holds(n, bb, fo));
}

/// `Not` of an `And` holds exactly when some child does not hold, and `Not` of an `Or`
/// exactly when no child holds.
pub proof fn law_negated_and_or(
    cs: Vec<ConditionNode>,
    bb: Map<Seq<char>, BlackboardValue>,
    fo: spec_fn(FloatQuery) -> bool,
)
    ensures
        node_holds(ConditionNode::Not(Box::new(ConditionNode::And(cs))), bb, fo) == exists|i: int|
            0 <= i < cs@.len() && !node_holds(#[trigger] cs@[i], bb, fo),
        node_holds(ConditionNode::Not(Box::new(ConditionNode::Or(cs))), bb, fo) == forall|i: int|
            0 <= i < cs@.len() ==> !node_holds(#[trigger] cs@[i], bb, fo),
{
    let a = ConditionNode::And(cs);
    let o = ConditionNode::Or(cs);
    if exists|i: int| 0 <= i < cs@.len() && !node_holds(#[trigger] cs@[i], bb, fo) {
        let i = choose|i: int| 0 <= i < cs@.len() && !node_holds(#[trigger] cs@[i], bb, fo);
        assert(decreases_to!(a => a->And_0));
        assert(decreases_to!(cs => cs@[i])) by {
            broadcast use vstd::std_specs::vec::group_vec_axioms;
        }
        assert(!node_holds(a, bb, fo));
    } else {
        assert forall|i: int| 0 <= i < cs@.len() implies node_holds(#[trigger] cs@[i], bb, fo) by {}
        assert(node_holds(a, bb, fo));
    }
    if exists|i: int| 0 <= i < cs@.len() && node_holds(#[trigger] cs@[i], bb, fo) {
        let i = choose|i: int| 0 <= i < cs@.len() && node_holds(#[trigger] cs@[i], bb, fo);
        assert(decreases_to!(o => o->Or_0));
        assert(decreases_to!(cs => cs@[i])) by {
            broadcast use vstd::std_specs::vec::group_vec_axioms;
        }
        assert(node_holds(o, bb, fo));
    } else {
        assert(!node_holds(o, bb, fo));
    }
}

} // verus!
