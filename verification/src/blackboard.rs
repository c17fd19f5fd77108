//! Shared key/value data store ([`Blackboard`]) used by the state machine and behavior tree.

use vstd::prelude::*;
use vstd::std_specs::cmp::PartialEqSpecImpl;
use crate::string_map::StringMap;

verus! {

/// A value that can be stored in the [`Blackboard`].
///
/// Floating point components are held as the IEEE-754 bit pattern of an `f32`
/// (`f32::to_bits`); the library stores those bits as plain data, and `==` compares them
/// as IEEE-754 floats (`0.0 == -0.0`, and a NaN equals nothing).
#[derive(Debug)]
pub enum BlackboardValue {
    /// Boolean value.
    Bool(bool),
    /// 64-bit signed integer value.
    Int(i64),
    /// 32-bit floating point value, as its bit pattern.
    Float(u32),
    /// UTF-8 string value.
    String(String),
    /// 3D vector value, each component as the bit pattern of an `f32`.
    Vec3 {
        /// X component.
        x: u32,
        /// Y component.
        y: u32,
        /// Z component.
        z: u32,
    },
}

/// Whether the `f32` with bit pattern `a` is a NaN.
pub open spec fn f32_bits_nan(a: u32) -> bool {
    a & 0x7f80_0000u32 == 0x7f80_0000u32 && a & 0x007f_ffffu32 != 0
}

/// Whether the `f32` values with bit patterns `a` and `b` are equal as IEEE-754 floats:
/// neither is a NaN, and the patterns are equal or both are zeros.
pub open spec fn f32_bits_eq(a: u32, b: u32) -> bool {
    !f32_bits_nan(a) && !f32_bits_nan(b) && (a == b || (a & 0x7fff_ffffu32 == 0 && b
        & 0x7fff_ffffu32 == 0))
}

/// Compares two `f32` values, each given by its bit pattern, as IEEE-754 floats.
pub fn f32_bits_equal(a: u32, b: u32) -> (r: bool)
    ensures
        r == f32_bits_eq(a, b),
{
    let a_nan = a & 0x7f80_0000u32 == 0x7f80_0000u32 && a & 0x007f_ffffu32 != 0;
    let b_nan = b & 0x7f80_0000u32 == 0x7f80_0000u32 && b & 0x007f_ffffu32 != 0;
    !a_nan && !b_nan && (a == b || (a & 0x7fff_ffffu32 == 0 && b & 0x7fff_ffffu32 == 0))
}

/// Whether `a` and `b` are equal values: the same kind, with equal contents, where floats
/// compare as IEEE-754 floats and strings by their characters.
pub open spec fn values_equal(a: BlackboardValue, b: BlackboardValue) -> bool {
    match (a, b) {
        (BlackboardValue::Bool(x), BlackboardValue::Bool(y)) => x == y,
        (BlackboardValue::Int(x), BlackboardValue::Int(y)) => x == y,
        (BlackboardValue::Float(x), BlackboardValue::Float(y)) => f32_bits_eq(x, y),
        (BlackboardValue::String(x), BlackboardValue::String(y)) => x@ == y@,
        (
            BlackboardValue::Vec3 { x: x1, y: y1, z: z1 },
            BlackboardValue::Vec3 { x: x2, y: y2, z: z2 },
        ) => f32_bits_eq(x1, x2) && f32_bits_eq(y1, y2) && f32_bits_eq(z1, z2),
        _ => false,
    }
}

impl PartialEq for BlackboardValue {
    fn eq(&self, other: &Self) -> (r: bool) {
        match (self, other) {
            (BlackboardValue::Bool(x), BlackboardValue::Bool(y)) => *x == *y,
            (BlackboardValue::Int(x), BlackboardValue::Int(y)) => *x == *y,
            (BlackboardValue::Float(x), BlackboardValue::Float(y)) => f32_bits_equal(*x, *y),
            (BlackboardValue::String(x), BlackboardValue::String(y)) => *x == *y,
            (
                BlackboardValue::Vec3 { x: x1, y: y1, z: z1 },
                BlackboardValue::Vec3 { x: x2, y: y2, z: z2 },
            ) => f32_bits_equal(*x1, *x2) && f32_bits_equal(*y1, *y2) && f32_bits_equal(*z1, *z2),
            _ => false,
        }
    }
}

impl PartialEqSpecImpl for BlackboardValue {
    open spec fn obeys_eq_spec() -> bool {
        true
    }

    open spec fn eq_spec(&self, other: &BlackboardValue) -> bool {
        values_equal(*self, *other)
    }
}

impl Clone for BlackboardValue {
    fn clone(&self) -> (r: Self)
        ensures
            r == *self,
    {
        self.copy_value()
    }
}

impl Default for BlackboardValue {
    fn default() -> (r: Self)
        ensures
            r == BlackboardValue::Bool(false),
    {
        BlackboardValue::Bool(false)
    }
}

impl BlackboardValue {
    /// A copy of this value, equal to it.
    pub fn copy_value(&self) -> (r: Self)
        ensures
            r == *self,
    {
        match self {
            BlackboardValue::Bool(b) => BlackboardValue::Bool(*b),
            BlackboardValue::Int(i) => BlackboardValue::Int(*i),
            BlackboardValue::Float(f) => BlackboardValue::Float(*f),
            BlackboardValue::String(s) => BlackboardValue::String(s.clone()),
            BlackboardValue::Vec3 { x, y, z } => BlackboardValue::Vec3 { x: *x, y: *y, z: *z },
        }
    }

    /// Returns the inner value if this is a [`BlackboardValue::Bool`], otherwise `None`.
    pub fn as_bool(&self) -> (r: Option<bool>)
        ensures
            r == (match *self {
                BlackboardValue::Bool(v) => Some(v),
                _ => None,
            }),
    {
        match self {
            BlackboardValue::Bool(v) => Some(*v),
            _ => None,
        }
    }

    /// Returns the inner value if this is a [`BlackboardValue::Int`], otherwise `None`.
    pub fn as_int(&self) -> (r: Option<i64>)
        ensures
            r == (match *self {
                BlackboardValue::Int(v) => Some(v),
                _ => None,
            }),
    {
        match self {
            BlackboardValue::Int(v) => Some(*v),
            _ => None,
        }
    }

    /// Returns the bit pattern if this is a [`BlackboardValue::Float`], otherwise `None`.
    pub fn as_float(&self) -> (r: Option<u32>)
        ensures
            r == (match *self {
                BlackboardValue::Float(v) => Some(v),
                _ => None,
            }),
    {
        match self {
            BlackboardValue::Float(v) => Some(*v),
            _ => None,
        }
    }

    /// Returns the inner string if this is a [`BlackboardValue::String`], otherwise `None`.
    pub fn as_string(&self) -> (r: Option<&str>)
        ensures
            r.is_some() == (*self is String),
            r matches Some(s) ==> s@ == self->String_0@,
    {
        match self {
            BlackboardValue::String(v) => Some(v.as_str()),
            _ => None,
        }
    }
}

/// Shared data store for AI decision-making. Scripts write sensor data here,
/// and the state machine / behavior tree reads from it to make decisions.
#[derive(Debug)]
pub struct Blackboard {
    entries: StringMap<BlackboardValue>,
}

impl View for Blackboard {
    type V = Map<Seq<char>, BlackboardValue>;

    closed spec fn view(&self) -> Map<Seq<char>, BlackboardValue> {
        self.entries@
    }
}

impl Clone for Blackboard {
    fn clone(&self) -> (r: Self)
        ensures
            self.wf() ==> r.wf() && r@ == self@,
    {
        let r = Blackboard { entries: self.entries.clone() };
        proof {
            if self.wf() {
                assert forall|k: Seq<char>| #[trigger] r@.contains_key(k) implies r@[k] == self@[k] by {
                    assert(cloned::<BlackboardValue>(self@[k], r@[k]));
                }
                assert(r@ =~= self@);
            }
        }
        r
    }
}

impl Default for Blackboard {
    fn default() -> (bb: Self)
        ensures
            bb.wf(),
            bb@ == Map::<Seq<char>, BlackboardValue>::empty(),
    {
        Blackboard::new()
    }
}

impl Blackboard {
    /// The blackboard's internal consistency (each key stored once).
    pub closed spec fn wf(&self) -> bool {
        self.entries.wf()
    }

    /// Creates a new, empty blackboard.
    pub fn new() -> (bb: Self)
        ensures
            bb.wf(),
            bb@ == Map::<Seq<char>, BlackboardValue>::empty(),
    {
        Blackboard { entries: StringMap::new() }
    }

    /// Inserts or overwrites the value stored under `key`.
    pub fn set(&mut self, key: &str, value: BlackboardValue)
        requires
            old(self).wf(),
        ensures
            final(self).wf(),
            final(self)@ == old(self)@.insert(key@, value),
    {
        self.entries.insert(key.to_owned(), value);
    }

    /// Inserts or overwrites the value stored under an owned `key`.
    pub(crate) fn set_owned(&mut self, key: String, value: BlackboardValue)
        requires
            old(self).wf(),
        ensures
            final(self).wf(),
            final(self)@ == old(self)@.insert(key@, value),
    {
        self.entries.insert(key, value);
    }

    /// Returns a reference to the value stored under `key`, if any.
    pub fn get(&self, key: &str) -> (r: Option<&BlackboardValue>)
        requires
            self.wf(),
        ensures
            r.is_some() == self@.contains_key(key@),
            r matches Some(v) ==> *v == self@[key@],
    {
        self.entries.get(key)
    }

    /// Returns the boolean stored under `key`, if it exists and is a [`BlackboardValue::Bool`].
    pub fn get_bool(&self, key: &str) -> (r: Option<bool>)
        requires
            self.wf(),
        ensures
            r == (if self@.contains_key(key@) && self@[key@] is Bool {
                Some(self@[key@]->Bool_0)
            } else {
                None
            }),
    {
        match self.get(key) {
            Some(v) => v.as_bool(),
            None => None,
        }
    }

    /// Returns the integer stored under `key`, if it exists and is a [`BlackboardValue::Int`].
    pub fn get_int(&self, key: &str) -> (r: Option<i64>)
        requires
            self.wf(),
        ensures
            r == (if self@.contains_key(key@) && self@[key@] is Int {
                Some(self@[key@]->Int_0)
            } else {
                None
            }),
    {
        match self.get(key) {
            Some(v) => v.as_int(),
            None => None,
        }
    }

    /// Returns the float bit pattern stored under `key`, if it exists and is a
    /// [`BlackboardValue::Float`].
    pub fn get_float(&self, key: &str) -> (r: Option<u32>)
        requires
            self.wf(),
        ensures
            r == (if self@.contains_key(key@) && self@[key@] is Float {
                Some(self@[key@]->Float_0)
            } else {
                None
            }),
    {
        match self.get(key) {
            Some(v) => v.as_float(),
            None => None,
        }
    }

    /// Returns the string stored under `key`, if it exists and is a [`BlackboardValue::String`].
    pub fn get_string(&self, key: &str) -> (r: Option<&str>)
        requires
            self.wf(),
        ensures
            r.is_some() == (self@.contains_key(key@) && self@[key@] is String),
            r matches Some(s) ==> s@ == self@[key@]->String_0@,
    {
        match self.get(key) {
            Some(v) => v.as_string(),
            None => None,
        }
    }

    /// Removes the value stored under `key`, returning it if it existed.
    pub fn remove(&mut self, key: &str) -> (r: Option<BlackboardValue>)
        requires
            old(self).wf(),
        ensures
            final(self).wf(),
            final(self)@ == old(self)@.remove(key@),
            r == (if old(self)@.contains_key(key@) {
                Some(old(self)@[key@])
            } else {
                None
            }),
    {
        self.entries.remove(key)
    }

    /// Returns `true` if the blackboard contains an entry for `key`.
    pub fn contains(&self, key: &str) -> (r: bool)
        requires
            self.wf(),
        ensures
            r == self@.contains_key(key@),
    {
        self.entries.contains_key(key)
    }

    /// Removes all entries from the blackboard.
    pub fn clear(&mut self)
        ensures
            final(self).wf(),
            final(self)@ == Map::<Seq<char>, BlackboardValue>::empty(),
    {
        self.entries.clear();
    }

    /// Returns all `(key, value)` pairs, each key once. Order is unspecified.
    pub fn iter(&self) -> (r: &[(String, BlackboardValue)])
        requires
            self.wf(),
        ensures
            crate::string_map::distinct_keys(r@),
            crate::string_map::entries_map(r@) == self@,
    {
        self.entries.entries()
    }
}

} // verus!

verus! {

/// Reading a key right after setting it gives the value set; every other key reads as
/// before.
pub proof fn law_read_after_set(
    bb: Map<Seq<char>, BlackboardValue>,
    key: Seq<char>,
    value: BlackboardValue,
    other: Seq<char>,
)
    ensures
        bb.insert(key, value).contains_key(key),
        bb.insert(key, value)[key] == value,
        other != key ==> bb.insert(key, value).contains_key(other) == bb.contains_key(other),
        other != key && bb.contains_key(other) ==> bb.insert(key, value)[other] == bb[other],
{
}

/// After removing a key the blackboard no longer holds it; every other key reads as before.
pub proof fn law_read_after_remove(
    bb: Map<Seq<char>, BlackboardValue>,
    key: Seq<char>,
    other: Seq<char>,
)
    ensures
        !bb.remove(key).contains_key(key),
        other != key ==> bb.remove(key).contains_key(other) == bb.contains_key(other),
        other != key && bb.contains_key(other) ==> bb.remove(key)[other] == bb[other],
{
}

} // verus!
