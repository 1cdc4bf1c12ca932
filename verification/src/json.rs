//! JSON values as the cmux socket delivers them, with the accessors the protocol reads.

use vstd::prelude::*;

use crate::text::same_text;

verus! {

/// A JSON value. Numbers that are non-negative integers fitting 64 bits are held as
/// such; any other number is kept as its JSON text. An object holds its entries in
/// order; where a key occurs more than once, the last entry counts, as it does when
/// `serde_json` collects entries into its map (so objects read from `serde_json`, whose
/// keys are distinct, and objects handed back to it are read alike).
#[derive(Debug)]
pub enum JsonValue {
    Null,
    Bool(bool),
    UInt(u64),
    OtherNumber(String),
    Text(String),
    Array(Vec<JsonValue>),
    Object(Vec<(String, JsonValue)>),
}

/// The value of the last entry named `key`.
pub open spec fn lookup(entries: Seq<(String, JsonValue)>, key: Seq<char>) -> Option<JsonValue>
    decreases entries.len(),
{
    if entries.len() == 0 {
        None
    } else if entries.last().0@ == key {
        Some(entries.last().1)
    } else {
        lookup(entries.drop_last(), key)
    }
}

/// The member `key` of `v`, when `v` is an object that has one.
pub open spec fn field(v: JsonValue, key: Seq<char>) -> Option<JsonValue> {
    match v {
        JsonValue::Object(entries) => lookup(entries@, key),
        _ => None,
    }
}

/// The member `key` of `v` as an unsigned integer.
pub open spec fn field_u64(v: JsonValue, key: Seq<char>) -> Option<u64> {
    match field(v, key) {
        Some(JsonValue::UInt(n)) => Some(n),
        _ => None,
    }
}

/// The member `key` of `v` as a string.
pub open spec fn field_text(v: JsonValue, key: Seq<char>) -> Option<Seq<char>> {
    match field(v, key) {
        Some(JsonValue::Text(s)) => Some(s@),
        _ => None,
    }
}

/// The member `key` of `v` as a boolean.
pub open spec fn field_bool(v: JsonValue, key: Seq<char>) -> Option<bool> {
    match field(v, key) {
        Some(JsonValue::Bool(b)) => Some(b),
        _ => None,
    }
}

/// The member `key` of `v` as an array.
pub open spec fn field_array(v: JsonValue, key: Seq<char>) -> Option<Seq<JsonValue>> {
    match field(v, key) {
        Some(JsonValue::Array(items)) => Some(items@),
        _ => None,
    }
}

/// The member `key` of `v`, when it is an object.
pub open spec fn field_object(v: JsonValue, key: Seq<char>) -> Option<JsonValue> {
    match field(v, key) {
        Some(JsonValue::Object(entries)) => Some(JsonValue::Object(entries)),
        _ => None,
    }
}

/// The index of the last entry named `key`, if any.
fn position_of(entries: &Vec<(String, JsonValue)>, key: &str) -> (r: Option<usize>)
    ensures
        match r {
            Some(i) => i < entries@.len() && lookup(entries@, key@) == Some(entries@[i as int].1),
            None => lookup(entries@, key@) is None,
        },
{
    let mut i: usize = entries.len();
    assert(entries@.take(i as int) =~= entries@);
    while i > 0
        invariant
            i <= entries@.len(),
            lookup(entries@, key@) == lookup(entries@.take(i as int), key@),
        decreases i,
    {
        assert(entries@.take(i as int).last() == entries@[i - 1]);
        if same_text(entries[i - 1].0.as_str(), key) {
            return Some(i - 1);
        }
        assert(entries@.take(i as int).drop_last() =~= entries@.take(i - 1));
        i -= 1;
    }
    None
}

impl JsonValue {
    /// The member `key`, when this is an object that has one.
    pub fn get(&self, key: &str) -> (r: Option<&JsonValue>)
        ensures
            match r {
                Some(v) => field(*self, key@) == Some(*v),
                None => field(*self, key@) is None,
            },
    {
        match self {
            JsonValue::Object(entries) => match position_of(entries, key) {
                Some(i) => Some(&entries[i].1),
                None => None,
            },
            _ => None,
        }
    }

    /// Takes the member `key` out of this value, when it is an object that has one.
    pub fn take_field(self, key: &str) -> (r: Option<JsonValue>)
        ensures
            r == field(self, key@),
    {
        match self {
            JsonValue::Object(mut entries) => match position_of(&entries, key) {
                Some(i) => {
                    let (_, value) = entries.remove(i);
                    Some(value)
                },
                None => None,
            },
            _ => None,
        }
    }

    /// This value as an unsigned integer.
    pub fn as_u64(&self) -> (r: Option<u64>)
        ensures
            r == match *self {
                JsonValue::UInt(n) => Some(n),
                _ => None::<u64>,
            },
    {
        match self {
            JsonValue::UInt(n) => Some(*n),
            _ => None,
        }
    }

    /// This value as a string.
    pub fn as_text(&self) -> (r: Option<&String>)
        ensures
            match *self {
                JsonValue::Text(s) => r == Some(&s),
                _ => r is None,
            },
    {
        match self {
            JsonValue::Text(s) => Some(s),
            _ => None,
        }
    }

    /// This value as a boolean.
    pub fn as_bool(&self) -> (r: Option<bool>)
        ensures
            r == match *self {
                JsonValue::Bool(b) => Some(b),
                _ => None::<bool>,
            },
    {
        match self {
            JsonValue::Bool(b) => Some(*b),
            _ => None,
        }
    }

    /// This value as an array.
    pub fn as_array(&self) -> (r: Option<&Vec<JsonValue>>)
        ensures
            match *self {
                JsonValue::Array(items) => r == Some(&items),
                _ => r is None,
            },
    {
        match self {
            JsonValue::Array(items) => Some(items),
            _ => None,
        }
    }

    /// The member `key` as an unsigned integer.
    pub fn get_u64(&self, key: &str) -> (r: Option<u64>)
        ensures
            r == field_u64(*self, key@),
    {
        match self.get(key) {
            Some(v) => v.as_u64(),
            None => None,
        }
    }

    /// The member `key` as a string.
    pub fn get_text(&self, key: &str) -> (r: Option<&String>)
        ensures
            match r {
                Some(s) => field_text(*self, key@) == Some(s@),
                None => field_text(*self, key@) is None,
            },
    {
        match self.get(key) {
            Some(v) => v.as_text(),
            None => None,
        }
    }

    /// The member `key` as a boolean.
    pub fn get_bool(&self, key: &str) -> (r: Option<bool>)
        ensures
            r == field_bool(*self, key@),
    {
        match self.get(key) {
            Some(v) => v.as_bool(),
            None => None,
        }
    }

    /// The member `key` as an array.
    pub fn get_array(&self, key: &str) -> (r: Option<&Vec<JsonValue>>)
        ensures
            match r {
                Some(items) => field_array(*self, key@) == Some(items@),
                None => field_array(*self, key@) is None,
            },
    {
        match self.get(key) {
            Some(v) => v.as_array(),
            None => None,
        }
    }

    /// The member `key`, when it is an object.
    pub fn get_object(&self, key: &str) -> (r: Option<&JsonValue>)
        ensures
            match r {
                Some(o) => field_object(*self, key@) == Some(*o),
                None => field_object(*self, key@) is None,
            },
    {
        match self.get(key) {
            Some(v) => if v.is_object() {
                Some(v)
            } else {
                None
            },
            None => None,
        }
    }

    /// Whether this value is an object.
    pub fn is_object(&self) -> (r: bool)
        ensures
            r == (*self is Object),
    {
        match self {
            JsonValue::Object(_) => true,
            _ => false,
        }
    }
}

} // verus!
