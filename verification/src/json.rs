//! JSON values as the protocol carries them, with field lookup.

use vstd::prelude::*;

use crate::order::string_eq;

verus! {

/// A JSON value. Numbers keep their JSON text.
#[derive(Debug)]
pub enum JsonValue {
    Null,
    Bool(bool),
    Number(String),
    Str(String),
    Array(Vec<JsonValue>),
    Object(Vec<(String, JsonValue)>),
}

/// The value of the first entry named `key`.
pub open spec fn first_field(entries: Seq<(String, JsonValue)>, key: Seq<char>) -> Option<JsonValue>
    decreases entries.len(),
{
    if entries.len() == 0 {
        None
    } else if entries[0].0@ == key {
        Some(entries[0].1)
    } else {
        first_field(entries.drop_first(), key)
    }
}

/// The field `key` of an object; nothing for other values.
pub open spec fn field_of(v: JsonValue, key: Seq<char>) -> Option<JsonValue> {
    match v {
        JsonValue::Object(entries) => first_field(entries@, key),
        _ => None,
    }
}

/// The position of the first entry named `key`.
pub open spec fn first_field_pos(entries: Seq<(String, JsonValue)>, key: Seq<char>) -> Option<int>
    decreases entries.len(),
{
    if entries.len() == 0 {
        None
    } else if entries[0].0@ == key {
        Some(0)
    } else {
        match first_field_pos(entries.drop_first(), key) {
            Some(i) => Some(i + 1),
            None => None,
        }
    }
}

proof fn lemma_first_field_pos(entries: Seq<(String, JsonValue)>, key: Seq<char>)
    ensures
        match first_field_pos(entries, key) {
            Some(i) => 0 <= i < entries.len() && first_field(entries, key) == Some(entries[i].1),
            None => first_field(entries, key) is None,
        },
    decreases entries.len(),
{
    if entries.len() > 0 && entries[0].0@ != key {
        lemma_first_field_pos(entries.drop_first(), key);
    }
}

fn find_field(entries: &Vec<(String, JsonValue)>, key: &str) -> (r: Option<usize>)
    ensures
        match r {
            Some(i) => first_field_pos(entries@, key@) == Some(i as int),
            None => first_field_pos(entries@, key@) is None,
        },
{
    let mut i: usize = 0;
    assert(entries@.skip(0) =~= entries@);
    while i < entries.len()
        invariant
            i <= entries.len(),
            first_field_pos(entries@, key@) == (match first_field_pos(
                entries@.skip(i as int),
                key@,
            ) {
                Some(k) => Some(k + i),
                None => None::<int>,
            }),
        decreases entries.len() - i,
    {
        proof {
            assert(entries@.skip(i as int)[0] == entries@[i as int]);
            assert(entries@.skip(i as int).drop_first() =~= entries@.skip(i + 1));
        }
        if string_eq(entries[i].0.as_str(), key) {
            return Some(i);
        }
        i = i + 1;
    }
    None
}

impl JsonValue {
    /// The field `key` of an object (`Value::get`).
    pub fn get(&self, key: &str) -> (r: Option<&JsonValue>)
        ensures
            match r {
                Some(v) => field_of(*self, key@) == Some(*v),
                None => field_of(*self, key@) is None,
            },
    {
        match self {
            JsonValue::Object(entries) => {
                proof {
                    lemma_first_field_pos(entries@, key@);
                }
                match find_field(entries, key) {
                    Some(i) => Some(&entries[i].1),
                    None => None,
                }
            },
            _ => None,
        }
    }

    /// Moves the field `key` out of an object.
    pub fn take_field(self, key: &str) -> (r: Option<JsonValue>)
        ensures
            r == field_of(self, key@),
    {
        match self {
            JsonValue::Object(mut entries) => {
                proof {
                    lemma_first_field_pos(entries@, key@);
                }
                match find_field(&entries, key) {
                    Some(i) => {
                        let (_, v) = entries.remove(i);
                        Some(v)
                    },
                    None => None,
                }
            },
            _ => None,
        }
    }

    /// The text of a string value (`Value::as_str`).
    pub fn as_str(&self) -> (r: Option<&str>)
        ensures
            match r {
                Some(s) => *self matches JsonValue::Str(t) && t@ == s@,
                None => !(*self is Str),
            },
    {
        match self {
            JsonValue::Str(s) => Some(s.as_str()),
            _ => None,
        }
    }

    /// A boolean value (`Value::as_bool`).
    pub fn as_bool(&self) -> (r: Option<bool>)
        ensures
            match r {
                Some(b) => *self == JsonValue::Bool(b),
                None => !(*self is Bool),
            },
    {
        match self {
            JsonValue::Bool(b) => Some(*b),
            _ => None,
        }
    }

    /// An object without fields (`json!({})`).
    pub fn empty_object() -> (v: JsonValue)
        ensures
            v matches JsonValue::Object(e) && e@.len() == 0,
    {
        JsonValue::Object(Vec::new())
    }
}

} // verus!
