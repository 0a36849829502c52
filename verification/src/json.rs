//! A plain JSON document model and the lookups that the listing and comment
//! extraction performs on it.
//!
//! A number holds the readings that the extraction makes of it: as an
//! unsigned integer, as a signed integer, and as a double narrowed to a
//! single-precision float (by its IEEE-754 bit pattern) or converted to a
//! signed integer.
use vstd::prelude::*;

use crate::text::same_text;

verus! {

/// A JSON number, by the readings that can be made of it.
#[derive(Debug, Clone, Copy)]
pub struct JsonNumber {
    /// The number as an unsigned 64-bit integer, where it is one.
    pub as_u64: Option<u64>,
    /// The number as a signed 64-bit integer, where it is one.
    pub as_i64: Option<i64>,
    /// The bit pattern of the number read as a double and narrowed to a
    /// single-precision float.
    pub f32_bits: u32,
    /// The number read as a double and converted to a signed 64-bit integer
    /// (towards zero, saturating at the ends of the range).
    pub f64_as_i64: i64,
}

/// A JSON value.  An object keeps its members in order, each key once.
#[derive(Debug)]
pub enum JsonValue {
    Null,
    Bool(bool),
    Number(JsonNumber),
    Str(String),
    Array(Vec<JsonValue>),
    Object(Vec<(String, JsonValue)>),
}

/// The position of the first member named `key`, or -1.
pub open spec fn key_index(entries: Seq<(String, JsonValue)>, key: Seq<char>) -> int
    decreases entries.len(),
{
    if entries.len() == 0 {
        -1
    } else if entries[0].0@ == key {
        0
    } else {
        let k = key_index(entries.drop_first(), key);
        if k < 0 {
            -1
        } else {
            k + 1
        }
    }
}

pub proof fn lemma_key_index(entries: Seq<(String, JsonValue)>, key: Seq<char>)
    ensures
        -1 <= key_index(entries, key) < entries.len(),
        key_index(entries, key) >= 0 ==> entries[key_index(entries, key)].0@ == key,
        forall|j: int|
            0 <= j < entries.len() && (key_index(entries, key) < 0 || j < key_index(entries, key))
                ==> entries[j].0@ != key,
    decreases entries.len(),
{
    if entries.len() > 0 && entries[0].0@ != key {
        lemma_key_index(entries.drop_first(), key);
        assert forall|j: int|
            0 <= j < entries.len() && (key_index(entries, key) < 0 || j < key_index(entries, key))
                implies entries[j].0@ != key by {
            if j > 0 {
                assert(entries[j] == entries.drop_first()[j - 1]);
            }
        }
    }
}

/// Dereferences an optional reference.
pub open spec fn deref_opt(o: Option<&JsonValue>) -> Option<JsonValue> {
    match o {
        Some(v) => Some(*v),
        None => None,
    }
}

impl JsonValue {
    /// The member `key` of an object; nothing for any other value.
    pub open spec fn field(self, key: Seq<char>) -> Option<JsonValue> {
        match self {
            JsonValue::Object(e) => {
                let k = key_index(e@, key);
                if k >= 0 {
                    Some(e@[k].1)
                } else {
                    None
                }
            },
            _ => None,
        }
    }

    /// The member `key` of an object, or `null` where there is none.
    pub open spec fn at(self, key: Seq<char>) -> JsonValue {
        match self.field(key) {
            Some(v) => v,
            None => JsonValue::Null,
        }
    }

    /// Looks up the member `key` of an object, as `serde_json::Value::get`
    /// does with a string key.
    pub fn get(&self, key: &str) -> (r: Option<&JsonValue>)
        ensures
            deref_opt(r) == self.field(key@),
    {
        match self {
            JsonValue::Object(e) => {
                proof {
                    lemma_key_index(e@, key@);
                }
                let mut i: usize = 0;
                while i < e.len()
                    invariant
                        *self == JsonValue::Object(*e),
                        i <= e@.len(),
                        -1 <= key_index(e@, key@) < e@.len(),
                        key_index(e@, key@) < 0 || i <= key_index(e@, key@),
                        key_index(e@, key@) >= 0 ==> e@[key_index(e@, key@)].0@ == key@,
                        forall|j: int|
                            0 <= j < e@.len() && (key_index(e@, key@) < 0 || j < key_index(
                                e@,
                                key@,
                            )) ==> e@[j].0@ != key@,
                    decreases e.len() - i,
                {
                    if same_text(e[i].0.as_str(), key) {
                        assert(e@[i as int].0@ == key@);
                        assert(key_index(e@, key@) == i);
                        return Some(&e[i].1);
                    }
                    i += 1;
                }
                None
            },
            _ => None,
        }
    }
}

/// A value found by `field` is smaller than the object that holds it.
pub proof fn lemma_field_smaller(v: JsonValue, key: Seq<char>)
    requires
        v.field(key) is Some,
    ensures
        decreases_to!(v => v.field(key)->0),
{
    if let JsonValue::Object(e) = v {
        lemma_key_index(e@, key);
        let k = key_index(e@, key);
        assert(decreases_to!(e => e@));
        assert(decreases_to!(e@ => e@[k]));
        assert(decreases_to!(e@[k] => e@[k].1));
    }
}

} // verus!
