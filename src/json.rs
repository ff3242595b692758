//! A JSON document as plain values: what the metadata parser reads.
use vstd::prelude::*;
use crate::text::str_eq;

verus! {

/// A JSON value.
pub enum JsonValue {
    Null,
    Bool(bool),
    /// A non-negative integer that fits in 64 bits.
    UInt(u64),
    /// Any other number (negative, fractional or larger); its value is not read.
    OtherNumber,
    Str(String),
    Array(Vec<JsonValue>),
    /// The members of an object, in document order.
    Object(Vec<(String, JsonValue)>),
}

/// The value of the first member named `key` from index `i` on.
pub open spec fn member_from(entries: Seq<(String, JsonValue)>, key: Seq<char>, i: int) -> Option<JsonValue>
    decreases entries.len() - i,
{
    if i < 0 || i >= entries.len() {
        None
    } else if entries[i].0@ == key {
        Some(entries[i].1)
    } else {
        member_from(entries, key, i + 1)
    }
}

/// The member `key` of an object; `None` for a missing member or a non-object.
pub open spec fn jfield(v: Option<JsonValue>, key: Seq<char>) -> Option<JsonValue> {
    match v {
        Some(JsonValue::Object(entries)) => member_from(entries@, key, 0),
        _ => None,
    }
}

/// The integer a value holds, if it is a non-negative integer.
pub open spec fn ju64(v: Option<JsonValue>) -> Option<u64> {
    match v {
        Some(JsonValue::UInt(n)) => Some(n),
        _ => None,
    }
}

/// The integer a value holds, if it is one that fits in 32 bits.
pub open spec fn ju32(v: Option<JsonValue>) -> Option<u32> {
    match v {
        Some(JsonValue::UInt(n)) => if n <= u32::MAX {
            Some(n as u32)
        } else {
            None
        },
        _ => None,
    }
}

/// The string a value holds.
pub open spec fn jstr(v: Option<JsonValue>) -> Option<String> {
    match v {
        Some(JsonValue::Str(s)) => Some(s),
        _ => None,
    }
}

/// The boolean a value holds.
pub open spec fn jbool(v: Option<JsonValue>) -> Option<bool> {
    match v {
        Some(JsonValue::Bool(b)) => Some(b),
        _ => None,
    }
}

/// The elements of an array.
pub open spec fn jarr(v: Option<JsonValue>) -> Option<Seq<JsonValue>> {
    match v {
        Some(JsonValue::Array(a)) => Some(a@),
        _ => None,
    }
}

impl JsonValue {
    /// The member `key`, if this is an object that has it.
    pub fn get(&self, key: &str) -> (r: Option<&JsonValue>)
        ensures
            r.is_some() == jfield(Some(*self), key@).is_some(),
            r.is_some() ==> *r.unwrap() == jfield(Some(*self), key@).unwrap(),
    {
        match self {
            JsonValue::Object(entries) => {
                let mut i: usize = 0;
                while i < entries.len()
                    invariant
                        *self == JsonValue::Object(*entries),
                        i <= entries.len(),
                        member_from(entries@, key@, 0) == member_from(entries@, key@, i as int),
                    decreases entries.len() - i,
                {
                    if str_eq(entries[i].0.as_str(), key) {
                        return Some(&entries[i].1);
                    }
                    i += 1;
                }
                None
            },
            _ => None,
        }
    }

    /// The integer held, if this is a non-negative integer.
    pub fn as_u64(&self) -> (r: Option<u64>)
        ensures
            r == ju64(Some(*self)),
    {
        match self {
            JsonValue::UInt(n) => Some(*n),
            _ => None,
        }
    }

    /// The integer held, if it fits in 32 bits.
    pub fn as_u32(&self) -> (r: Option<u32>)
        ensures
            r == ju32(Some(*self)),
    {
        match self {
            JsonValue::UInt(n) => if *n <= u32::MAX as u64 {
                Some(*n as u32)
            } else {
                None
            },
            _ => None,
        }
    }

    /// The string held.
    pub fn as_str(&self) -> (r: Option<&String>)
        ensures
            r.is_some() == jstr(Some(*self)).is_some(),
            r.is_some() ==> *r.unwrap() == jstr(Some(*self)).unwrap(),
    {
        match self {
            JsonValue::Str(s) => Some(s),
            _ => None,
        }
    }

    /// The boolean held.
    pub fn as_bool(&self) -> (r: Option<bool>)
        ensures
            r == jbool(Some(*self)),
    {
        match self {
            JsonValue::Bool(b) => Some(*b),
            _ => None,
        }
    }

    /// The elements, if this is an array.
    pub fn as_array(&self) -> (r: Option<&Vec<JsonValue>>)
        ensures
            r.is_some() == jarr(Some(*self)).is_some(),
            r.is_some() ==> r.unwrap()@ == jarr(Some(*self)).unwrap(),
    {
        match self {
            JsonValue::Array(a) => Some(a),
            _ => None,
        }
    }
}

/// The member `key` of an optional value.
pub fn field<'a>(v: Option<&'a JsonValue>, key: &str) -> (r: Option<&'a JsonValue>)
    ensures
        r.is_some() == jfield(opt_deref(v), key@).is_some(),
        r.is_some() ==> *r.unwrap() == jfield(opt_deref(v), key@).unwrap(),
{
    match v {
        Some(x) => x.get(key),
        None => None,
    }
}

/// The value behind an optional reference.
pub open spec fn opt_deref(v: Option<&JsonValue>) -> Option<JsonValue> {
    match v {
        Some(x) => Some(*x),
        None => None,
    }
}

} // verus!
