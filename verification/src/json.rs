//! A JSON value as the bibliography logic reads it.
//!
//! Numbers keep only what the logic asks of them: whether they are
//! non-negative integers that fit in a `u64`, and which.

use vstd::prelude::*;

use crate::text::str_eq;

verus! {

/// A JSON value.
#[derive(Debug)]
pub enum JsonValue {
    Null,
    Bool(bool),
    /// A number that is a non-negative integer fitting in a `u64`.
    UInt(u64),
    /// Any other number (negative or fractional).
    OtherNumber,
    Str(String),
    Array(Vec<JsonValue>),
    /// The members of an object, in order; a key is looked up at its first occurrence.
    Object(Vec<(String, JsonValue)>),
}

/// The JSON value that `serde_json` reads from a text, or `None` where it refuses the
/// text.
pub uninterp spec fn parsed_json(text: Seq<char>) -> Option<JsonValue>;

/// `serde_json`'s JSON value.
#[verifier::external_type_specification]
#[verifier::external_body]
pub struct ExSerdeJsonValue(serde_json::Value);

/// Converts a `serde_json` value into a `JsonValue`, variant by variant: numbers that
/// `as_u64` reads become `UInt`, other numbers `OtherNumber`; object members keep the
/// order in which `serde_json`'s map yields them.
///
/// Trusted, with nothing stated: its result is stated by `parse_json`, whose body
/// uses it.
#[verifier::external_body]
fn from_serde(v: &serde_json::Value) -> JsonValue {
    match v {
        serde_json::Value::Null => JsonValue::Null,
        serde_json::Value::Bool(b) => JsonValue::Bool(*b),
        serde_json::Value::Number(n) => match n.as_u64() {
            Some(u) => JsonValue::UInt(u),
            None => JsonValue::OtherNumber,
        },
        serde_json::Value::String(t) => JsonValue::Str(t.clone()),
        serde_json::Value::Array(a) => JsonValue::Array(a.iter().map(from_serde).collect()),
        serde_json::Value::Object(m) => JsonValue::Object(m.iter().map(|(k, x)| (k.clone(), from_serde(x))).collect()),
    }
}

/// Parses a JSON text.
///
/// Trusted: wraps `serde_json::from_str` into a `serde_json::Value`, converted by
/// `from_serde`. The JSON grammar is not spelled out; the contract names the result.
/// On a refused text the error is `serde_json`'s message, of which nothing is stated.
#[verifier::external_body]
pub fn parse_json(text: &str) -> (r: Result<JsonValue, String>)
    ensures
        match r {
            Ok(v) => parsed_json(text@) == Some(v),
            Err(_) => parsed_json(text@) is None,
        },
{
    serde_json::from_str::<serde_json::Value>(text).map(|v| from_serde(&v)).map_err(|e| e.to_string())
}

/// The value of the first member named `key`, if any.
pub open spec fn lookup(members: Seq<(String, JsonValue)>, key: Seq<char>) -> Option<JsonValue>
    decreases members.len(),
{
    if members.len() == 0 {
        None
    } else if members[0].0@ == key {
        Some(members[0].1)
    } else {
        lookup(members.drop_first(), key)
    }
}

impl JsonValue {
    /// The member `key` of an object (`Value::get`); `None` for a missing key or a non-object.
    pub open spec fn spec_get(self, key: Seq<char>) -> Option<JsonValue> {
        match self {
            JsonValue::Object(m) => lookup(m@, key),
            _ => None,
        }
    }

    /// The member `key`, or `Null` where there is none (`value[key]`).
    pub open spec fn spec_index(self, key: Seq<char>) -> JsonValue {
        match self.spec_get(key) {
            Some(v) => v,
            None => JsonValue::Null,
        }
    }

    /// The characters of a string value (`Value::as_str`).
    pub open spec fn spec_as_str(self) -> Option<Seq<char>> {
        match self {
            JsonValue::Str(s) => Some(s@),
            _ => None,
        }
    }

    /// The number of a non-negative integer value (`Value::as_u64`).
    pub open spec fn spec_as_u64(self) -> Option<u64> {
        match self {
            JsonValue::UInt(n) => Some(n),
            _ => None,
        }
    }

    /// The elements of an array value (`Value::as_array`).
    pub open spec fn spec_as_array(self) -> Option<Seq<JsonValue>> {
        match self {
            JsonValue::Array(a) => Some(a@),
            _ => None,
        }
    }

    /// The members of an object value (`Value::as_object`).
    pub open spec fn spec_as_object(self) -> Option<Seq<(String, JsonValue)>> {
        match self {
            JsonValue::Object(m) => Some(m@),
            _ => None,
        }
    }

    /// Looks up the member `key` of an object.
    pub fn get(&self, key: &str) -> (r: Option<&JsonValue>)
        ensures
            match r {
                Some(v) => self.spec_get(key@) == Some(*v),
                None => self.spec_get(key@) is None,
            },
    {
        match self {
            JsonValue::Object(m) => get_member(m.as_slice(), key),
            _ => None,
        }
    }

    /// The string of a string value.
    pub fn as_str(&self) -> (r: Option<&str>)
        ensures
            match r {
                Some(s) => self.spec_as_str() == Some(s@),
                None => self.spec_as_str() is None,
            },
    {
        match self {
            JsonValue::Str(s) => Some(s.as_str()),
            _ => None,
        }
    }

    /// The number of a non-negative integer value.
    pub fn as_u64(&self) -> (r: Option<u64>)
        ensures
            r == self.spec_as_u64(),
    {
        match self {
            JsonValue::UInt(n) => Some(*n),
            _ => None,
        }
    }

    /// The elements of an array value.
    pub fn as_array(&self) -> (r: Option<&Vec<JsonValue>>)
        ensures
            match r {
                Some(a) => self.spec_as_array() == Some(a@),
                None => self.spec_as_array() is None,
            },
    {
        match self {
            JsonValue::Array(a) => Some(a),
            _ => None,
        }
    }

    /// The members of an object value.
    pub fn as_object(&self) -> (r: Option<&Vec<(String, JsonValue)>>)
        ensures
            match r {
                Some(m) => self.spec_as_object() == Some(m@),
                None => self.spec_as_object() is None,
            },
    {
        match self {
            JsonValue::Object(m) => Some(m),
            _ => None,
        }
    }

    /// The string under member `key`, if the member exists and is a string
    /// (`value[key].as_str()`).
    pub fn str_at(&self, key: &str) -> (r: Option<&str>)
        ensures
            match r {
                Some(s) => self.spec_index(key@).spec_as_str() == Some(s@),
                None => self.spec_index(key@).spec_as_str() is None,
            },
    {
        match self.get(key) {
            Some(v) => v.as_str(),
            None => None,
        }
    }

    /// The array under member `key`, if the member exists and is an array
    /// (`value[key].as_array()`).
    pub fn array_at(&self, key: &str) -> (r: Option<&Vec<JsonValue>>)
        ensures
            match r {
                Some(a) => self.spec_index(key@).spec_as_array() == Some(a@),
                None => self.spec_index(key@).spec_as_array() is None,
            },
    {
        match self.get(key) {
            Some(v) => v.as_array(),
            None => None,
        }
    }
}

/// Takes the member `key` out of a value, consuming the value.
pub fn take_member(value: JsonValue, key: &str) -> (r: Option<JsonValue>)
    ensures
        r == value.spec_get(key@),
{
    let ghost spec_result = value.spec_get(key@);
    match value {
        JsonValue::Object(mut m) => {
            let ghost m0 = m@;
            assert(spec_result == lookup(m0, key@));
            let mut i: usize = 0;
            assert(m0.skip(0) =~= m0);
            while i < m.len()
                invariant
                    spec_result == lookup(m0, key@),
                    spec_result == value.spec_get(key@),
                    m@ == m0,
                    i <= m0.len(),
                    lookup(m0, key@) == lookup(m0.skip(i as int), key@),
                decreases m0.len() - i,
            {
                assert(m0.skip(i as int).drop_first() =~= m0.skip(i + 1));
                if str_eq(m[i].0.as_str(), key) {
                    assert(m0.skip(i as int)[0] == m0[i as int]);
                    let (_, v) = m.remove(i);
                    assert(v == m0[i as int].1);
                    assert(lookup(m0, key@) == Some(v));
                    return Some(v);
                }
                i = i + 1;
            }
            None
        },
        _ => None,
    }
}

/// Looks up the first member named `key`.
pub fn get_member<'a>(members: &'a [(String, JsonValue)], key: &str) -> (r: Option<&'a JsonValue>)
    ensures
        match r {
            Some(v) => lookup(members@, key@) == Some(*v),
            None => lookup(members@, key@) is None,
        },
{
    let mut i: usize = 0;
    assert(members@.skip(0) =~= members@);
    while i < members.len()
        invariant
            i <= members@.len(),
            lookup(members@, key@) == lookup(members@.skip(i as int), key@),
        decreases members@.len() - i,
    {
        assert(members@.skip(i as int).drop_first() =~= members@.skip(i + 1));
        if str_eq(members[i].0.as_str(), key) {
            return Some(&members[i].1);
        }
        i = i + 1;
    }
    None
}

} // verus!
