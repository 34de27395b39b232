//! A JSON document as plain values, with the accessors the library reads
//! documents through (`get`, `as_str`, `as_u64`, `as_array`).
use vstd::prelude::*;

use crate::text::str_eq;

verus! {

/// A JSON value.
#[derive(Debug)]
pub enum JsonValue {
    Null,
    Bool(bool),
    /// A number: its value when it is a non-negative integer that fits in
    /// 64 bits, otherwise `None`.
    Number(Option<u64>),
    Str(String),
    Array(Vec<JsonValue>),
    /// Members in document order; keys are unique.
    Object(Vec<(String, JsonValue)>),
}

/// The value of the first member named `key`.
pub open spec fn member(members: Seq<(String, JsonValue)>, key: Seq<char>) -> Option<JsonValue>
    decreases members.len(),
{
    if members.len() == 0 {
        None
    } else if members[0].0@ == key {
        Some(members[0].1)
    } else {
        member(members.skip(1), key)
    }
}

/// `Value::get(key)`: the member `key` of an object, nothing otherwise.
pub open spec fn json_get(v: JsonValue, key: Seq<char>) -> Option<JsonValue> {
    match v {
        JsonValue::Object(m) => member(m@, key),
        _ => None,
    }
}

/// `Value::as_str`.
pub open spec fn json_str(v: Option<JsonValue>) -> Option<Seq<char>> {
    match v {
        Some(JsonValue::Str(s)) => Some(s@),
        _ => None,
    }
}

/// `Value::as_u64`.
pub open spec fn json_u64(v: Option<JsonValue>) -> Option<u64> {
    match v {
        Some(JsonValue::Number(n)) => n,
        _ => None,
    }
}

proof fn lemma_member_skip(members: Seq<(String, JsonValue)>, key: Seq<char>, p: int)
    requires
        0 <= p <= members.len(),
        forall|j: int| 0 <= j < p ==> (#[trigger] members[j]).0@ != key,
    ensures
        member(members, key) == member(members.skip(p), key),
    decreases p,
{
    if p > 0 {
        let t = members.skip(1);
        assert(members[0].0@ != key);
        assert forall|j: int| 0 <= j < p - 1 implies (#[trigger] t[j]).0@ != key by {
            assert(t[j] == members[j + 1]);
        }
        lemma_member_skip(t, key, p - 1);
        assert(t.skip(p - 1) =~= members.skip(p));
    } else {
        assert(members.skip(0) =~= members);
    }
}

impl JsonValue {
    /// The member `key` of an object (see [`json_get`]).
    pub fn get(&self, key: &str) -> (r: Option<&JsonValue>)
        ensures
            match r {
                Some(x) => json_get(*self, key@) == Some(*x),
                None => json_get(*self, key@) is None,
            },
    {
        match self {
            JsonValue::Object(members) => {
                let mut i: usize = 0;
                while i < members.len() && !str_eq(members[i].0.as_str(), key)
                    invariant
                        i <= members.len(),
                        forall|j: int| 0 <= j < i ==> (#[trigger] members@[j]).0@ != key@,
                    decreases members.len() - i,
                {
                    i = i + 1;
                }
                proof {
                    lemma_member_skip(members@, key@, i as int);
                    if i < members.len() {
                        assert(members@.skip(i as int)[0] == members@[i as int]);
                    }
                }
                if i < members.len() {
                    Some(&members[i].1)
                } else {
                    None
                }
            },
            _ => None,
        }
    }

    /// Whether the value is an object.
    pub fn is_object(&self) -> (r: bool)
        ensures
            r == (*self is Object),
    {
        matches!(self, JsonValue::Object(_))
    }
}

} // verus!
