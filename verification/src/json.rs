//! The library's own model of a decoded JSON document. The transport layer
//! parses wire text with whatever JSON library it likes and hands the
//! coordinator this plain-value tree; every decision the dispatch table
//! makes about a payload is then verified code over this type. Values that
//! the dispatch table never reads (floating-point numbers, for instance)
//! arrive as `Other`.

use vstd::prelude::*;

verus! {

/// A decoded JSON value as plain data.
#[derive(Debug, PartialEq)]
pub enum JsonValue {
    Null,
    Bool(bool),
    Int(i64),
    Str(String),
    Arr(Vec<JsonValue>),
    Obj(Vec<(String, JsonValue)>),
    /// A value of a shape the coordinator never inspects.
    Other,
}

/// First entry of `entries` whose key reads `key`, if any.
pub open spec fn obj_lookup(entries: Seq<(String, JsonValue)>, key: Seq<char>) -> Option<
    JsonValue,
>
    decreases entries.len(),
{
    if entries.len() == 0 {
        None
    } else if entries[0].0@ == key {
        Some(entries[0].1)
    } else {
        obj_lookup(entries.drop_first(), key)
    }
}

/// The field named `key` of an object value; `None` for a missing field or
/// a non-object.
pub open spec fn spec_field(v: JsonValue, key: Seq<char>) -> Option<JsonValue> {
    match v {
        JsonValue::Obj(entries) => obj_lookup(entries@, key),
        _ => None,
    }
}

impl JsonValue {
    /// Looks up the field named `key`, walking the object's entries in order.
    pub fn get<'a>(&'a self, key: &str) -> (r: Option<&'a JsonValue>)
        ensures
            match r {
                Some(v) => spec_field(*self, key@) == Some(*v),
                None => spec_field(*self, key@) is None,
            },
    {
        match self {
            JsonValue::Obj(entries) => {
                let n = entries.len();
                let mut i: usize = 0;
                proof {
                    assert(entries@.skip(0) =~= entries@);
                    assert(spec_field(*self, key@) == obj_lookup(entries@, key@));
                }
                while i < n
                    invariant
                        0 <= i <= n,
                        n == entries@.len(),
                        *self == JsonValue::Obj(*entries),
                        obj_lookup(entries@, key@) == obj_lookup(
                            entries@.skip(i as int),
                            key@,
                        ),
                    decreases n - i,
                {
                    let hit = crate::text::str_eq(entries[i].0.as_str(), key);
                    proof {
                        assert(entries@.skip(i as int)[0] == entries@[i as int]);
                        assert(entries@.skip(i as int).drop_first() =~= entries@.skip(
                            i + 1,
                        ));
                    }
                    if hit {
                        let pair = &entries[i];
                        proof {
                            assert(obj_lookup(entries@.skip(i as int), key@) == Some(
                                entries@[i as int].1,
                            ));
                            assert(*pair == entries@[i as int]);
                            assert(spec_field(*self, key@) == Some(pair.1));
                        }
                        return Some(&pair.1);
                    }
                    i += 1;
                }
                proof {
                    assert(entries@.skip(n as int) =~= Seq::<(String, JsonValue)>::empty());
                }
                None
            }
            _ => None,
        }
    }

    /// The `String` inside, for a string value.
    pub fn as_str<'a>(&'a self) -> (r: Option<&'a String>)
        ensures
            match r {
                Some(s) => *self matches JsonValue::Str(t) && t == *s,
                None => !(*self matches JsonValue::Str(_)),
            },
    {
        match self {
            JsonValue::Str(s) => Some(s),
            _ => None,
        }
    }

    /// The `bool` inside, for a boolean value.
    pub fn as_bool(&self) -> (r: Option<bool>)
        ensures
            match r {
                Some(b) => *self == JsonValue::Bool(b),
                None => !(*self matches JsonValue::Bool(_)),
            },
    {
        match self {
            JsonValue::Bool(b) => Some(*b),
            _ => None,
        }
    }

    /// The integer inside, for an integer value.
    pub fn as_i64(&self) -> (r: Option<i64>)
        ensures
            match r {
                Some(x) => *self == JsonValue::Int(x),
                None => !(*self matches JsonValue::Int(_)),
            },
    {
        match self {
            JsonValue::Int(x) => Some(*x),
            _ => None,
        }
    }
}

} // verus!
