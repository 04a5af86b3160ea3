//! A JSON value held as plain data.
//!
//! The event stream arrives as JSON; the logic that walks it is specified
//! and verified over this type. Callers outside the library decode the wire
//! bytes and hand the resulting tree in as a `Json` value.

use vstd::prelude::*;
use crate::text::str_eq;

verus! {

#[derive(Debug)]
pub enum Json {
    Null,
    Bool(bool),
    /// A number within the `i64` range.
    Int(i64),
    /// A non-negative number above the `i64` range.
    UInt(u64),
    Str(String),
    Arr(Vec<Json>),
    Obj(Vec<(String, Json)>),
}

/// Number of nodes in a JSON tree; a measure for recursion over looked-up
/// children.
pub open spec fn json_size(j: Json) -> nat
    decreases j,
{
    match j {
        Json::Arr(items) => 1 + json_seq_size(items@),
        Json::Obj(entries) => 1 + json_obj_size(entries@),
        _ => 1,
    }
}

/// Total size of a sequence of JSON values.
pub open spec fn json_seq_size(js: Seq<Json>) -> nat
    decreases js,
{
    if js.len() == 0 {
        0
    } else {
        json_size(js[0]) + json_seq_size(js.drop_first())
    }
}

/// Total size of the values of a sequence of object entries.
pub open spec fn json_obj_size(entries: Seq<(String, Json)>) -> nat
    decreases entries,
{
    if entries.len() == 0 {
        0
    } else {
        json_size(entries[0].1) + json_obj_size(entries.drop_first())
    }
}

/// The value under `key` among object entries: first match wins.
pub open spec fn obj_lookup(entries: Seq<(String, Json)>, key: Seq<char>) -> Option<Json>
    decreases entries.len(),
{
    if entries.len() == 0 {
        None
    } else if entries[0].0@ == key {
        Some(entries[0].1)
    } else {
        obj_lookup(entries.drop_first(), key)
    }
}

pub proof fn lemma_obj_lookup_size(entries: Seq<(String, Json)>, key: Seq<char>)
    requires
        obj_lookup(entries, key) is Some,
    ensures
        json_size(obj_lookup(entries, key)->0) <= json_obj_size(entries),
    decreases entries.len(),
{
    if entries.len() == 0 {
    } else if entries[0].0@ == key {
    } else {
        lemma_obj_lookup_size(entries.drop_first(), key);
    }
}

pub proof fn lemma_seq_size_index(js: Seq<Json>, i: int)
    requires
        0 <= i < js.len(),
    ensures
        json_size(js[i]) <= json_seq_size(js),
    decreases i,
{
    if i == 0 {
    } else {
        lemma_seq_size_index(js.drop_first(), i - 1);
        assert(js.drop_first()[i - 1] == js[i]);
    }
}

/// The value under `key` among object entries, by linear scan.
fn obj_get<'a>(entries: &'a Vec<(String, Json)>, key: &str) -> (r: Option<&'a Json>)
    ensures
        match r {
            Some(v) => obj_lookup(entries@, key@) == Some(*v),
            None => obj_lookup(entries@, key@) is None,
        },
{
    let n = entries.len();
    let mut i: usize = 0;
    proof {
        assert(entries@.skip(0) =~= entries@);
    }
    while i < n
        invariant
            n == entries@.len(),
            0 <= i <= n,
            obj_lookup(entries@, key@) == obj_lookup(entries@.skip(i as int), key@),
        decreases n - i,
    {
        let e = &entries[i];
        if str_eq(e.0.as_str(), key) {
            proof {
                assert(entries@.skip(i as int)[0] == entries@[i as int]);
                assert(obj_lookup(entries@.skip(i as int), key@) == Some(entries@[i as int].1));
            }
            return Some(&entries[i].1);
        }
        proof {
            assert(entries@.skip(i as int).drop_first() =~= entries@.skip(i + 1));
            assert(entries@.skip(i as int)[0] == entries@[i as int]);
        }
        i = i + 1;
    }
    proof {
        assert(entries@.skip(n as int) =~= Seq::<(String, Json)>::empty());
    }
    None
}

impl Json {
    /// The value under `key`, when this value is an object holding it.
    pub open spec fn spec_get(self, key: Seq<char>) -> Option<Json> {
        match self {
            Json::Obj(entries) => obj_lookup(entries@, key),
            _ => None,
        }
    }

    /// This value as a signed 64-bit integer, when it is a number in range.
    pub open spec fn spec_as_i64(self) -> Option<i64> {
        match self {
            Json::Int(i) => Some(i),
            Json::UInt(u) => if u <= i64::MAX as u64 {
                Some(u as i64)
            } else {
                None
            },
            _ => None,
        }
    }

    /// This value as an unsigned 64-bit integer, when it is a number in range.
    pub open spec fn spec_as_u64(self) -> Option<u64> {
        match self {
            Json::Int(i) => if i >= 0 {
                Some(i as u64)
            } else {
                None
            },
            Json::UInt(u) => Some(u),
            _ => None,
        }
    }

    /// This value's string, when it is a string.
    pub open spec fn spec_as_str(self) -> Option<String> {
        match self {
            Json::Str(s) => Some(s),
            _ => None,
        }
    }

    /// This value's elements, when it is an array.
    pub open spec fn spec_as_arr(self) -> Option<Seq<Json>> {
        match self {
            Json::Arr(items) => Some(items@),
            _ => None,
        }
    }

    /// A looked-up child is strictly smaller than the tree it came from.
    pub proof fn lemma_get_size(self, key: Seq<char>)
        requires
            self.spec_get(key) is Some,
        ensures
            json_size(self.spec_get(key)->0) < json_size(self),
    {
        match self {
            Json::Obj(entries) => {
                lemma_obj_lookup_size(entries@, key);
            },
            _ => {},
        }
    }

    pub fn get<'a>(&'a self, key: &str) -> (r: Option<&'a Json>)
        ensures
            match r {
                Some(v) => self.spec_get(key@) == Some(*v),
                None => self.spec_get(key@) is None,
            },
    {
        match self {
            Json::Obj(entries) => obj_get(entries, key),
            _ => None,
        }
    }

    pub fn as_i64(&self) -> (r: Option<i64>)
        ensures
            r == self.spec_as_i64(),
    {
        match self {
            Json::Int(i) => Some(*i),
            Json::UInt(u) => if *u <= i64::MAX as u64 {
                Some(*u as i64)
            } else {
                None
            },
            _ => None,
        }
    }

    pub fn as_u64(&self) -> (r: Option<u64>)
        ensures
            r == self.spec_as_u64(),
    {
        match self {
            Json::Int(i) => if *i >= 0 {
                Some(*i as u64)
            } else {
                None
            },
            Json::UInt(u) => Some(*u),
            _ => None,
        }
    }

    pub fn as_str(&self) -> (r: Option<&String>)
        ensures
            match r {
                Some(s) => self.spec_as_str() == Some(*s),
                None => self.spec_as_str() is None,
            },
    {
        match self {
            Json::Str(s) => Some(s),
            _ => None,
        }
    }

    pub fn as_arr(&self) -> (r: Option<&Vec<Json>>)
        ensures
            match r {
                Some(items) => self.spec_as_arr() == Some(items@),
                None => self.spec_as_arr() is None,
            },
    {
        match self {
            Json::Arr(items) => Some(items),
            _ => None,
        }
    }
}

} // verus!
