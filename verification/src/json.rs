use vstd::prelude::*;

use crate::text::same_text;

verus! {

/// A JSON number as the analysis data carries it: a non-negative integer,
/// a negative integer, or a number with a fraction or exponent (whose value
/// nothing in this library reads).
#[derive(Clone, Copy, Debug, PartialEq, Eq)]
pub enum JsonNumber {
    Unsigned(u64),
    Signed(i64),
    Float,
}

/// A JSON document, as produced by the per-file source analysis.
#[derive(Debug)]
pub enum Json {
    Null,
    Bool(bool),
    Number(JsonNumber),
    Str(String),
    Array(Vec<Json>),
    Object(Vec<(String, Json)>),
}

/// The value stored under `key` in a list of object entries: that of the
/// first entry whose key is `key`.
pub open spec fn entry_lookup(entries: Seq<(String, Json)>, key: Seq<char>) -> Option<Json> {
    if exists|i: int|
        0 <= i < entries.len() && entries[i].0@ == key && forall|j: int|
            0 <= j < i ==> entries[j].0@ != key {
        let i = choose|i: int|
            0 <= i < entries.len() && entries[i].0@ == key && forall|j: int|
                0 <= j < i ==> entries[j].0@ != key;
        Some(entries[i].1)
    } else {
        None
    }
}

/// The value behind an optional reference.
pub open spec fn opt_deref<T>(o: Option<&T>) -> Option<T> {
    match o {
        Some(v) => Some(*v),
        None => None,
    }
}

/// The first entry whose key is `key` is the one `entry_lookup` finds.
pub proof fn lemma_entry_lookup_first(entries: Seq<(String, Json)>, key: Seq<char>, i: int)
    requires
        0 <= i < entries.len(),
        entries[i].0@ == key,
        forall|j: int| 0 <= j < i ==> entries[j].0@ != key,
    ensures
        entry_lookup(entries, key) == Some(entries[i].1),
{
    let c = choose|c: int|
        0 <= c < entries.len() && entries[c].0@ == key && forall|j: int|
            0 <= j < c ==> entries[j].0@ != key;
    assert(c == i);
}

impl Json {
    /// `Value::get` with a string key: the member `key` of an object, if
    /// this is an object that has one.
    pub open spec fn get_spec(self, key: Seq<char>) -> Option<Json> {
        match self {
            Json::Object(entries) => entry_lookup(entries@, key),
            _ => None,
        }
    }

    /// The text of a string value.
    pub open spec fn as_str_spec(self) -> Option<Seq<char>> {
        match self {
            Json::Str(s) => Some(s@),
            _ => None,
        }
    }

    /// The elements of an array value.
    pub open spec fn as_array_spec(self) -> Option<Seq<Json>> {
        match self {
            Json::Array(items) => Some(items@),
            _ => None,
        }
    }

    /// A number that is a non-negative integer, as a `u64`.
    pub open spec fn as_u64_spec(self) -> Option<u64> {
        match self {
            Json::Number(JsonNumber::Unsigned(n)) => Some(n),
            Json::Number(JsonNumber::Signed(n)) => if n >= 0 {
                Some(n as u64)
            } else {
                None
            },
            _ => None,
        }
    }

    /// A number that is an integer in the range of `i64`, as an `i64`.
    pub open spec fn as_i64_spec(self) -> Option<i64> {
        match self {
            Json::Number(JsonNumber::Unsigned(n)) => if n <= i64::MAX {
                Some(n as i64)
            } else {
                None
            },
            Json::Number(JsonNumber::Signed(n)) => Some(n),
            _ => None,
        }
    }

    pub fn get(&self, key: &str) -> (r: Option<&Json>)
        ensures
            opt_deref(r) == self.get_spec(key@),
    {
        match self {
            Json::Object(entries) => {
                let mut i: usize = 0;
                while i < entries.len()
                    invariant
                        0 <= i <= entries@.len(),
                        self.get_spec(key@) == entry_lookup(entries@, key@),
                        forall|j: int| 0 <= j < i ==> entries@[j].0@ != key@,
                    decreases entries@.len() - i,
                {
                    if same_text(entries[i].0.as_str(), key) {
                        proof {
                            lemma_entry_lookup_first(entries@, key@, i as int);
                        }
                        return Some(&entries[i].1);
                    }
                    i = i + 1;
                }
                None
            },
            _ => None,
        }
    }

    pub fn as_str(&self) -> (r: Option<&str>)
        ensures
            match r {
                Some(s) => self.as_str_spec() == Some(s@),
                None => self.as_str_spec() is None,
            },
    {
        match self {
            Json::Str(s) => Some(s.as_str()),
            _ => None,
        }
    }

    pub fn as_array(&self) -> (r: Option<&Vec<Json>>)
        ensures
            match r {
                Some(items) => self.as_array_spec() == Some(items@),
                None => self.as_array_spec() is None,
            },
    {
        match self {
            Json::Array(items) => Some(items),
            _ => None,
        }
    }

    pub fn as_u64(&self) -> (r: Option<u64>)
        ensures
            r == self.as_u64_spec(),
    {
        match self {
            Json::Number(JsonNumber::Unsigned(n)) => Some(*n),
            Json::Number(JsonNumber::Signed(n)) => if *n >= 0 {
                Some(*n as u64)
            } else {
                None
            },
            _ => None,
        }
    }

    pub fn as_i64(&self) -> (r: Option<i64>)
        ensures
            r == self.as_i64_spec(),
    {
        match self {
            Json::Number(JsonNumber::Unsigned(n)) => if *n <= i64::MAX as u64 {
                Some(*n as i64)
            } else {
                None
            },
            Json::Number(JsonNumber::Signed(n)) => Some(*n),
            _ => None,
        }
    }
}

/// The text under `key` of an object (`v.get(key).and_then(Value::as_str)`).
pub open spec fn field_str(v: Json, key: Seq<char>) -> Option<Seq<char>> {
    match v.get_spec(key) {
        Some(x) => x.as_str_spec(),
        None => None,
    }
}

/// The elements of the array under `key` of an object.
pub open spec fn field_array(v: Json, key: Seq<char>) -> Option<Seq<Json>> {
    match v.get_spec(key) {
        Some(x) => x.as_array_spec(),
        None => None,
    }
}

/// The non-negative integer under `key` of an object.
pub open spec fn field_u64(v: Json, key: Seq<char>) -> Option<u64> {
    match v.get_spec(key) {
        Some(x) => x.as_u64_spec(),
        None => None,
    }
}

/// The `i64` integer under `key` of an object.
pub open spec fn field_i64(v: Json, key: Seq<char>) -> Option<i64> {
    match v.get_spec(key) {
        Some(x) => x.as_i64_spec(),
        None => None,
    }
}

/// The elements of the array under `key`, or none where there is no such
/// array.
pub open spec fn field_items(v: Json, key: Seq<char>) -> Seq<Json> {
    match field_array(v, key) {
        Some(items) => items,
        None => Seq::empty(),
    }
}

pub fn get_str<'a>(v: &'a Json, key: &str) -> (r: Option<&'a str>)
    ensures
        match r {
            Some(s) => field_str(*v, key@) == Some(s@),
            None => field_str(*v, key@) is None,
        },
{
    match v.get(key) {
        Some(x) => x.as_str(),
        None => None,
    }
}

pub fn get_array<'a>(v: &'a Json, key: &str) -> (r: Option<&'a Vec<Json>>)
    ensures
        match r {
            Some(items) => field_array(*v, key@) == Some(items@),
            None => field_array(*v, key@) is None,
        },
{
    match v.get(key) {
        Some(x) => x.as_array(),
        None => None,
    }
}

pub fn get_u64(v: &Json, key: &str) -> (r: Option<u64>)
    ensures
        r == field_u64(*v, key@),
{
    match v.get(key) {
        Some(x) => x.as_u64(),
        None => None,
    }
}

pub fn get_i64(v: &Json, key: &str) -> (r: Option<i64>)
    ensures
        r == field_i64(*v, key@),
{
    match v.get(key) {
        Some(x) => x.as_i64(),
        None => None,
    }
}

} // verus!
