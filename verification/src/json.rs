//! The library's model of a JSON document.
//!
//! A generation reply arrives as semi-structured JSON. The normalizer
//! only ever reads strings, arrays and object fields of it, so the
//! model keeps every scalar as a plain value; a number is carried as
//! its source text, which is all the normalizer ever uses of it. An
//! object is an ordered list of fields, and a field lookup takes the
//! first binding of its key.

use vstd::prelude::*;

verus! {

/// A JSON document as the normalizer sees it.
pub enum JsonValue {
    /// The JSON `null`.
    Null,
    /// A JSON boolean.
    Bool(bool),
    /// A JSON number, as the text it was written as.
    Number(String),
    /// A JSON string.
    Text(String),
    /// A JSON array.
    Array(Vec<JsonValue>),
    /// A JSON object: its fields in source order.
    Object(Vec<(String, JsonValue)>),
}

/// The value of the first field named `key` at or after position `i`.
pub open spec fn lookup_from(fields: Seq<(String, JsonValue)>, key: Seq<char>, i: int) -> Option<
    JsonValue,
>
    decreases fields.len() - i,
{
    if i < 0 || i >= fields.len() {
        None
    } else if fields[i].0@ == key {
        Some(fields[i].1)
    } else {
        lookup_from(fields, key, i + 1)
    }
}

/// The value of the first field named `key`, if any.
pub open spec fn spec_lookup(fields: Seq<(String, JsonValue)>, key: Seq<char>) -> Option<
    JsonValue,
> {
    lookup_from(fields, key, 0)
}

/// The value of the first field of `fields` whose name is `key`.
pub fn lookup<'a>(fields: &'a Vec<(String, JsonValue)>, key: &str) -> (r: Option<&'a JsonValue>)
    ensures
        match r {
            Some(v) => spec_lookup(fields@, key@) == Some(*v),
            None => spec_lookup(fields@, key@) is None,
        },
{
    let key_string: String = key.to_owned();
    let mut i: usize = 0;
    while i < fields.len()
        invariant
            i <= fields.len(),
            key_string@ == key@,
            spec_lookup(fields@, key@) == lookup_from(fields@, key@, i as int),
        decreases fields.len() - i,
    {
        let field = &fields[i];
        if field.0 == key_string {
            return Some(&field.1);
        }
        i = i + 1;
    }
    None
}

} // verus!
