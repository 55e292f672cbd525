//! JSON documents as the Salesforce CLI reports them: the values that the
//! response walkers read, and the lookups they make.

use vstd::prelude::*;

use crate::text::{chars_equal, chars_of};

verus! {

/// A JSON number: an unsigned or a negative integer, or any other number by
/// its text.
#[derive(Clone, Debug, PartialEq, Eq)]
pub enum JsonNumber {
    Unsigned(u64),
    Negative(i64),
    Other(String),
}

/// A JSON value. An object keeps its entries in key order, each key once.
#[derive(Debug, PartialEq, Eq)]
pub enum JsonValue {
    Null,
    Bool(bool),
    Number(JsonNumber),
    String(String),
    Array(Vec<JsonValue>),
    Object(Vec<(String, JsonValue)>),
}

/// The value of the first entry named `key`.
pub open spec fn entry_value(entries: Seq<(String, JsonValue)>, key: Seq<char>) -> Option<JsonValue>
    decreases entries.len(),
{
    if entries.len() == 0 {
        None
    } else if entries[0].0@ == key {
        Some(entries[0].1)
    } else {
        entry_value(entries.drop_first(), key)
    }
}

/// The member `key` of an object; nothing for other values.
pub open spec fn member(value: JsonValue, key: Seq<char>) -> Option<JsonValue> {
    match value {
        JsonValue::Object(entries) => entry_value(entries@, key),
        _ => None,
    }
}

/// The text of a string value.
pub open spec fn as_text(value: Option<JsonValue>) -> Option<Seq<char>> {
    match value {
        Some(JsonValue::String(text)) => Some(text@),
        _ => None,
    }
}

/// The truth value of a boolean value.
pub open spec fn as_truth(value: Option<JsonValue>) -> Option<bool> {
    match value {
        Some(JsonValue::Bool(b)) => Some(b),
        _ => None,
    }
}

/// A number that fits in `u64`.
pub open spec fn as_unsigned(value: Option<JsonValue>) -> Option<u64> {
    match value {
        Some(JsonValue::Number(JsonNumber::Unsigned(n))) => Some(n),
        _ => None,
    }
}

/// A number that fits in `i64`.
pub open spec fn as_signed(value: Option<JsonValue>) -> Option<i64> {
    match value {
        Some(JsonValue::Number(JsonNumber::Unsigned(n))) => if n <= i64::MAX as u64 {
            Some(n as i64)
        } else {
            None
        },
        Some(JsonValue::Number(JsonNumber::Negative(n))) => Some(n),
        _ => None,
    }
}

/// The value of the first entry named `key`.
pub fn entry_of<'a>(entries: &'a Vec<(String, JsonValue)>, key: &str) -> (result: Option<&'a JsonValue>)
    ensures
        entry_value(entries@, key@) == match result {
            Some(found) => Some(*found),
            None => None,
        },
{
    let wanted = chars_of(key);
    let mut i: usize = 0;
    assert(entries@.skip(0) =~= entries@);
    while i < entries.len()
        invariant
            i <= entries@.len(),
            wanted@ == key@,
            entry_value(entries@, key@) == entry_value(entries@.skip(i as int), key@),
        decreases entries@.len() - i,
    {
        assert(entries@.skip(i as int).drop_first() =~= entries@.skip(i + 1));
        if chars_equal(chars_of(entries[i].0.as_str()).as_slice(), wanted.as_slice()) {
            return Some(&entries[i].1);
        }
        i += 1;
    }
    None
}

/// The member `key` of an object; nothing for other values.
pub fn member_of<'a>(value: &'a JsonValue, key: &str) -> (result: Option<&'a JsonValue>)
    ensures
        member(*value, key@) == match result {
            Some(found) => Some(*found),
            None => None,
        },
{
    match value {
        JsonValue::Object(entries) => entry_of(entries, key),
        _ => None,
    }
}

/// The text of a string value.
pub fn text_of(value: Option<&JsonValue>) -> (result: Option<&str>)
    ensures
        as_text(
            match value {
                Some(v) => Some(*v),
                None => None,
            },
        ) == match result {
            Some(text) => Some(text@),
            None => None,
        },
{
    match value {
        Some(JsonValue::String(text)) => Some(text.as_str()),
        _ => None,
    }
}

/// The truth value of a boolean value.
pub fn truth_of(value: Option<&JsonValue>) -> (result: Option<bool>)
    ensures
        result == as_truth(
            match value {
                Some(v) => Some(*v),
                None => None,
            },
        ),
{
    match value {
        Some(JsonValue::Bool(b)) => Some(*b),
        _ => None,
    }
}

/// A number that fits in `u64`.
pub fn unsigned_of(value: Option<&JsonValue>) -> (result: Option<u64>)
    ensures
        result == as_unsigned(
            match value {
                Some(v) => Some(*v),
                None => None,
            },
        ),
{
    match value {
        Some(JsonValue::Number(JsonNumber::Unsigned(n))) => Some(*n),
        _ => None,
    }
}

/// A number that fits in `i64`.
pub fn signed_of(value: Option<&JsonValue>) -> (result: Option<i64>)
    ensures
        result == as_signed(
            match value {
                Some(v) => Some(*v),
                None => None,
            },
        ),
{
    match value {
        Some(JsonValue::Number(JsonNumber::Unsigned(n))) => if *n <= 0x7fff_ffff_ffff_ffffu64 {
            Some(*n as i64)
        } else {
            None
        },
        Some(JsonValue::Number(JsonNumber::Negative(n))) => Some(*n),
        _ => None,
    }
}


/// The first value that `probe` finds in document order: at an object, first
/// among its own entries, then within each member's value in turn; within
/// each element of an array in turn; nowhere in other values.
pub open spec fn first_found(
    value: JsonValue,
    probe: spec_fn(Seq<(String, JsonValue)>) -> Option<JsonValue>,
) -> Option<JsonValue>
    decreases value,
{
    match value {
        JsonValue::Object(entries) => match probe(entries@) {
            Some(found) => Some(found),
            None => first_found_in_entries(entries@, probe),
        },
        JsonValue::Array(items) => first_found_in_items(items@, probe),
        _ => None,
    }
}

/// The first value that `probe` finds within the members' values, in order.
pub open spec fn first_found_in_entries(
    entries: Seq<(String, JsonValue)>,
    probe: spec_fn(Seq<(String, JsonValue)>) -> Option<JsonValue>,
) -> Option<JsonValue>
    decreases entries,
{
    if entries.len() == 0 {
        None
    } else {
        match first_found(entries[0].1, probe) {
            Some(found) => Some(found),
            None => first_found_in_entries(entries.drop_first(), probe),
        }
    }
}

/// The first value that `probe` finds within the elements, in order.
pub open spec fn first_found_in_items(
    items: Seq<JsonValue>,
    probe: spec_fn(Seq<(String, JsonValue)>) -> Option<JsonValue>,
) -> Option<JsonValue>
    decreases items,
{
    if items.len() == 0 {
        None
    } else {
        match first_found(items[0], probe) {
            Some(found) => Some(found),
            None => first_found_in_items(items.drop_first(), probe),
        }
    }
}

/// The value found, if any.
pub open spec fn found_value(found: Option<&JsonValue>) -> Option<JsonValue> {
    match found {
        Some(value) => Some(*value),
        None => None,
    }
}

} // verus!
