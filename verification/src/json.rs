//! A JSON value as the API receives and returns it.
//!
//! Numbers are held in the text form in which JSON writes them. An object is the
//! map obtained by inserting its entries in order: its keys are walked in entry
//! order, and a later entry for a key replaces an earlier one.
use vstd::prelude::*;

use crate::text::{chars_eq_str, str_chars};

verus! {

#[derive(Debug)]
pub enum JsonValue {
    Null,
    Bool(bool),
    Number(String),
    String(String),
    Array(Vec<JsonValue>),
    Object(Vec<(String, JsonValue)>),
}

/// How JSON writes a boolean.
pub open spec fn bool_text(b: bool) -> Seq<char> {
    if b {
        "true"@
    } else {
        "false"@
    }
}

/// The text of a string, number or boolean; `None` for null, arrays and objects.
pub open spec fn scalar_text(v: JsonValue) -> Option<Seq<char>> {
    match v {
        JsonValue::String(s) => Some(s@),
        JsonValue::Number(n) => Some(n@),
        JsonValue::Bool(b) => Some(bool_text(b)),
        _ => None,
    }
}

/// Index of the entry that holds `key` in the object's map: the last entry with that key, or -1.
pub open spec fn entry_index(entries: Seq<(String, JsonValue)>, key: Seq<char>) -> int
    decreases entries.len(),
{
    if entries.len() == 0 {
        -1
    } else if entries.last().0@ == key {
        entries.len() - 1
    } else {
        entry_index(entries.drop_last(), key)
    }
}

pub proof fn lemma_entry_index(entries: Seq<(String, JsonValue)>, key: Seq<char>)
    ensures
        -1 <= entry_index(entries, key) < entries.len(),
        entry_index(entries, key) >= 0 ==> entries[entry_index(entries, key)].0@ == key,
        entry_index(entries, key) == -1 ==> forall|i: int| 0 <= i < entries.len() ==> entries[i].0@ != key,
        entry_index(entries, key) >= 0 ==> forall|i: int|
            entry_index(entries, key) < i < entries.len() ==> entries[i].0@ != key,
    decreases entries.len(),
{
    if entries.len() > 0 && entries.last().0@ != key {
        lemma_entry_index(entries.drop_last(), key);
        assert forall|i: int| 0 <= i < entries.len() - 1 implies entries[i] == entries.drop_last()[i] by {}
    }
}

/// The value that the object's map holds under `key`.
pub open spec fn obj_get(entries: Seq<(String, JsonValue)>, key: Seq<char>) -> Option<JsonValue> {
    let i = entry_index(entries, key);
    if i >= 0 {
        Some(entries[i].1)
    } else {
        None
    }
}

/// Finds the value held under `key`, by reference.
pub fn obj_lookup<'a>(entries: &'a Vec<(String, JsonValue)>, key: &str) -> (r: Option<&'a JsonValue>)
    ensures
        match r {
            Some(v) => obj_get(entries@, key@) == Some(*v),
            None => obj_get(entries@, key@).is_none(),
        },
{
    let ghost e = entries@;
    let mut i: usize = entries.len();
    assert(e.take(i as int) =~= e);
    while i > 0
        invariant
            i <= entries.len(),
            e == entries@,
            entry_index(e, key@) == entry_index(e.take(i as int), key@),
        decreases i,
    {
        let ghost t = e.take(i as int);
        assert(t.drop_last() =~= e.take(i - 1));
        if chars_eq_str(&str_chars(entries[i - 1].0.as_str()), key) {
            assert(t.last() == e[i - 1]);
            return Some(&entries[i - 1].1);
        }
        i -= 1;
    }
    None
}

} // verus!
