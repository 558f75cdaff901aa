//! Reading JSON text: what a JSON pointer finds in it, as plain values.

use vstd::prelude::*;

verus! {

/// What a JSON pointer finds in a JSON text.
#[derive(Debug)]
pub enum JsonField {
    /// The line is not JSON at all.
    Unparsed,
    /// Nothing at that pointer.
    Missing,
    /// An integer that fits an `i64`.
    Int(i64),
    Bool(bool),
    Text(String),
    /// An array, by its length.
    List(usize),
    /// Anything else: null, an object, a float, an out-of-range number.
    Other,
}

/// What `serde_json` finds at `pointer` in the JSON text `line`.
pub uninterp spec fn json_field_of(line: Seq<char>, pointer: Seq<char>) -> JsonField;

/// Parses `line` with `serde_json::from_str` into a `serde_json::Value` and
/// looks `pointer` up with `Value::pointer`; the contract only names the
/// result as a function of the two texts.
#[verifier::external_body]
pub(crate) fn json_field(line: &str, pointer: &str) -> (r: JsonField)
    ensures
        r == json_field_of(line@, pointer@),
{
    let v: serde_json::Value = match serde_json::from_str(line) {
        Ok(v) => v,
        Err(_) => return JsonField::Unparsed,
    };
    match v.pointer(pointer) {
        None => JsonField::Missing,
        Some(serde_json::Value::Number(n)) => match n.as_i64() {
            Some(i) => JsonField::Int(i),
            None => JsonField::Other,
        },
        Some(serde_json::Value::Bool(b)) => JsonField::Bool(*b),
        Some(serde_json::Value::String(s)) => JsonField::Text(s.clone()),
        Some(serde_json::Value::Array(a)) => JsonField::List(a.len()),
        Some(_) => JsonField::Other,
    }
}

pub open spec fn field_i64(f: JsonField) -> Option<i64> {
    match f {
        JsonField::Int(i) => Some(i),
        _ => None,
    }
}

pub open spec fn field_bool(f: JsonField) -> bool {
    match f {
        JsonField::Bool(b) => b,
        _ => false,
    }
}

pub open spec fn field_len(f: JsonField) -> nat {
    match f {
        JsonField::List(n) => n as nat,
        _ => 0,
    }
}

pub open spec fn field_present(f: JsonField) -> bool {
    !(f is Missing || f is Unparsed)
}

pub open spec fn field_text_is(f: JsonField, t: Seq<char>) -> bool {
    match f {
        JsonField::Text(s) => s@ == t,
        _ => false,
    }
}

pub fn as_i64(f: &JsonField) -> (r: Option<i64>)
    ensures
        r == field_i64(*f),
{
    match f {
        JsonField::Int(i) => Some(*i),
        _ => None,
    }
}

pub fn as_bool(f: &JsonField) -> (r: bool)
    ensures
        r == field_bool(*f),
{
    match f {
        JsonField::Bool(b) => *b,
        _ => false,
    }
}

pub fn text_is(f: &JsonField, t: &str) -> (r: bool)
    ensures
        r == field_text_is(*f, t@),
{
    match f {
        JsonField::Text(s) => {
            let owned = t.to_owned();
            *s == owned
        },
        _ => false,
    }
}

pub fn field_is_present(f: &JsonField) -> (r: bool)
    ensures
        r == field_present(*f),
{
    match f {
        JsonField::Missing | JsonField::Unparsed => false,
        _ => true,
    }
}

} // verus!
