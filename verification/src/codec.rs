//! The JSON boundary: parsing the two input envelopes and rendering task
//! records.
//!
//! Parsing a request body is handed to serde_json behind trusted wrappers;
//! what each wrapper returns is a function of the body bytes alone and is
//! given a name here (`new_task_of`, `update_task_of`, `json_quoted`).
//! Rendering a task record is the library's own verified code: the record
//! shape is fixed, and only the escaping of the description text — a JSON
//! string literal — is serde_json's.

use serde_json::Value;
use vstd::prelude::*;
use vstd::string::StringSliceAdditionalSpecFns;
use vstd::utf8::encode_utf8;

use crate::store::{Task, TaskModel, tasks_view, opt_str_view};

verus! {

/// What parsing the body as the creation envelope `{"description": <string>}`
/// yields: the description when the body is such a JSON object (unknown
/// fields ignored), nothing otherwise.
pub uninterp spec fn new_task_of(body: Seq<u8>) -> Option<Seq<char>>;

/// What parsing the body as the update envelope
/// `{"description"?: <string>, "completed"?: <bool>}` yields: the two
/// optional fields when the body is such a JSON object (absent and `null`
/// fields count as not provided, unknown fields are ignored), nothing when
/// it is not.
pub uninterp spec fn update_task_of(body: Seq<u8>) -> Option<(Option<Seq<char>>, Option<bool>)>;

/// The JSON string literal that renders the given text: double-quoted, with
/// the escapes JSON requires.
pub uninterp spec fn json_quoted(text: Seq<char>) -> Seq<u8>;

/// Relies on `serde_json::from_str`: the body decodes (lossily, so it never
/// fails on malformed text) and parses as the creation envelope, or does
/// not; either way the outcome depends on the body bytes alone, and is the
/// value `new_task_of` names.
#[verifier::external_body]
pub fn parse_new_task(body: &[u8]) -> (r: Option<String>)
    ensures
        r is Some <==> new_task_of(body@) is Some,
        r matches Some(d) ==> new_task_of(body@) == Some(d@),
{
    let text = String::from_utf8_lossy(body);
    let v: Value = match serde_json::from_str(text.as_ref()) {
        Ok(v) => v,
        Err(_) => return None,
    };
    match v {
        Value::Object(mut m) => match m.remove("description") {
            Some(Value::String(d)) => Some(d),
            _ => None,
        },
        _ => None,
    }
}

/// Relies on `serde_json::from_str`, as `parse_new_task` does: the body
/// parses as the update envelope or does not, an outcome that depends on
/// the body bytes alone and that `update_task_of` names.
#[verifier::external_body]
pub fn parse_update_task(body: &[u8]) -> (r: Option<(Option<String>, Option<bool>)>)
    ensures
        r is Some <==> update_task_of(body@) is Some,
        r matches Some(u) ==> update_task_of(body@) == Some((opt_str_view(u.0), u.1)),
{
    let text = String::from_utf8_lossy(body);
    let v: Value = match serde_json::from_str(text.as_ref()) { Ok(v) => v, Err(_) => return None };
    let m = match v { Value::Object(m) => m, _ => return None };
    let d = match m.get("description") {
        Some(Value::String(s)) => Some(s.clone()),
        Some(Value::Null) | None => None,
        Some(_) => return None,
    };
    let c = match m.get("completed") {
        Some(Value::Bool(b)) => Some(*b),
        Some(Value::Null) | None => None,
        Some(_) => return None,
    };
    Some((d, c))
}

/// Relies on `serde_json::to_string`: renders text as a JSON string
/// literal, an outcome that depends on the text alone and that
/// `json_quoted` names. Serializing a string value cannot fail.
#[verifier::external_body]
pub fn json_quote(text: &str) -> (r: Vec<u8>)
    ensures
        r@ == json_quoted(text@),
{
    match serde_json::to_string(text) {
        Ok(s) => s.into_bytes(),
        Err(_) => Vec::new(),
    }
}

/// The UTF-8 bytes of a string, as a fresh vector.
pub fn str_to_bytes(s: &str) -> (r: Vec<u8>)
    ensures
        r@ == encode_utf8(s@),
{
    let b = s.as_bytes();
    let r = crate::request::subrange_vec(b, 0, b.len());
    proof {
        assert(b@.subrange(0, b@.len() as int) =~= b@);
    }
    r
}

/// The decimal digits of a number.
pub open spec fn dec_digits(n: int) -> Seq<u8>
    decreases n,
{
    if n < 10 {
        seq![(48 + n) as u8]
    } else {
        dec_digits(n / 10).push((48 + n % 10) as u8)
    }
}

/// Renders a number in decimal.
pub fn u32_to_dec(n: u32) -> (r: Vec<u8>)
    ensures
        r@ == dec_digits(n as int),
    decreases n,
{
    if n < 10 {
        let mut v: Vec<u8> = Vec::new();
        v.push(48 + (n as u8));
        proof {
            assert(v@ =~= dec_digits(n as int));
        }
        v
    } else {
        let mut v = u32_to_dec(n / 10);
        v.push(48 + ((n % 10) as u8));
        v
    }
}

/// The JSON rendering of one task record:
/// `{"id":<n>,"description":<quoted>,"completed":<bool>}`.
pub open spec fn task_json(t: TaskModel) -> Seq<u8> {
    encode_utf8("{\"id\":"@) + dec_digits(t.id as int) + encode_utf8(",\"description\":"@)
        + json_quoted(t.description) + encode_utf8(",\"completed\":"@) + (if t.completed {
        encode_utf8("true"@)
    } else {
        encode_utf8("false"@)
    }) + encode_utf8("}"@)
}

/// The comma-separated renderings of the records, in order.
pub open spec fn tasks_json_items(ts: Seq<TaskModel>) -> Seq<u8>
    decreases ts.len(),
{
    if ts.len() == 0 {
        Seq::empty()
    } else if ts.len() == 1 {
        task_json(ts[0])
    } else {
        tasks_json_items(ts.drop_last()) + encode_utf8(","@) + task_json(ts.last())
    }
}

/// The JSON rendering of a task listing: a JSON array of the records, in
/// the listing's order.
pub open spec fn tasks_json(ts: Seq<TaskModel>) -> Seq<u8> {
    encode_utf8("["@) + tasks_json_items(ts) + encode_utf8("]"@)
}

/// Renders one task record, exactly as `task_json` describes.
pub fn serialize_task(t: &Task) -> (r: Vec<u8>)
    ensures
        r@ == task_json(t@),
{
    let mut out = str_to_bytes("{\"id\":");
    let mut part = u32_to_dec(t.id);
    out.append(&mut part);
    let mut part = str_to_bytes(",\"description\":");
    out.append(&mut part);
    let mut part = json_quote(t.description.as_str());
    out.append(&mut part);
    let mut part = str_to_bytes(",\"completed\":");
    out.append(&mut part);
    let mut part = if t.completed {
        str_to_bytes("true")
    } else {
        str_to_bytes("false")
    };
    out.append(&mut part);
    let mut part = str_to_bytes("}");
    out.append(&mut part);
    out
}

/// Renders a task listing, exactly as `tasks_json` describes.
pub fn serialize_tasks(ts: &Vec<Task>) -> (r: Vec<u8>)
    ensures
        r@ == tasks_json(tasks_view(ts@)),
{
    let ghost m = tasks_view(ts@);
    let mut out = str_to_bytes("[");
    let mut i: usize = 0;
    while i < ts.len()
        invariant
            i <= ts@.len(),
            m == tasks_view(ts@),
            out@ == encode_utf8("["@) + tasks_json_items(m.take(i as int)),
        decreases ts@.len() - i,
    {
        if i > 0 {
            let mut part = str_to_bytes(",");
            out.append(&mut part);
        }
        let mut part = serialize_task(&ts[i]);
        out.append(&mut part);
        proof {
            if i == 0 {
                assert(m.take(1).len() == 1);
                assert(m.take(1)[0] == m[0]);
                assert(m.take(0) =~= Seq::<TaskModel>::empty());
            } else {
                assert(m.take(i + 1).drop_last() =~= m.take(i as int));
                assert(m.take(i + 1).last() == m[i as int]);
            }
        }
        i = i + 1;
    }
    proof {
        assert(m.take(i as int) =~= m);
    }
    let mut part = str_to_bytes("]");
    out.append(&mut part);
    out
}

} // verus!
