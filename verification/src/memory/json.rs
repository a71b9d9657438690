//! JSON content read through `serde_json` and flattened to `path: value` lines.
use vstd::prelude::*;

use crate::text::{chars_of, decimal, join, join_exec, push_all, push_decimal, push_str, views};

verus! {

/// A JSON value as plain data. Numbers keep the text `serde_json` prints for them.
#[derive(Debug)]
pub enum JsonValue {
    Null,
    Bool(bool),
    Number(String),
    Text(String),
    Array(Vec<JsonValue>),
    Object(Vec<(String, JsonValue)>),
}

/// What `serde_json::from_str::<serde_json::Value>` reads from a text, as
/// plain data, when the text is JSON.
pub uninterp spec fn json_document(text: Seq<char>) -> Option<JsonValue>;

/// Parses `text` with `serde_json::from_str::<serde_json::Value>`; `None` when
/// it is not JSON. The contract claims only that the result depends on the text
/// alone: object members come in the order `serde_json`'s map keeps them.
#[verifier::external_body]
pub fn parse_json_document(text: &str) -> (r: Option<JsonValue>)
    ensures
        r == json_document(text@),
{
    match serde_json::from_str::<serde_json::Value>(text) {
        Ok(v) => Some(json_from_serde(&v)),
        Err(_) => None,
    }
}

/// `serde_json::Value`, carried opaquely into the conversion below.
#[verifier::external_type_specification]
#[verifier::external_body]
pub struct ExSerdeJsonValue(serde_json::Value);

/// Converts a `serde_json::Value` into `JsonValue`, variant for variant.
#[verifier::external_body]
fn json_from_serde(v: &serde_json::Value) -> JsonValue {
    match v {
        serde_json::Value::Null => JsonValue::Null,
        serde_json::Value::Bool(b) => JsonValue::Bool(*b),
        serde_json::Value::Number(n) => JsonValue::Number(n.to_string()),
        serde_json::Value::String(s) => JsonValue::Text(s.clone()),
        serde_json::Value::Array(items) => JsonValue::Array(items.iter().map(json_from_serde).collect()),
        serde_json::Value::Object(map) => JsonValue::Object(
            map.iter().map(|(k, x)| (k.clone(), json_from_serde(x))).collect(),
        ),
    }
}

/// The compact JSON text `serde_json` prints for a value (`Display` of
/// `serde_json::Value`), members in the order of `serde_json`'s map.
pub uninterp spec fn json_text(v: JsonValue) -> Seq<char>;

/// Prints `v` as compact JSON with `serde_json` (`Value::to_string`), the
/// value rebuilt as a `serde_json::Value` first. The contract claims only that
/// the text depends on the value alone.
#[verifier::external_body]
pub(crate) fn json_text_of(v: &JsonValue) -> (r: String)
    ensures
        r@ == json_text(*v),
{
    serde_from_json(v).to_string()
}

/// Converts a `JsonValue` into a `serde_json::Value`, variant for variant; a
/// number is read back from its text (`null` where that text is no number).
#[verifier::external_body]
fn serde_from_json(v: &JsonValue) -> serde_json::Value {
    match v {
        JsonValue::Null => serde_json::Value::Null,
        JsonValue::Bool(b) => serde_json::Value::Bool(*b),
        JsonValue::Number(n) => serde_json::from_str::<serde_json::Number>(n).map_or(serde_json::Value::Null, serde_json::Value::Number),
        JsonValue::Text(s) => serde_json::Value::String(s.clone()),
        JsonValue::Array(items) => serde_json::Value::Array(items.iter().map(serde_from_json).collect()),
        JsonValue::Object(members) => serde_json::Value::Object(
            members.iter().map(|(k, x)| (k.clone(), serde_from_json(x))).collect(),
        ),
    }
}

/// The text a scalar prints as: strings bare, everything else as JSON.
pub open spec fn scalar_text(v: JsonValue) -> Seq<char> {
    match v {
        JsonValue::Null => "null"@,
        JsonValue::Bool(b) => if b {
            "true"@
        } else {
            "false"@
        },
        JsonValue::Number(n) => n@,
        JsonValue::Text(s) => s@,
        _ => Seq::empty(),
    }
}

/// The path of an object member: its key, after `prefix.` when there is a prefix.
pub open spec fn member_path(prefix: Seq<char>, key: Seq<char>) -> Seq<char> {
    if prefix.len() == 0 {
        key
    } else {
        prefix + "."@ + key
    }
}

/// The path of array item `index`: `prefix[index]`.
pub open spec fn item_path(prefix: Seq<char>, index: nat) -> Seq<char> {
    prefix + "["@ + decimal(index) + "]"@
}

/// The `path: value` lines of a value under `prefix`, depth first, members and
/// items in order.
pub open spec fn flatten_spec(prefix: Seq<char>, v: JsonValue) -> Seq<Seq<char>>
    decreases v,
{
    match v {
        JsonValue::Array(items) => flatten_items(prefix, items@, 0),
        JsonValue::Object(members) => flatten_members(prefix, members@, 0),
        _ => seq![prefix + ": "@ + scalar_text(v)],
    }
}

pub open spec fn flatten_items(prefix: Seq<char>, items: Seq<JsonValue>, i: int) -> Seq<Seq<char>>
    decreases items, items.len() - i,
{
    if 0 <= i < items.len() {
        flatten_spec(item_path(prefix, i as nat), items[i]) + flatten_items(prefix, items, i + 1)
    } else {
        Seq::empty()
    }
}

pub open spec fn flatten_members(prefix: Seq<char>, members: Seq<(String, JsonValue)>, i: int) -> Seq<
    Seq<char>,
>
    decreases members, members.len() - i,
{
    if 0 <= i < members.len() {
        flatten_spec(member_path(prefix, members[i].0@), members[i].1) + flatten_members(
            prefix,
            members,
            i + 1,
        )
    } else {
        Seq::empty()
    }
}

/// The lines of a JSON document joined by `\n`; `None` when the text is not
/// JSON or yields no line.
pub open spec fn flatten_json_text_spec(text: Seq<char>) -> Option<Seq<char>> {
    match json_document(text) {
        None => None,
        Some(v) => {
            let fields = flatten_spec(Seq::empty(), v);
            if fields.len() == 0 {
                None
            } else {
                Some(join(fields, "\n"@))
            }
        },
    }
}

fn scalar_text_exec(v: &JsonValue) -> (r: Vec<char>)
    ensures
        r@ == scalar_text(*v),
{
    match v {
        JsonValue::Null => chars_of("null"),
        JsonValue::Bool(b) => if *b {
            chars_of("true")
        } else {
            chars_of("false")
        },
        JsonValue::Number(n) => chars_of(n.as_str()),
        JsonValue::Text(s) => chars_of(s.as_str()),
        _ => Vec::new(),
    }
}

/// The value of the first member named `key` from position `i` on.
pub open spec fn member_from(members: Seq<(String, JsonValue)>, key: Seq<char>, i: int) -> Option<JsonValue>
    decreases members.len() - i,
{
    if i < 0 || i >= members.len() {
        None
    } else if members[i].0@ == key {
        Some(members[i].1)
    } else {
        member_from(members, key, i + 1)
    }
}

/// The member `key` of an object, as `serde_json::Value::get`; `None` for a
/// value that is not an object or has no such member.
pub open spec fn member_spec(v: JsonValue, key: Seq<char>) -> Option<JsonValue> {
    match v {
        JsonValue::Object(members) => member_from(members@, key, 0),
        _ => None,
    }
}

/// The member `key` when it is a string (`get(key)` then `as_str`).
pub open spec fn member_text_spec(v: JsonValue, key: Seq<char>) -> Option<Seq<char>> {
    match member_spec(v, key) {
        Some(JsonValue::Text(s)) => Some(s@),
        _ => None,
    }
}

/// Looks up the member `key` of an object.
pub fn json_member<'a>(v: &'a JsonValue, key: &str) -> (r: Option<&'a JsonValue>)
    ensures
        r matches Some(x) ==> member_spec(*v, key@) == Some(*x),
        r is None ==> member_spec(*v, key@) is None,
{
    match v {
        JsonValue::Object(members) => {
            let mut i: usize = 0;
            while i < members.len()
                invariant
                    i <= members.len(),
                    *v == JsonValue::Object(*members),
                    member_from(members@, key@, 0) == member_from(members@, key@, i as int),
                decreases members.len() - i,
            {
                let k = chars_of(members[i].0.as_str());
                if crate::text::chars_eq_str(&k, key) {
                    assert(member_from(members@, key@, i as int) == Some(members@[i as int].1));
                    return Some(&members[i].1);
                }
                i = i + 1;
            }
            None
        },
        _ => None,
    }
}

/// The member `key` when it is a string.
pub fn json_member_text(v: &JsonValue, key: &str) -> (r: Option<String>)
    ensures
        r matches Some(t) ==> member_text_spec(*v, key@) == Some(t@),
        r is None ==> member_text_spec(*v, key@) is None,
{
    match json_member(v, key) {
        Some(JsonValue::Text(s)) => Some(s.clone()),
        _ => None,
    }
}

/// Appends the `path: value` lines of `v` under `prefix` to `out`.
pub fn flatten_json_value(prefix: &Vec<char>, v: &JsonValue, out: &mut Vec<Vec<char>>)
    ensures
        views(final(out)@) == views(old(out)@) + flatten_spec(prefix@, *v),
    decreases *v, 0int,
{
    match v {
        JsonValue::Array(items) => {
            let mut i: usize = 0;
            while i < items.len()
                invariant
                    i <= items.len(),
                    *v == JsonValue::Array(*items),
                    views(out@) + flatten_items(prefix@, items@, i as int) == views(old(out)@)
                        + flatten_spec(prefix@, *v),
                decreases items.len() - i,
            {
                let mut next = crate::text::slice(prefix, 0, prefix.len());
                push_str(&mut next, "[");
                push_decimal(&mut next, i as u64);
                push_str(&mut next, "]");
                assert(next@ =~= item_path(prefix@, i as nat));
                let ghost before = views(out@);
                proof {
                    assert(decreases_to!(*v => *items));
                    assert(decreases_to!(*items => items@));
                    assert(decreases_to!(items@ => items@[i as int]));
                    assert(decreases_to!(*v => items@[i as int]));
                }
                flatten_json_value(&next, &items[i], out);
                assert(views(out@) + flatten_items(prefix@, items@, i + 1) =~= before
                    + flatten_items(prefix@, items@, i as int));
                i = i + 1;
            }
        },
        JsonValue::Object(members) => {
            let mut i: usize = 0;
            while i < members.len()
                invariant
                    i <= members.len(),
                    *v == JsonValue::Object(*members),
                    views(out@) + flatten_members(prefix@, members@, i as int) == views(old(out)@)
                        + flatten_spec(prefix@, *v),
                decreases members.len() - i,
            {
                let key = chars_of(members[i].0.as_str());
                let next = if prefix.len() == 0 {
                    key
                } else {
                    let mut n = crate::text::slice(prefix, 0, prefix.len());
                    push_str(&mut n, ".");
                    push_all(&mut n, &key);
                    n
                };
                assert(next@ =~= member_path(prefix@, members@[i as int].0@));
                let ghost before = views(out@);
                proof {
                    assert(decreases_to!(*v => *members));
                    assert(decreases_to!(*members => members@));
                    assert(decreases_to!(members@ => members@[i as int]));
                    assert(decreases_to!(members@[i as int] => members@[i as int].1));
                    assert(decreases_to!(*v => members@[i as int].1));
                }
                flatten_json_value(&next, &members[i].1, out);
                assert(views(out@) + flatten_members(prefix@, members@, i + 1) =~= before
                    + flatten_members(prefix@, members@, i as int));
                i = i + 1;
            }
        },
        _ => {
            let mut line = crate::text::slice(prefix, 0, prefix.len());
            push_str(&mut line, ": ");
            let t = scalar_text_exec(v);
            push_all(&mut line, &t);
            assert(prefix@.subrange(0, prefix.len() as int) =~= prefix@);
            let ghost before = views(out@);
            out.push(line);
            assert(views(out@) =~= before.push(line@));
            assert(views(out@) =~= before + flatten_spec(prefix@, *v));
        },
    }
}

/// JSON text flattened to `path: value` lines (see `flatten_json_text_spec`).
pub fn flatten_json_text(text: &str) -> (r: Option<Vec<char>>)
    ensures
        r matches Some(t) ==> flatten_json_text_spec(text@) == Some(t@),
        r is None ==> flatten_json_text_spec(text@) is None,
{
    match parse_json_document(text) {
        None => None,
        Some(v) => {
            let mut fields: Vec<Vec<char>> = Vec::new();
            let empty: Vec<char> = Vec::new();
            flatten_json_value(&empty, &v, &mut fields);
            assert(views(fields@) =~= flatten_spec(Seq::empty(), v));
            if fields.len() == 0 {
                None
            } else {
                Some(join_exec(&fields, "\n"))
            }
        },
    }
}

} // verus!
