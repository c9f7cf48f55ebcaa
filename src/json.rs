use vstd::prelude::*;

verus! {

#[verifier::external_type_specification]
#[verifier::external_body]
pub struct ExJsonValue(serde_json::Value);

/// A JSON document as the logic reads it: numbers are not told apart, and an
/// object maps each of its keys to one value.
pub enum JsonModel {
    Null,
    Bool(bool),
    Number,
    Str(Seq<char>),
    Array(Seq<JsonModel>),
    Object(Map<Seq<char>, JsonModel>),
}

/// Whether serde_json accepts `text` as one JSON document (well-formed, and
/// nested no deeper than serde_json's limit).
pub uninterp spec fn json_parses(text: Seq<char>) -> bool;

/// The document that serde_json reads from `text`.
pub uninterp spec fn json_doc(text: Seq<char>) -> JsonModel;

/// What a `serde_json::Value` holds.
pub uninterp spec fn value_model(v: serde_json::Value) -> JsonModel;

/// The member `key` of an object; nothing for any other value.
pub open spec fn model_member(j: JsonModel, key: Seq<char>) -> Option<JsonModel> {
    match j {
        JsonModel::Object(m) => if m.contains_key(key) {
            Some(m[key])
        } else {
            None
        },
        _ => None,
    }
}

/// The text of a JSON string; nothing for any other value.
pub open spec fn model_str(j: JsonModel) -> Option<Seq<char>> {
    match j {
        JsonModel::Str(s) => Some(s),
        _ => None,
    }
}

/// The member `key` of `j`, if it is a string.
pub open spec fn str_member(j: JsonModel, key: Seq<char>) -> Option<Seq<char>> {
    match model_member(j, key) {
        Some(m) => model_str(m),
        None => None,
    }
}

/// The first element of the array member `key` of `j`, if it is a string.
pub open spec fn first_str_item(j: JsonModel, key: Seq<char>) -> Option<Seq<char>> {
    match model_member(j, key) {
        Some(JsonModel::Array(a)) => if a.len() > 0 {
            model_str(a[0])
        } else {
            None
        },
        _ => None,
    }
}

pub open spec fn opt_model(o: Option<serde_json::Value>) -> Option<JsonModel> {
    match o {
        Some(v) => Some(value_model(v)),
        None => None,
    }
}

pub open spec fn opt_text(o: Option<String>) -> Option<Seq<char>> {
    match o {
        Some(s) => Some(s@),
        None => None,
    }
}

/// The lower-case hexadecimal digit of `n`.
pub open spec fn hex_digit(n: int) -> char {
    seq!['0', '1', '2', '3', '4', '5', '6', '7', '8', '9', 'a', 'b', 'c', 'd', 'e', 'f'][n]
}

/// How one character stands inside a JSON string literal.
pub open spec fn escape_char(c: char) -> Seq<char> {
    let u = c as u32;
    if c == '"' {
        seq!['\\', '"']
    } else if c == '\\' {
        seq!['\\', '\\']
    } else if u == 8 {
        seq!['\\', 'b']
    } else if u == 9 {
        seq!['\\', 't']
    } else if u == 10 {
        seq!['\\', 'n']
    } else if u == 12 {
        seq!['\\', 'f']
    } else if u == 13 {
        seq!['\\', 'r']
    } else if u < 0x20 {
        seq!['\\', 'u', '0', '0', hex_digit(u as int / 16), hex_digit(u as int % 16)]
    } else {
        seq![c]
    }
}

/// The characters of `s`, each escaped.
pub open spec fn escaped(s: Seq<char>) -> Seq<char>
    decreases s.len(),
{
    if s.len() == 0 {
        Seq::empty()
    } else {
        escaped(s.drop_last()) + escape_char(s.last())
    }
}

/// `s` written as a JSON string literal.
pub open spec fn json_quoted(s: Seq<char>) -> Seq<char> {
    seq!['"'] + escaped(s) + seq!['"']
}

/// Relies on serde_json::from_str into a serde_json::Value: it succeeds
/// exactly on the texts serde_json accepts, and what it reads depends on the
/// text alone.
#[verifier::external_body]
pub(crate) fn parse_json(text: &str) -> (r: Option<serde_json::Value>)
    ensures
        r is Some <==> json_parses(text@),
        r matches Some(v) ==> value_model(v) == json_doc(text@),
{
    serde_json::from_str::<serde_json::Value>(text).ok()
}

/// Relies on serde_json::Value::get with a string key: the member of an
/// object under that key, and nothing for any other value.
#[verifier::external_body]
pub(crate) fn member(v: &serde_json::Value, key: &str) -> (r: Option<serde_json::Value>)
    ensures
        opt_model(r) == model_member(value_model(*v), key@),
{
    v.get(key).cloned()
}

/// Relies on serde_json::Value::as_str: the text of a JSON string, and
/// nothing for any other value.
#[verifier::external_body]
pub(crate) fn string_value(v: &serde_json::Value) -> (r: Option<String>)
    ensures
        opt_text(r) == model_str(value_model(*v)),
{
    v.as_str().map(String::from)
}

/// Relies on serde_json::Value::as_array: the elements of a JSON array, and
/// nothing for any other value.
#[verifier::external_body]
pub(crate) fn array_items(v: &serde_json::Value) -> (r: Option<Vec<serde_json::Value>>)
    ensures
        r is Some <==> value_model(*v) is Array,
        r matches Some(items) ==> items@.len() == value_model(*v)->Array_0.len() && (forall|
            i: int,
        |
            0 <= i < items@.len() ==> value_model(#[trigger] items@[i]) == value_model(
                *v,
            )->Array_0[i]),
{
    v.as_array().cloned()
}

/// Relies on serde_json::to_string on a `str`: it writes into a `Vec`, which
/// cannot fail, the text between quotes with `"`, `\` and the control
/// characters escaped.
#[verifier::external_body]
pub(crate) fn quote_json(s: &str) -> (r: Option<String>)
    ensures
        r is Some,
        r matches Some(q) ==> q@ == json_quoted(s@),
{
    serde_json::to_string(s).ok()
}

/// The string member `key` of `v`, if there is one.
pub(crate) fn string_member(v: &serde_json::Value, key: &str) -> (r: Option<String>)
    ensures
        opt_text(r) == str_member(value_model(*v), key@),
{
    match member(v, key) {
        Some(m) => string_value(&m),
        None => None,
    }
}

/// The first element of the array member `key` of `v`, if it is a string.
pub(crate) fn first_string_item(v: &serde_json::Value, key: &str) -> (r: Option<String>)
    ensures
        opt_text(r) == first_str_item(value_model(*v), key@),
{
    match member(v, key) {
        Some(m) => match array_items(&m) {
            Some(items) => if items.len() > 0 {
                string_value(&items[0])
            } else {
                None
            },
            None => None,
        },
        None => None,
    }
}

} // verus!
