//! The JSON values that tools exchange with the model, as `serde_json` reads
//! and writes them.
//!
//! A [`Value`] is opaque to the proofs. What the library needs of one is named
//! by the functions below, and each of them is tied to a single function of
//! `serde_json`.

use serde_json::Value;
use vstd::prelude::*;

use crate::llm::calls_json;
use crate::state::ToolCallView;

verus! {

/// Declares `serde_json::Value`, a JSON value.
#[verifier::external_type_specification]
#[verifier::external_body]
pub struct ExValue(serde_json::Value);

/// Declares `serde_json::Error`, the reason why a text is no JSON.
#[verifier::external_type_specification]
#[verifier::external_body]
pub struct ExJsonError(serde_json::Error);

/// What `serde_json::from_str` makes of a text: a JSON value, or the message of
/// its error.
pub uninterp spec fn json_parse(text: Seq<char>) -> Result<Value, Seq<char>>;

/// The message of a JSON error, as its `Display` writes it.
pub uninterp spec fn json_error_text(error: serde_json::Error) -> Seq<char>;

/// The compact JSON text of a value, as its `Display` writes it.
pub uninterp spec fn json_text(value: Value) -> Seq<char>;

/// The lower-case hexadecimal digit of a number below sixteen.
pub open spec fn hex_digit(d: u32) -> char {
    if d < 10 {
        ('0' as u32 + d) as char
    } else {
        ('a' as u32 + d - 10) as char
    }
}

/// A character inside a JSON string literal.
pub open spec fn json_escaped_char(c: char) -> Seq<char> {
    if c == '"' {
        seq!['\\', '"']
    } else if c == '\\' {
        seq!['\\', '\\']
    } else if c == '\u{8}' {
        seq!['\\', 'b']
    } else if c == '\t' {
        seq!['\\', 't']
    } else if c == '\n' {
        seq!['\\', 'n']
    } else if c == '\u{c}' {
        seq!['\\', 'f']
    } else if c == '\r' {
        seq!['\\', 'r']
    } else if (c as u32) < 0x20 {
        seq!['\\', 'u', '0', '0', hex_digit(c as u32 / 16), hex_digit(c as u32 % 16)]
    } else {
        seq![c]
    }
}

/// A text inside a JSON string literal.
pub open spec fn json_escaped(text: Seq<char>) -> Seq<char>
    decreases text.len(),
{
    if text.len() == 0 {
        Seq::empty()
    } else {
        json_escaped(text.drop_last()) + json_escaped_char(text.last())
    }
}

/// The JSON string literal that stands for a text, with its quotation marks.
pub open spec fn json_quoted(text: Seq<char>) -> Seq<char> {
    seq!['"'] + json_escaped(text) + seq!['"']
}

/// The items of a JSON array; `None` for any other value.
pub uninterp spec fn json_items(value: Value) -> Option<Seq<Value>>;

/// The text of a JSON string; `None` for any other value.
pub uninterp spec fn json_str(value: Value) -> Option<Seq<char>>;

/// What a JSON object holds under a key; `None` where it lacks the key, and for
/// any other value.
pub uninterp spec fn json_field(value: Value, key: Seq<char>) -> Option<Value>;

/// The JSON value `null`.
pub open spec fn json_null() -> Value {
    json_parse("null"@)->Ok_0
}

/// The JSON object without entries.
pub open spec fn json_empty_object() -> Value {
    json_parse("{}"@)->Ok_0
}

/// Whether a value is read back as it was printed, inside of two brackets. This
/// is so for values without fractions that are not nested too deeply for the
/// reader.
pub open spec fn survives(value: Value) -> bool {
    match json_parse("[["@ + json_text(value) + "]]"@) {
        Ok(outer) => match json_items(outer) {
            Some(items) => items.len() == 1 && json_items(items[0]) == Some(seq![value]),
            None => false,
        },
        Err(_) => false,
    }
}

/// Whether a value is an object that holds this call's id, name and arguments.
pub open spec fn holds_call(value: Value, call: ToolCallView) -> bool {
    &&& json_items(value) is None
    &&& json_field(value, "id"@) is Some
    &&& json_str(json_field(value, "id"@)->0) == Some(call.id)
    &&& json_field(value, "name"@) is Some
    &&& json_str(json_field(value, "name"@)->0) == Some(call.name)
    &&& json_field(value, "args"@) == Some(call.args)
}

/// Whether a value is an array of objects that hold these calls, in order.
pub open spec fn holds_calls(value: Value, calls: Seq<ToolCallView>) -> bool {
    match json_items(value) {
        Some(items) => {
            &&& items.len() == calls.len()
            &&& forall|i: int| 0 <= i < calls.len() ==> holds_call(items[i], #[trigger] calls[i])
        },
        None => false,
    }
}

/// `serde_json::from_str` at `Value`. The result depends on the text alone: the
/// value it denotes, or an error with a message that is fixed by the text.
///
/// What it makes of a printed list of tool calls and a line break is an array of
/// objects with the printed ids and names, and with the printed arguments where
/// it also reads those back between two opening and two closing brackets (two
/// levels of nesting, as in the list).
#[verifier::external_body]
pub(crate) fn parse_json(text: &str) -> (r: Result<Value, serde_json::Error>)
    ensures
        match r {
            Ok(value) => json_parse(text@) == Ok::<Value, Seq<char>>(value),
            Err(error) => json_parse(text@) == Err::<Value, Seq<char>>(json_error_text(error)),
        },
        forall|calls: Seq<ToolCallView>|
            text@ == #[trigger] calls_json(calls) + "\n"@ && (forall|i: int|
                0 <= i < calls.len() ==> survives((#[trigger] calls[i]).args)) ==> (match r {
                Ok(value) => holds_calls(value, calls),
                Err(_) => false,
            }),
{
    serde_json::from_str(text)
}

/// `Display` of `serde_json::Error`: the error's message.
#[verifier::external_body]
pub(crate) fn error_text(error: &serde_json::Error) -> (r: String)
    ensures
        r@ == json_error_text(*error),
{
    error.to_string()
}

/// `Display` of `serde_json::Value`: the value's compact JSON text.
#[verifier::external_body]
pub(crate) fn value_text(value: &Value) -> (r: String)
    ensures
        r@ == json_text(*value),
{
    value.to_string()
}

/// `serde_json::to_string` at `str`: the JSON string literal for the text, with
/// quotation marks, backslashes and control characters escaped and everything
/// else as it is. It writes into memory, and a string always has a JSON form, so
/// there is no error.
#[verifier::external_body]
pub(crate) fn quoted_text(text: &str) -> (r: Result<String, serde_json::Error>)
    ensures
        r is Ok,
        r->Ok_0@ == json_quoted(text@),
{
    serde_json::to_string(text)
}

/// `Value::as_array`: the items of an array, in order, and nothing for any
/// other value.
#[verifier::external_body]
pub(crate) fn value_items(value: &Value) -> (r: Option<&Vec<Value>>)
    ensures
        match r {
            Some(items) => json_items(*value) == Some(items@),
            None => json_items(*value) is None,
        },
{
    value.as_array()
}

/// `Value::as_str`: the text of a string, and nothing for any other value.
#[verifier::external_body]
pub(crate) fn value_str(value: &Value) -> (r: Option<&str>)
    ensures
        match r {
            Some(text) => json_str(*value) == Some(text@),
            None => json_str(*value) is None,
        },
{
    value.as_str()
}

/// `Value::get` with a string: what an object holds under the key, and nothing
/// for an absent key or any other value.
#[verifier::external_body]
pub(crate) fn value_field<'a>(value: &'a Value, key: &str) -> (r: Option<&'a Value>)
    ensures
        match r {
            Some(field) => json_field(*value, key@) == Some(*field),
            None => json_field(*value, key@) is None,
        },
{
    value.get(key)
}

/// `Clone` of `serde_json::Value`: the same JSON value.
#[verifier::external_body]
pub(crate) fn copy_value(value: &Value) -> (r: Value)
    ensures
        r == *value,
{
    value.clone()
}

/// The variant `Value::Null`, which is what the text `null` denotes, and whose
/// text it is.
#[verifier::external_body]
pub(crate) fn null_value() -> (r: Value)
    ensures
        (match json_parse("null"@) {
            Ok(value) => r == value,
            Err(_) => false,
        }),
        json_text(r) == "null"@,
{
    Value::Null
}

/// The variant `Value::Object` over `serde_json::Map::default`, which is what
/// the text `{}` denotes, and whose text it is.
#[verifier::external_body]
pub(crate) fn empty_object() -> (r: Value)
    ensures
        (match json_parse("{}"@) {
            Ok(value) => r == value,
            Err(_) => false,
        }),
        json_text(r) == "{}"@,
{
    Value::Object(serde_json::Map::default())
}

} // verus!
