//! Page cursors: the sort values of a row as opaque text.
#[allow(unused_imports)]
use vstd::prelude::*;
#[allow(unused_imports)]
use vstd::string::*;
#[allow(unused_imports)]
use vstd::utf8::*;

use base64::engine::general_purpose::STANDARD as BASE64;
use base64::Engine;
use serde_json::Value;

use crate::error;
use crate::error::{ErrorCode, ErrorV, RtDbError};
use crate::json;
use crate::json::{Json, JsonNumber, JsonV, NumberV};
use crate::text;
use crate::text::cat2;

verus! {

/// A JSON value of `serde_json`.
#[verifier::external_type_specification]
#[verifier::external_body]
pub struct ExValue(serde_json::Value);

/// The value that a `serde_json::Value` holds.
pub uninterp spec fn held(v: Value) -> JsonV;

/// What the `serde_json::Value` built from a value holds.
pub uninterp spec fn rebuilt(j: JsonV) -> JsonV;

/// The values of the JSON array that a text is, or what `serde_json` says is
/// wrong with the text.
pub uninterp spec fn parsed_array(text: Seq<char>) -> Result<Seq<JsonV>, Seq<char>>;

/// The text of the JSON array of the values, or what `serde_json` says is wrong
/// with them.
pub uninterp spec fn array_text(values: Seq<JsonV>) -> Result<Seq<char>, Seq<char>>;

/// The JSON text of a value, or what `serde_json` says is wrong with it.
pub uninterp spec fn value_text(v: JsonV) -> Result<Seq<char>, Seq<char>>;

/// The standard base64 text of the bytes.
pub uninterp spec fn base64_of(bytes: Seq<u8>) -> Seq<char>;

/// The bytes of a standard base64 text, or what `base64` says is wrong with it.
pub uninterp spec fn base64_bytes(text: Seq<char>) -> Result<Seq<u8>, Seq<char>>;

/// What the standard library says is wrong with bytes that are no UTF-8.
pub uninterp spec fn utf8_fault(bytes: Seq<u8>) -> Seq<char>;

/// The number of bytes of the JSON text of a value; none where `serde_json`
/// gives no text.
pub open spec fn text_len(v: JsonV) -> Option<usize> {
    match value_text(v) {
        Ok(s) => Some(encode_utf8(s).len() as usize),
        Err(_) => None,
    }
}

/// A text is the JSON array of the values.
pub open spec fn reads_as(text: Seq<char>, values: Seq<JsonV>) -> bool {
    parsed_array(text) == Ok::<Seq<JsonV>, Seq<char>>(values)
}

/// A text is base64 for the bytes.
pub open spec fn decodes_to(text: Seq<char>, bytes: Seq<u8>) -> bool {
    base64_bytes(text) == Ok::<Seq<u8>, Seq<char>>(bytes)
}

/// The values that `serde_json` values hold.
pub open spec fn held_values(v: Seq<Value>) -> Seq<JsonV> {
    Seq::new(v.len(), |i: int| held(v[i]))
}

/// The most arrays and objects that may be nested in a value of a cursor:
/// `serde_json` reads no more than 127 levels, and the cursor is one of them.
pub const MAX_NESTING: u64 = 126;

/// The key that `serde_json` takes for a text of its own where it is the first of
/// an object.
pub open spec fn raw_value_key() -> Seq<char> {
    "$serde_json::private::RawValue"@
}

/// The keys of an object ascend, and the first is not the one that `serde_json`
/// reads otherwise.
pub open spec fn plain_keys(entries: Seq<(Seq<char>, JsonV)>) -> bool {
    &&& entries.len() > 0 ==> entries[0].0 != raw_value_key()
    &&& forall|i: int, j: int|
        0 <= i < j < entries.len() ==> text::chars_lt(
            (#[trigger] entries[i]).0,
            (#[trigger] entries[j]).0,
        )
}

/// A value without floating-point numbers, nested no deeper than `depth`: a
/// null, a boolean, an integer in its canonical form, a string, or an array or
/// object of such values that does not start with the raw value key.
pub open spec fn plain(v: JsonV, depth: nat) -> bool
    decreases v,
{
    match v {
        JsonV::Null => true,
        JsonV::Bool(_) => true,
        JsonV::Number(NumberV::PosInt(_)) => true,
        JsonV::Number(NumberV::NegInt(i)) => i < 0,
        JsonV::Number(NumberV::Float(_)) => false,
        JsonV::String(_) => true,
        JsonV::Array(items) => depth > 0 && forall|i: int|
            0 <= i < items.len() ==> plain(#[trigger] items[i], (depth - 1) as nat),
        JsonV::Object(entries) => depth > 0 && plain_keys(entries) && forall|i: int|
            0 <= i < entries.len() ==> plain((#[trigger] entries[i]).1, (depth - 1) as nat),
    }
}

/// What the `serde_json` values built from the values hold.
pub open spec fn rebuilt_values(vs: Seq<JsonV>) -> Seq<JsonV> {
    Seq::new(vs.len(), |i: int| rebuilt(vs[i]))
}

/// Every value is without floating-point numbers and not nested too deep.
pub open spec fn all_plain(vs: Seq<JsonV>) -> bool {
    forall|i: int| 0 <= i < vs.len() ==> plain(#[trigger] vs[i], MAX_NESTING as nat)
}

/// Reads a `serde_json::Value` variant by variant. The result is what the value
/// is said to hold.
#[verifier::external_body]
pub(crate) fn value_to_json(v: &Value) -> (r: Json)
    ensures
        r@ == held(*v),
{
    match v {
        Value::Null => Json::Null,
        Value::Bool(b) => Json::Bool(*b),
        Value::Number(n) => Json::Number(match (n.as_u64(), n.as_i64()) {
            (Some(u), _) => JsonNumber::PosInt(u),
            (None, Some(i)) => JsonNumber::NegInt(i),
            (None, None) => JsonNumber::Float(n.to_string()),
        }),
        Value::String(s) => Json::String(s.clone()),
        Value::Array(a) => Json::Array(a.iter().map(value_to_json).collect()),
        Value::Object(m) => {
            Json::Object(m.iter().map(|(k, x)| (k.clone(), value_to_json(x))).collect())
        },
    }
}

/// Builds a `serde_json::Value` variant by variant. What it holds is named; a
/// value without floating-point numbers is held as it is, while the text of a
/// floating-point number is read by `str::parse` and held as
/// `serde_json::Number::from_f64` has it.
#[verifier::external_body]
pub(crate) fn json_to_value(j: &Json) -> (r: Value)
    ensures
        held(r) == rebuilt(j@),
        plain(j@, MAX_NESTING as nat) ==> held(r) == j@,
{
    match j {
        Json::Null => Value::Null,
        Json::Bool(b) => Value::Bool(*b),
        Json::Number(JsonNumber::PosInt(n)) => Value::from(*n),
        Json::Number(JsonNumber::NegInt(n)) => Value::from(*n),
        Json::Number(JsonNumber::Float(s)) => {
            Value::from(s.parse().ok().and_then(serde_json::Number::from_f64))
        },
        Json::String(s) => Value::String(s.clone()),
        Json::Array(a) => Value::Array(a.iter().map(json_to_value).collect()),
        Json::Object(m) => {
            Value::Object(m.iter().map(|(k, x)| (k.clone(), json_to_value(x))).collect())
        },
    }
}

/// The number of bytes that `serde_json::to_vec` gives for a value: they are those
/// of the text that `serde_json::to_string` gives.
#[verifier::external_body]
pub(crate) fn rendered_len(v: &Value) -> (r: Option<usize>)
    ensures
        r == text_len(held(*v)),
{
    match serde_json::to_vec(v) {
        Ok(bytes) => Some(bytes.len()),
        Err(_) => None,
    }
}

/// `serde_json::to_string` on a value. The text is named, not described: it is a
/// function of what the value holds.
#[verifier::external_body]
pub(crate) fn render_value(v: &Value) -> (r: Result<String, String>)
    ensures
        text::result_text(r) == value_text(held(*v)),
{
    match serde_json::to_string(v) {
        Ok(s) => Ok(s),
        Err(e) => Err(e.to_string()),
    }
}

/// `serde_json::to_string` on an array of values. The text is named; of an array
/// of values without floating-point numbers, nested no deeper than `serde_json`
/// reads, it is known that it is given, and that it reads back as the array. An
/// object that starts with the raw value key is left out: `serde_json` reads what
/// follows the key as a text of its own. Of what a floating-point number reads
/// back as nothing is said.
#[verifier::external_body]
fn render_array(values: &Vec<Value>) -> (r: Result<String, String>)
    ensures
        match r {
            Ok(s) => array_text(held_values(values@)) == Ok::<Seq<char>, Seq<char>>(s@),
            Err(e) => array_text(held_values(values@)) == Err::<Seq<char>, Seq<char>>(e@),
        },
        all_plain(held_values(values@)) ==> r is Ok,
        all_plain(held_values(values@)) ==> reads_as(r->Ok_0@, held_values(values@)),
{
    serde_json::to_string(values).map_err(|e| e.to_string())
}

/// `serde_json::from_str` to an array of values. The outcome is named, not
/// described: it is a function of the text.
#[verifier::external_body]
fn parse_array(s: &str) -> (r: Result<Vec<Value>, String>)
    ensures
        match r {
            Ok(v) => parsed_array(s@) == Ok::<Seq<JsonV>, Seq<char>>(held_values(v@)),
            Err(e) => parsed_array(s@) == Err::<Seq<JsonV>, Seq<char>>(e@),
        },
{
    serde_json::from_str(s).map_err(|e| e.to_string())
}

/// `base64::Engine::encode` of the standard engine. The text is named; it is
/// known that it decodes to the bytes.
#[verifier::external_body]
fn base64_encode(bytes: &[u8]) -> (r: String)
    ensures
        r@ == base64_of(bytes@),
        decodes_to(r@, bytes@),
{
    BASE64.encode(bytes)
}

/// `base64::Engine::decode` of the standard engine. The outcome is named, not
/// described: it is a function of the text.
#[verifier::external_body]
fn base64_decode(s: &str) -> (r: Result<Vec<u8>, String>)
    ensures
        match r {
            Ok(v) => base64_bytes(s@) == Ok::<Seq<u8>, Seq<char>>(v@),
            Err(e) => base64_bytes(s@) == Err::<Seq<u8>, Seq<char>>(e@),
        },
{
    BASE64.decode(s).map_err(|e| e.to_string())
}

/// `std::str::from_utf8`: bytes are text exactly if they are valid UTF-8, and
/// stand for the characters they encode. The words of the error are named.
#[verifier::external_body]
fn utf8_text(bytes: &Vec<u8>) -> (r: Result<String, String>)
    ensures
        r is Ok <==> valid_utf8(bytes@),
        match r {
            Ok(s) => s@ == decode_utf8(bytes@),
            Err(e) => e@ == utf8_fault(bytes@),
        },
{
    std::str::from_utf8(bytes).map(|s| s.to_string()).map_err(|e| e.to_string())
}

/// The values a cursor stands for, or why it stands for none.
pub open spec fn cursor_values(cursor: Seq<char>) -> Result<Seq<JsonV>, ErrorV> {
    match base64_bytes(cursor) {
        Err(e) => Err(error::bad("invalid cursor base64: "@ + e)),
        Ok(bytes) => if !valid_utf8(bytes) {
            Err(error::bad("invalid cursor utf-8: "@ + utf8_fault(bytes)))
        } else {
            match parsed_array(decode_utf8(bytes)) {
                Ok(values) => Ok(values),
                Err(e) => Err(error::bad("invalid cursor json: "@ + e)),
            }
        },
    }
}

/// The cursor that the text of an array of values makes.
pub open spec fn cursor_of(rendered: Result<Seq<char>, Seq<char>>) -> Result<Seq<char>, ErrorV> {
    match rendered {
        Ok(s) => Ok(base64_of(encode_utf8(s))),
        Err(e) => Err(error::internal("failed to encode cursor: "@ + e)),
    }
}

/// The cursor of the values. Values without floating-point numbers, nested no
/// deeper than the limit, always have one, and it reads back as the values, unless
/// an object among them starts with the raw value key.
pub fn encode_cursor(values: &Vec<Json>) -> (r: Result<String, RtDbError>)
    ensures
        match cursor_of(array_text(rebuilt_values(json::json_views(values@)))) {
            Ok(c) => r matches Ok(s) && s@ == c,
            Err(e) => r matches Err(x) && x@ == e,
        },
        all_plain(json::json_views(values@)) ==> (r matches Ok(s) && (cursor_values(s@) matches Ok(vs)
            && vs == json::json_views(values@))),
{
    let ghost vs = json::json_views(values@);
    let mut converted: Vec<Value> = Vec::new();
    let mut i: usize = 0;
    while i < values.len()
        invariant
            i <= values@.len(),
            converted@.len() == i,
            vs == json::json_views(values@),
            forall|k: int| 0 <= k < i ==> held(#[trigger] converted@[k]) == rebuilt(vs[k]),
            forall|k: int|
                0 <= k < i ==> (plain(vs[k], MAX_NESTING as nat) ==> held(
                    #[trigger] converted@[k],
                ) == vs[k]),
        decreases values@.len() - i,
    {
        let v = json_to_value(&values[i]);
        converted.push(v);
        i = i + 1;
    }
    proof {
        assert(held_values(converted@) =~= rebuilt_values(vs));
        if all_plain(vs) {
            assert(held_values(converted@) =~= vs);
        }
    }
    match render_array(&converted) {
        Ok(s) => {
            let out = base64_encode(s.as_str().as_bytes());
            proof {
                encode_utf8_valid_utf8(s@);
                encode_utf8_decode_utf8(s@);
            }
            Ok(out)
        },
        Err(e) => Err(RtDbError::internal(cat2("failed to encode cursor: ", e.as_str()))),
    }
}

/// The values a cursor stands for.
pub fn decode_cursor(cursor: &str) -> (r: Result<Vec<Json>, RtDbError>)
    ensures
        match cursor_values(cursor@) {
            Ok(vs) => r matches Ok(v) && json::json_views(v@) == vs,
            Err(e) => r matches Err(x) && x@ == e,
        },
{
    let bytes = match base64_decode(cursor) {
        Ok(b) => b,
        Err(e) => {
            return Err(RtDbError::bad_request(cat2("invalid cursor base64: ", e.as_str())));
        },
    };
    let s = match utf8_text(&bytes) {
        Ok(s) => s,
        Err(e) => {
            return Err(RtDbError::bad_request(cat2("invalid cursor utf-8: ", e.as_str())));
        },
    };
    let values = match parse_array(s.as_str()) {
        Ok(v) => v,
        Err(e) => {
            return Err(RtDbError::bad_request(cat2("invalid cursor json: ", e.as_str())));
        },
    };
    let mut out: Vec<Json> = Vec::new();
    let mut i: usize = 0;
    while i < values.len()
        invariant
            i <= values@.len(),
            out@.len() == i,
            forall|k: int| 0 <= k < i ==> (#[trigger] out@[k])@ == held(values@[k]),
        decreases values@.len() - i,
    {
        let j = value_to_json(&values[i]);
        out.push(j);
        i = i + 1;
    }
    assert(json::json_views(out@) =~= held_values(values@));
    Ok(out)
}

/// A text that stands for no cursor is the fault of the request, never of the
/// server.
pub proof fn law_broken_cursor_is_bad_request(cursor: Seq<char>)
    ensures
        cursor_values(cursor) matches Err(e) ==> e.code == ErrorCode::BadRequest,
{
}

} // verus!
