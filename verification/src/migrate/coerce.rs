//! Converting stored values to the type that a field is changed to.
#[allow(unused_imports)]
use vstd::prelude::*;
#[allow(unused_imports)]
use vstd::string::*;

use crate::dsl::Cast;
use crate::error;
use crate::error::{ErrorV, RtDbError};
use crate::json;
use crate::json::{Json, JsonNumber, JsonV, NumberV};
use crate::migrate::plan;
use crate::migrate::plan::{cast_text, field_path_text};
use crate::number;
use crate::number::parse_double;
use crate::schema;
use crate::text;
use crate::text::{cat4, cat5, dec_i64, parse_i64, same};

verus! {

/// A value after a cast; none where the cast does not apply to it.
pub open spec fn coerced(cast: Cast, v: JsonV) -> Option<JsonV> {
    match (cast, v) {
        (Cast::ToString, JsonV::String(s)) => Some(JsonV::String(s)),
        (Cast::ToString, JsonV::Number(n)) => Some(JsonV::String(number::number_text(n))),
        (Cast::ToString, JsonV::Bool(b)) => Some(
            JsonV::String(
                if b {
                    "true"@
                } else {
                    "false"@
                },
            ),
        ),
        (Cast::ToNumber, JsonV::String(s)) => float_of(number::double_parsed(s)),
        (Cast::ToNumber, JsonV::Number(n)) => Some(JsonV::Number(n)),
        (Cast::ToNumber, JsonV::Bool(b)) => Some(
            JsonV::Number(
                NumberV::Float(
                    if b {
                        "1.0"@
                    } else {
                        "0.0"@
                    },
                ),
            ),
        ),
        (Cast::ToInt64, JsonV::String(s)) => decimal_of(text::int64_value(s)),
        (Cast::ToInt64, JsonV::Number(n)) => match number::int64_of(n) {
            Some(i) => decimal_of(Some(i as int)),
            None => None,
        },
        (Cast::ToBoolean, JsonV::String(s)) => if s == "true"@ || s == "1"@ {
            Some(JsonV::Bool(true))
        } else if s == "false"@ || s == "0"@ {
            Some(JsonV::Bool(false))
        } else {
            None
        },
        (Cast::ToBoolean, JsonV::Number(n)) => Some(JsonV::Bool(!number::reads_as_zero(n))),
        _ => None,
    }
}

/// A JSON number of a number's text, where there is one.
pub open spec fn float_of(parsed: Option<Seq<char>>) -> Option<JsonV> {
    match parsed {
        Some(t) => Some(JsonV::Number(NumberV::Float(t))),
        None => None,
    }
}

/// A JSON string of an integer's decimal form, where there is one.
pub open spec fn decimal_of(i: Option<int>) -> Option<JsonV> {
    match i {
        Some(i) => Some(JsonV::String(text::dec_int(i))),
        None => None,
    }
}

/// The JSON number of a parsed number's text.
pub fn number_from(parsed: Option<String>) -> (r: Option<Json>)
    ensures
        schema::opt_view(r) == float_of(text::opt_str(parsed)),
{
    broadcast use json::lemma_json_view;

    match parsed {
        Some(t) => Some(Json::Number(JsonNumber::Float(t))),
        None => None,
    }
}

fn decimal_from(i: Option<i64>) -> (r: Option<Json>)
    ensures
        schema::opt_view(r) == decimal_of(
            match i {
                Some(i) => Some(i as int),
                None => None,
            },
        ),
{
    broadcast use json::lemma_json_view;

    match i {
        Some(i) => Some(Json::String(dec_i64(i))),
        None => None,
    }
}

/// Converts a value under a cast, where the cast applies to it.
pub fn coerce_value(cast: Cast, v: &Json) -> (r: Option<Json>)
    ensures
        schema::opt_view(r) == coerced(cast, v@),
{
    broadcast use json::lemma_json_view;

    match (cast, v) {
        (Cast::ToString, Json::String(_)) => Some(v.copy()),
        (Cast::ToString, Json::Number(n)) => Some(Json::String(n.to_text())),
        (Cast::ToString, Json::Bool(b)) => {
            if *b {
                Some(Json::String("true".to_owned()))
            } else {
                Some(Json::String("false".to_owned()))
            }
        },
        (Cast::ToNumber, Json::String(s)) => number_from(parse_double(s.as_str())),
        (Cast::ToNumber, Json::Number(_)) => Some(v.copy()),
        (Cast::ToNumber, Json::Bool(b)) => {
            if *b {
                Some(Json::Number(JsonNumber::Float("1.0".to_owned())))
            } else {
                Some(Json::Number(JsonNumber::Float("0.0".to_owned())))
            }
        },
        (Cast::ToInt64, Json::String(s)) => decimal_from(parse_i64(s.as_str())),
        (Cast::ToInt64, Json::Number(n)) => decimal_from(n.as_i64()),
        (Cast::ToBoolean, Json::String(s)) => {
            if same(s.as_str(), "true") || same(s.as_str(), "1") {
                Some(Json::Bool(true))
            } else if same(s.as_str(), "false") || same(s.as_str(), "0") {
                Some(Json::Bool(false))
            } else {
                None
            }
        },
        (Cast::ToBoolean, Json::Number(n)) => Some(Json::Bool(!n.is_zero())),
        _ => None,
    }
}

/// What a default for unconvertible values must meet: the cast applies to it.
pub open spec fn default_fault(
    table: Seq<char>,
    field: Seq<char>,
    cast: Cast,
    default: Option<JsonV>,
) -> Option<ErrorV> {
    match default {
        Some(d) if coerced(cast, d) is None => Some(
            error::bad(
                "changeType default for "@ + plan::field_path(table, field)
                    + " is not representable under cast "@ + plan::cast_name(cast),
            ),
        ),
        _ => None,
    }
}

/// Rejects a default that the cast does not apply to.
pub fn check_default(table: &str, field: &str, cast: Cast, default: &Option<Json>) -> (r: Result<
    (),
    RtDbError,
>)
    ensures
        match default_fault(table@, field@, cast, schema::opt_view(*default)) {
            Some(e) => r matches Err(x) && x@ == e,
            None => r is Ok,
        },
{
    if let Some(d) = default {
        if coerce_value(cast, d).is_none() {
            return Err(
                RtDbError::bad_request(
                    cat4(
                        "changeType default for ",
                        field_path_text(table, field).as_str(),
                        " is not representable under cast ",
                        cast_text(cast),
                    ),
                ),
            );
        }
    }
    Ok(())
}

/// The value that a row holds after its field changed type: the converted
/// value; where there is none, the converted default, or the default itself.
/// `shown` is the row's value as messages show it.
pub open spec fn recast(
    table: Seq<char>,
    id: Seq<char>,
    cast: Cast,
    value: JsonV,
    shown: Seq<char>,
    default: Option<JsonV>,
) -> Result<JsonV, ErrorV> {
    match (coerced(cast, value), default) {
        (Some(v), _) => Ok(v),
        (None, Some(d)) => match coerced(cast, d) {
            Some(v) => Ok(v),
            None => Ok(d),
        },
        (None, None) => Err(
            error::bad(
                "changeType cannot coerce value in "@ + plan::field_path(table, id) + " ("@ + shown
                    + ") and no default given"@,
            ),
        ),
    }
}

/// Converts the value of one row.
pub fn recast_value(
    table: &str,
    id: &str,
    cast: Cast,
    value: &Json,
    shown: &str,
    default: &Option<Json>,
) -> (r: Result<Json, RtDbError>)
    ensures
        match recast(table@, id@, cast, value@, shown@, schema::opt_view(*default)) {
            Ok(v) => r matches Ok(x) && x@ == v,
            Err(e) => r matches Err(x) && x@ == e,
        },
{
    if let Some(v) = coerce_value(cast, value) {
        return Ok(v);
    }
    match default {
        Some(d) => match coerce_value(cast, d) {
            Some(v) => Ok(v),
            None => Ok(d.copy()),
        },
        None => Err(
            RtDbError::bad_request(
                cat5(
                    "changeType cannot coerce value in ",
                    field_path_text(table, id).as_str(),
                    " (",
                    shown,
                    ") and no default given",
                ),
            ),
        ),
    }
}

/// A cast yields the form of its target: text for text and 64-bit integers, a
/// number for numbers, a boolean for booleans.
pub proof fn law_cast_yields_target_form(cast: Cast, v: JsonV)
    requires
        coerced(cast, v) is Some,
    ensures
        match cast {
            Cast::ToString => coerced(cast, v)->0 is String,
            Cast::ToNumber => coerced(cast, v)->0 is Number,
            Cast::ToInt64 => coerced(cast, v)->0 is String,
            Cast::ToBoolean => coerced(cast, v)->0 is Bool,
        },
{
}

/// No cast applies to null, an array or an object.
pub proof fn law_cast_skips_containers(cast: Cast, v: JsonV)
    requires
        v is Null || v is Array || v is Object,
    ensures
        coerced(cast, v) is None,
{
}

/// With a default that the cast applies to, every row is converted, and what it
/// then holds has the form of the target.
pub proof fn law_default_settles_every_row(
    table: Seq<char>,
    field: Seq<char>,
    id: Seq<char>,
    cast: Cast,
    value: JsonV,
    shown: Seq<char>,
    default: JsonV,
)
    requires
        default_fault(table, field, cast, Some(default)) is None,
    ensures
        recast(table, id, cast, value, shown, Some(default)) is Ok,
        ({
            let held = recast(table, id, cast, value, shown, Some(default))->Ok_0;
            Some(held) == coerced(cast, value) || Some(held) == coerced(cast, default)
        }),
{
}

} // verus!
