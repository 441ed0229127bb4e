//! What casts keep: a value that is cast and read back is the same value.
#[allow(unused_imports)]
use vstd::prelude::*;

use crate::dsl::Cast;
use crate::error::ErrorV;
use crate::json::{JsonV, NumberV};
use crate::migrate::coerce;
use crate::number;
use crate::query::numbering;
use crate::text;

verus! {

/// The text of a boolean, by its characters.
pub open spec fn spelled(b: bool) -> Seq<char> {
    if b {
        seq!['t', 'r', 'u', 'e']
    } else {
        seq!['f', 'a', 'l', 's', 'e']
    }
}

/// The number that stands for a boolean, by its characters.
pub open spec fn counted(b: bool) -> Seq<char> {
    if b {
        seq!['1', '.', '0']
    } else {
        seq!['0', '.', '0']
    }
}

/// The digit that stands for a boolean.
pub open spec fn bit(b: bool) -> Seq<char> {
    if b {
        seq!['1']
    } else {
        seq!['0']
    }
}

proof fn lemma_spelled()
    ensures
        "true"@ == spelled(true),
        "false"@ == spelled(false),
        "1"@ == bit(true),
        "0"@ == bit(false),
        "1.0"@ == counted(true),
        "0.0"@ == counted(false),
        "-0"@ == seq!['-', '0'],
{
    reveal_strlit("true");
    reveal_strlit("false");
    reveal_strlit("1");
    reveal_strlit("0");
    reveal_strlit("1.0");
    reveal_strlit("0.0");
    reveal_strlit("-0");
    assert("true"@ =~= spelled(true));
    assert("false"@ =~= spelled(false));
    assert("1"@ =~= bit(true));
    assert("0"@ =~= bit(false));
    assert("1.0"@ =~= counted(true));
    assert("0.0"@ =~= counted(false));
    assert("-0"@ =~= seq!['-', '0']);
}

proof fn lemma_lengths(s: Seq<char>)
    ensures
        s == spelled(true) ==> s.len() == 4,
        s == spelled(false) ==> s.len() == 5,
        s == bit(true) ==> s.len() == 1 && s[0] == '1',
        s == bit(false) ==> s.len() == 1 && s[0] == '0',
{
}

/// A boolean cast to text and the text back to a boolean is the boolean again.
/// The text is its name.
pub proof fn law_boolean_survives_as_text(b: bool)
    ensures
        coerce::coerced(Cast::ToString, JsonV::Bool(b)) == Some(JsonV::String(spelled(b))),
        coerce::coerced(Cast::ToBoolean, JsonV::String(spelled(b))) == Some(JsonV::Bool(b)),
{
    lemma_spelled();
    lemma_lengths(spelled(b));
}

/// Two different booleans have different texts, and different numbers.
pub proof fn law_booleans_stay_apart(a: bool, b: bool)
    ensures
        a != b ==> coerce::coerced(Cast::ToString, JsonV::Bool(a)) != coerce::coerced(
            Cast::ToString,
            JsonV::Bool(b),
        ),
        a != b ==> coerce::coerced(Cast::ToNumber, JsonV::Bool(a)) != coerce::coerced(
            Cast::ToNumber,
            JsonV::Bool(b),
        ),
{
    lemma_spelled();
    lemma_lengths(spelled(a));
    lemma_lengths(spelled(b));
    assert(counted(true)[0] == '1');
    assert(counted(false)[0] == '0');
}

/// A text is a boolean exactly if it is its name or its digit; no other text is
/// one.
pub proof fn law_text_of_a_boolean(s: Seq<char>, b: bool)
    ensures
        coerce::coerced(Cast::ToBoolean, JsonV::String(s)) == Some(JsonV::Bool(b)) <==> s
            == spelled(b) || s == bit(b),
        coerce::coerced(Cast::ToBoolean, JsonV::String(s)) is None <==> s != spelled(true) && s
            != spelled(false) && s != bit(true) && s != bit(false),
{
    lemma_spelled();
    lemma_lengths(s);
}

/// A boolean cast to a number is one or nought. The number cast back is the
/// boolean, where reading one and nought as numbers gives one and nought.
pub proof fn law_boolean_survives_as_number(b: bool)
    ensures
        coerce::coerced(Cast::ToNumber, JsonV::Bool(b)) == Some(
            JsonV::Number(NumberV::Float(counted(b))),
        ),
        number::double_form(counted(b)) == Some(bit(b)) ==> coerce::coerced(
            Cast::ToBoolean,
            JsonV::Number(NumberV::Float(counted(b))),
        ) == Some(JsonV::Bool(b)),
{
    lemma_spelled();
    lemma_lengths(bit(b));
    assert(seq!['-', '0'].len() == 2);
}

/// A number is false exactly if its double-precision reading is nought, of
/// either sign.
pub proof fn law_only_nought_is_false(n: NumberV)
    ensures
        coerce::coerced(Cast::ToBoolean, JsonV::Number(n)) == Some(
            JsonV::Bool(
                number::double_form(number::number_text(n)) != Some(seq!['0'])
                    && number::double_form(number::number_text(n)) != Some(seq!['-', '0']),
            ),
        ),
{
    lemma_spelled();
}

/// The decimal form of a 64-bit integer stands for the integer.
pub proof fn law_int64_text_has_its_value(i: i64)
    ensures
        text::int64_value(text::dec_int(i as int)) == Some(i as int),
{
    let s = text::dec_int(i as int);
    if i < 0 {
        let d = text::dec((-(i as int)) as nat);
        numbering::lemma_dec((-(i as int)) as nat);
        assert(s.skip(1) =~= d);
        assert(s[0] == '-');
    } else {
        numbering::lemma_dec(i as nat);
        assert(numbering::is_digit(s[0]));
    }
}

/// A 64-bit integer cast to text, or to a 64-bit integer, is text that stands
/// for the integer. The text cast to a 64-bit integer is itself.
pub proof fn law_int64_survives_as_text(i: i64)
    ensures
        ({
            let s = text::dec_int(i as int);
            &&& text::int64_value(s) == Some(i as int)
            &&& coerce::coerced(Cast::ToInt64, JsonV::Number(number::number_of(i))) == Some(
                JsonV::String(s),
            )
            &&& coerce::coerced(Cast::ToString, JsonV::Number(number::number_of(i))) == Some(
                JsonV::String(s),
            )
            &&& coerce::coerced(Cast::ToInt64, JsonV::String(s)) == Some(JsonV::String(s))
        }),
{
    law_int64_text_has_its_value(i);
}

/// A text is cast to a 64-bit integer exactly if it stands for one, and keeps
/// its value.
pub proof fn law_cast_to_int64_keeps_value(s: Seq<char>)
    ensures
        coerce::coerced(Cast::ToInt64, JsonV::String(s)) is Some <==> text::int64_value(s) is Some,
        coerce::coerced(Cast::ToInt64, JsonV::String(s)) matches Some(v) ==> v matches JsonV::String(
            t,
        ) && text::int64_value(t) == text::int64_value(s),
{
    if let Some(i) = text::int64_value(s) {
        law_int64_text_has_its_value(i as i64);
    }
}

/// A number is cast to a 64-bit integer exactly if it is written as an integer
/// within the range, and keeps its value.
pub proof fn law_integer_number_keeps_value(n: NumberV)
    ensures
        coerce::coerced(Cast::ToInt64, JsonV::Number(n)) is Some <==> (match n {
            NumberV::PosInt(u) => u <= i64::MAX,
            NumberV::NegInt(_) => true,
            NumberV::Float(_) => false,
        }),
        coerce::coerced(Cast::ToInt64, JsonV::Number(n)) matches Some(v) ==> v matches JsonV::String(
            t,
        ) && text::int64_value(t) == Some(
            match n {
                NumberV::PosInt(u) => u as int,
                NumberV::NegInt(i) => i as int,
                NumberV::Float(_) => 0,
            },
        ),
{
    match n {
        NumberV::PosInt(u) => {
            if u <= i64::MAX {
                law_int64_text_has_its_value(u as i64);
            }
        },
        NumberV::NegInt(i) => {
            law_int64_text_has_its_value(i);
        },
        NumberV::Float(_) => {},
    }
}

/// A value that is cast already is left as it is by the same cast: text is text,
/// a number is a number, the text of a 64-bit integer is that text.
pub proof fn law_cast_is_settled_by_once(cast: Cast, v: JsonV)
    requires
        !(cast is ToBoolean),
        coerce::coerced(cast, v) is Some,
    ensures
        coerce::coerced(cast, coerce::coerced(cast, v)->0) == coerce::coerced(cast, v),
        cast is ToString && v is String ==> coerce::coerced(cast, v) == Some(v),
        cast is ToNumber && v is Number ==> coerce::coerced(cast, v) == Some(v),
{
    if cast is ToInt64 {
        match v {
            JsonV::String(s) => {
                law_int64_text_has_its_value(text::int64_value(s)->0 as i64);
            },
            JsonV::Number(n) => {
                law_int64_text_has_its_value(number::int64_of(n)->0);
            },
            _ => {},
        }
    }
}

/// A row whose value the cast applies to is converted, whatever the default; only
/// a row whose value it does not apply to takes the default.
pub proof fn law_default_is_for_the_rest(
    table: Seq<char>,
    id: Seq<char>,
    cast: Cast,
    value: JsonV,
    shown: Seq<char>,
    default: Option<JsonV>,
)
    ensures
        coerce::coerced(cast, value) matches Some(v) ==> coerce::recast(
            table,
            id,
            cast,
            value,
            shown,
            default,
        ) == Ok::<JsonV, ErrorV>(v),
        coerce::coerced(cast, value) is None && default is Some ==> coerce::recast(
            table,
            id,
            cast,
            value,
            shown,
            default,
        ) == coerce::recast(table, id, cast, default->0, shown, default),
        coerce::recast(table, id, cast, value, shown, default) is Err <==> coerce::coerced(
            cast,
            value,
        ) is None && default is None,
{
}

} // verus!
