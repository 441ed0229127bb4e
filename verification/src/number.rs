//! Numbers as text: integer conversions, and the double-precision reading of a
//! JSON number that `serde_json` provides.
#[allow(unused_imports)]
use vstd::prelude::*;
#[allow(unused_imports)]
use vstd::string::*;

use crate::json::{JsonNumber, NumberV};
use crate::text;
use crate::text::{dec_i64, dec_u64, same};

verus! {

/// How two numbers compare.
#[derive(Debug, Clone, Copy, PartialEq, Eq, Structural)]
pub enum Sign {
    Less,
    Equal,
    Greater,
}

/// The decimal form of the double-precision number nearest to the number that a
/// text stands for; none where the text stands for no finite number.
pub uninterp spec fn double_form(number: Seq<char>) -> Option<Seq<char>>;

/// How the double-precision readings of two texts compare; none where one of the
/// texts stands for no finite number.
pub uninterp spec fn double_order(a: Seq<char>, b: Seq<char>) -> Option<Sign>;

/// The JSON number text of the double-precision number a text stands for; none
/// where the text stands for no finite number.
pub uninterp spec fn double_parsed(text: Seq<char>) -> Option<Seq<char>>;

/// `serde_json::Number::from_f64` on the number that the text parses to, read by
/// its `as_f64` and rendered by `Display`. The result is named, not described: it
/// is a function of the text.
#[verifier::external_body]
pub(crate) fn double_text(number: &str) -> (r: Option<String>)
    ensures
        text::opt_str(r) == double_form(number@),
{
    let n = serde_json::Number::from_f64(number.parse().ok()?)?;
    n.as_f64().map(|x| x.to_string())
}

/// `serde_json::Number::from_f64` on the numbers that the texts parse to, read by
/// `as_f64` and compared by `partial_cmp`. The result is named, not described: it
/// is a function of the two texts.
#[verifier::external_body]
pub(crate) fn compare_doubles(a: &str, b: &str) -> (r: Option<Sign>)
    ensures
        r == double_order(a@, b@),
{
    let x = serde_json::Number::from_f64(a.parse().ok()?)?;
    let y = serde_json::Number::from_f64(b.parse().ok()?)?;
    match x.as_f64().partial_cmp(&y.as_f64())? {
        std::cmp::Ordering::Less => Some(Sign::Less),
        std::cmp::Ordering::Equal => Some(Sign::Equal),
        std::cmp::Ordering::Greater => Some(Sign::Greater),
    }
}

/// `serde_json::Number::from_f64` on the number that the text parses to, as the
/// text of the JSON number. The result is named, not described: it is a
/// function of the text.
#[verifier::external_body]
pub(crate) fn parse_double(text: &str) -> (r: Option<String>)
    ensures
        text::opt_str(r) == double_parsed(text@),
{
    let n = serde_json::Number::from_f64(text.parse().ok()?)?;
    Some(n.to_string())
}

/// The text of a JSON number.
pub open spec fn number_text(n: NumberV) -> Seq<char> {
    match n {
        NumberV::PosInt(u) => text::dec(u as nat),
        NumberV::NegInt(i) => text::dec_int(i as int),
        NumberV::Float(s) => s,
    }
}

/// The 64-bit signed integer a number is, where it is one.
pub open spec fn int64_of(n: NumberV) -> Option<i64> {
    match n {
        NumberV::PosInt(u) => if u <= i64::MAX {
            Some(u as i64)
        } else {
            None
        },
        NumberV::NegInt(i) => Some(i),
        NumberV::Float(_) => None,
    }
}

/// The number of a 64-bit signed integer.
pub open spec fn number_of(i: i64) -> NumberV {
    if i >= 0 {
        NumberV::PosInt(i as u64)
    } else {
        NumberV::NegInt(i)
    }
}

/// Whether the double-precision reading of the number is zero.
pub open spec fn reads_as_zero(n: NumberV) -> bool {
    double_form(number_text(n)) == Some("0"@) || double_form(number_text(n)) == Some("-0"@)
}

impl JsonNumber {
    /// The text of the number.
    pub fn to_text(&self) -> (s: String)
        ensures
            s@ == number_text(self@),
    {
        match self {
            JsonNumber::PosInt(n) => dec_u64(*n),
            JsonNumber::NegInt(n) => dec_i64(*n),
            JsonNumber::Float(s) => s.clone(),
        }
    }

    /// The 64-bit signed integer the number is, where it is one.
    pub fn as_i64(&self) -> (r: Option<i64>)
        ensures
            r == int64_of(self@),
    {
        match self {
            JsonNumber::PosInt(n) => {
                if *n <= i64::MAX as u64 {
                    Some(*n as i64)
                } else {
                    None
                }
            },
            JsonNumber::NegInt(n) => Some(*n),
            JsonNumber::Float(_) => None,
        }
    }

    /// The number of a 64-bit signed integer.
    pub fn from_i64(i: i64) -> (r: JsonNumber)
        ensures
            r@ == number_of(i),
    {
        if i >= 0 {
            JsonNumber::PosInt(i as u64)
        } else {
            JsonNumber::NegInt(i)
        }
    }

    /// Whether the double-precision reading of the number is zero.
    pub fn is_zero(&self) -> (r: bool)
        ensures
            r == reads_as_zero(self@),
    {
        match double_text(self.to_text().as_str()) {
            Some(s) => same(s.as_str(), "0") || same(s.as_str(), "-0"),
            None => false,
        }
    }
}

} // verus!
