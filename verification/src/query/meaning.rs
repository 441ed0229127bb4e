//! The meaning of statement text: what a row must be to meet a condition.
//!
//! A condition has a text and a value on a row. The value is unknown where the
//! row has nothing to compare, and a row is selected where the value is true.
#[allow(unused_imports)]
use vstd::prelude::*;

use crate::dsl::{BindV, FilterV, Rel};
use crate::json;
use crate::json::JsonV;
use crate::migrate::casts;
use crate::number;
use crate::number::Sign;
use crate::query::filter::FilterUse;
use crate::schema;
use crate::schema::{TableV, TypeV};
use crate::text;

verus! {

/// A comparison between what a row holds and a bound value.
pub enum Op {
    Equal,
    Unequal,
    Above,
    AtLeast,
    Below,
    AtMost,
}

/// The text of a comparison, by its characters.
pub open spec fn op_text(op: Op) -> Seq<char> {
    match op {
        Op::Equal => seq!['='],
        Op::Unequal => seq!['<', '>'],
        Op::Above => seq!['>'],
        Op::AtLeast => seq!['>', '='],
        Op::Below => seq!['<'],
        Op::AtMost => seq!['<', '='],
    }
}

/// A comparison holds where what a row holds compares with the bound value like
/// this.
pub open spec fn op_holds(op: Op, s: Sign) -> bool {
    match op {
        Op::Equal => s == Sign::Equal,
        Op::Unequal => s != Sign::Equal,
        Op::Above => s == Sign::Greater,
        Op::AtLeast => s != Sign::Less,
        Op::Below => s == Sign::Less,
        Op::AtMost => s != Sign::Greater,
    }
}

/// What a condition reads of a row: a column, or a field of the document as
/// text, as a number or as a boolean.
pub enum Term {
    Column(Seq<char>),
    Text(Seq<char>),
    Number(Seq<char>),
    Boolean(Seq<char>),
}

/// The text of a name.
pub open spec fn name_text(name: Seq<char>) -> Seq<char> {
    "\""@ + name + "\""@
}

/// The text of a term.
pub open spec fn term_text(t: Term) -> Seq<char> {
    match t {
        Term::Column(name) => name_text(name),
        Term::Text(field) => "(doc->>'"@ + field + "')"@,
        Term::Number(field) => "(doc->>'"@ + field + "')::float8"@,
        Term::Boolean(field) => "(doc->>'"@ + field + "')::boolean"@,
    }
}

/// The text of the bound value with a number.
pub open spec fn bound_text(n: nat) -> Seq<char> {
    "$"@ + text::dec(n)
}

/// The texts of bound values with consecutive numbers.
pub open spec fn bound_texts(from: nat, count: nat) -> Seq<Seq<char>> {
    Seq::new(count, |i: int| bound_text((from + i) as nat))
}

/// A condition.
pub enum Cond {
    /// Never holds.
    Never,
    /// A term compares with the bound value.
    Compare(Term, Op, nat),
    /// A term is among the bound values from a number on, so many of them.
    Among(Term, nat, nat),
    /// A field of the document holds the bound text as an element.
    Holds(Seq<char>, nat),
    /// A field of the document is there and is not null.
    Present(Seq<char>),
    /// A column holds nothing.
    Empty(Seq<char>),
    /// A column holds something.
    Filled(Seq<char>),
    /// A column matches the bound text as a query in a language.
    Matches(Seq<char>, Option<Seq<char>>, nat),
    /// A column is like the bound pattern, whatever the case of letters.
    Like(Seq<char>, nat),
    /// All of the conditions hold.
    All(Seq<Cond>),
    /// One of the conditions holds.
    Any(Seq<Cond>),
    /// The condition does not hold.
    Untrue(Box<Cond>),
    /// The condition, in brackets.
    Grouped(Box<Cond>),
}

/// The text of a query in a language.
pub open spec fn query_text(language: Option<Seq<char>>, n: nat) -> Seq<char> {
    match language {
        Some(lang) => "websearch_to_tsquery('"@ + lang + "'::regconfig, "@ + bound_text(n) + ")"@,
        None => "websearch_to_tsquery("@ + bound_text(n) + ")"@,
    }
}

/// The text of a condition.
pub open spec fn cond_text(c: Cond) -> Seq<char>
    decreases c,
{
    match c {
        Cond::Never => "FALSE"@,
        Cond::Compare(t, op, n) => term_text(t) + " "@ + op_text(op) + " "@ + bound_text(n),
        Cond::Among(t, from, count) => term_text(t) + " IN ("@ + text::joined(
            bound_texts(from, count),
            ", "@,
        ) + ")"@,
        Cond::Holds(field, n) => "(doc->'"@ + field + "')"@ + " ? "@ + bound_text(n),
        Cond::Present(field) => "(doc ? '"@ + field + "' AND doc->>'"@ + field + "' IS NOT NULL)"@,
        Cond::Empty(name) => name_text(name) + " IS NULL"@,
        Cond::Filled(name) => name_text(name) + " IS NOT NULL"@,
        Cond::Matches(name, language, n) => name_text(name) + " @@ "@ + query_text(language, n),
        Cond::Like(name, n) => name_text(name) + " ILIKE "@ + bound_text(n),
        Cond::All(cs) => "("@ + text::joined(cond_texts(cs), " AND "@) + ")"@,
        Cond::Any(cs) => "("@ + text::joined(cond_texts(cs), " OR "@) + ")"@,
        Cond::Untrue(d) => "NOT COALESCE(("@ + cond_text(*d) + "), FALSE)"@,
        Cond::Grouped(d) => "("@ + cond_text(*d) + ")"@,
    }
}

/// The texts of conditions.
pub open spec fn cond_texts(cs: Seq<Cond>) -> Seq<Seq<char>>
    decreases cs,
{
    if cs.len() == 0 {
        Seq::empty()
    } else {
        cond_texts(cs.drop_last()).push(cond_text(cs.last()))
    }
}

/// A row: its document, what its typed columns hold, which of its columns hold
/// something, which of them match a text as a query in a language, when a text is
/// like a pattern, and how a container in the document is shown as text.
pub struct Row {
    pub doc: JsonV,
    pub cells: spec_fn(Seq<char>) -> Option<BindV>,
    pub filled: spec_fn(Seq<char>) -> bool,
    pub matches: spec_fn((Seq<char>, Option<Seq<char>>, Seq<char>)) -> Option<bool>,
    pub like: spec_fn((Seq<char>, Seq<char>)) -> bool,
    pub shown: spec_fn(JsonV) -> Seq<char>,
}

/// The field of a document, where it is there and is not null.
pub open spec fn stored(doc: JsonV, field: Seq<char>) -> Option<JsonV> {
    match json::field_of(doc, field) {
        Some(JsonV::Null) => None,
        x => x,
    }
}

/// A stored value as text.
pub open spec fn as_text(x: JsonV, shown: spec_fn(JsonV) -> Seq<char>) -> Seq<char> {
    match x {
        JsonV::String(s) => s,
        JsonV::Number(n) => number::number_text(n),
        JsonV::Bool(b) => if b {
            "true"@
        } else {
            "false"@
        },
        _ => shown(x),
    }
}

/// The text of the number that a stored value is; none where it is none, and a
/// statement that reads it as one is refused.
pub open spec fn as_number(x: JsonV) -> Option<Seq<char>> {
    match x {
        JsonV::String(s) => Some(s),
        JsonV::Number(n) => Some(number::number_text(n)),
        _ => None,
    }
}

/// The 64-bit integer that a value is, as a number or as decimal text.
pub open spec fn as_int(x: JsonV) -> Option<int> {
    match x {
        JsonV::String(s) => text::int64_value(s),
        JsonV::Number(n) => match number::int64_of(n) {
            Some(i) => Some(i as int),
            None => None,
        },
        _ => None,
    }
}

/// How two texts compare.
pub open spec fn text_order(a: Seq<char>, b: Seq<char>) -> Sign {
    if a == b {
        Sign::Equal
    } else if text::chars_lt(a, b) {
        Sign::Less
    } else {
        Sign::Greater
    }
}

/// How two booleans compare: false comes before true.
pub open spec fn bool_order(a: bool, b: bool) -> Sign {
    if a == b {
        Sign::Equal
    } else if b {
        Sign::Less
    } else {
        Sign::Greater
    }
}

/// How two integers compare.
pub open spec fn int_order(a: int, b: int) -> Sign {
    if a == b {
        Sign::Equal
    } else if a < b {
        Sign::Less
    } else {
        Sign::Greater
    }
}

/// How two cells compare; unknown where they are of different kinds.
pub open spec fn cell_order(a: BindV, b: BindV) -> Option<Sign> {
    match (a, b) {
        (BindV::Text(x), BindV::Text(y)) => Some(text_order(x, y)),
        (BindV::Num(x), BindV::Num(y)) => number::double_order(
            number::number_text(x),
            number::number_text(y),
        ),
        (BindV::Bool(x), BindV::Bool(y)) => Some(bool_order(x, y)),
        (BindV::I64(x), BindV::I64(y)) => Some(int_order(x as int, y as int)),
        _ => None,
    }
}

/// How a term of a row compares with a bound value; unknown where the row holds
/// nothing to compare.
pub open spec fn term_order(t: Term, row: Row, b: BindV) -> Option<Sign> {
    match t {
        Term::Column(name) => match (row.cells)(name) {
            Some(x) => cell_order(x, b),
            None => None,
        },
        Term::Text(field) => match (stored(row.doc, field), b) {
            (Some(x), BindV::Text(y)) => Some(text_order(as_text(x, row.shown), y)),
            _ => None,
        },
        Term::Number(field) => match (stored(row.doc, field), b) {
            (Some(x), BindV::Num(y)) => match as_number(x) {
                Some(s) => number::double_order(s, number::number_text(y)),
                None => None,
            },
            _ => None,
        },
        Term::Boolean(field) => match (stored(row.doc, field), b) {
            (Some(JsonV::Bool(x)), BindV::Bool(y)) => Some(bool_order(x, y)),
            _ => None,
        },
    }
}

/// Whether one of several comparisons is of equals: unknown where none is known
/// to be and one is unknown.
pub open spec fn membership(orders: Seq<Option<Sign>>) -> Option<bool> {
    if orders.contains(Some(Sign::Equal)) {
        Some(true)
    } else if orders.contains(None) {
        None
    } else {
        Some(false)
    }
}

/// A value holds a text as an element: an array one of its items, an object one
/// of its keys, a text itself.
pub open spec fn holds_text(x: JsonV, s: Seq<char>) -> bool {
    match x {
        JsonV::Array(items) => items.contains(JsonV::String(s)),
        JsonV::Object(fields) => exists|i: int|
            0 <= i < fields.len() && (#[trigger] fields[i]).0 == s,
        JsonV::String(y) => y == s,
        _ => false,
    }
}

/// The conjunction of two values: false beats the unknown.
pub open spec fn both(a: Option<bool>, b: Option<bool>) -> Option<bool> {
    if a == Some(false) || b == Some(false) {
        Some(false)
    } else if a == Some(true) && b == Some(true) {
        Some(true)
    } else {
        None
    }
}

/// The disjunction of two values: true beats the unknown.
pub open spec fn either(a: Option<bool>, b: Option<bool>) -> Option<bool> {
    if a == Some(true) || b == Some(true) {
        Some(true)
    } else if a == Some(false) && b == Some(false) {
        Some(false)
    } else {
        None
    }
}

/// The bound value with a number, numbers counting from one.
pub open spec fn bound(env: Seq<BindV>, n: nat) -> BindV {
    env[n - 1]
}

/// The value of a condition on a row, with bound values.
pub open spec fn cond_value(c: Cond, row: Row, env: Seq<BindV>) -> Option<bool>
    decreases c,
{
    match c {
        Cond::Never => Some(false),
        Cond::Compare(t, op, n) => match term_order(t, row, bound(env, n)) {
            Some(s) => Some(op_holds(op, s)),
            None => None,
        },
        Cond::Among(t, from, count) => membership(
            Seq::new(count, |i: int| term_order(t, row, bound(env, (from + i) as nat))),
        ),
        Cond::Holds(field, n) => match (json::field_of(row.doc, field), bound(env, n)) {
            (Some(x), BindV::Text(s)) => Some(holds_text(x, s)),
            _ => None,
        },
        Cond::Present(field) => Some(stored(row.doc, field) is Some),
        Cond::Empty(name) => Some(!(row.filled)(name)),
        Cond::Filled(name) => Some((row.filled)(name)),
        Cond::Matches(name, language, n) => match bound(env, n) {
            BindV::Text(s) => (row.matches)((name, language, s)),
            _ => None,
        },
        Cond::Like(name, n) => match ((row.cells)(name), bound(env, n)) {
            (Some(BindV::Text(x)), BindV::Text(pattern)) => Some((row.like)((x, pattern))),
            _ => None,
        },
        Cond::All(cs) => all_value(cs, row, env),
        Cond::Any(cs) => any_value(cs, row, env),
        Cond::Untrue(d) => Some(cond_value(*d, row, env) != Some(true)),
        Cond::Grouped(d) => cond_value(*d, row, env),
    }
}

/// The value of a conjunction.
pub open spec fn all_value(cs: Seq<Cond>, row: Row, env: Seq<BindV>) -> Option<bool>
    decreases cs,
{
    if cs.len() == 0 {
        Some(true)
    } else {
        both(all_value(cs.drop_last(), row, env), cond_value(cs.last(), row, env))
    }
}

/// The value of a disjunction.
pub open spec fn any_value(cs: Seq<Cond>, row: Row, env: Seq<BindV>) -> Option<bool>
    decreases cs,
{
    if cs.len() == 0 {
        Some(false)
    } else {
        either(any_value(cs.drop_last(), row, env), cond_value(cs.last(), row, env))
    }
}

/// The cell that a field of a declared type is kept in.
pub open spec fn cell_of(ty: TypeV, x: Option<JsonV>) -> Option<BindV> {
    match (schema::base_type(ty), x) {
        (TypeV::String, Some(JsonV::String(s))) => Some(BindV::Text(s)),
        (TypeV::Id(_, _), Some(JsonV::String(s))) => Some(BindV::Text(s)),
        (TypeV::Bytes, Some(JsonV::String(s))) => Some(BindV::Text(s)),
        (TypeV::Number, Some(JsonV::Number(n))) => Some(BindV::Num(n)),
        (TypeV::Int64, Some(y)) => match as_int(y) {
            Some(i) => Some(BindV::I64(i as i64)),
            None => None,
        },
        (TypeV::Boolean, Some(JsonV::Bool(b))) => Some(BindV::Bool(b)),
        _ => None,
    }
}

/// The typed columns of a row hold what its document does.
pub open spec fn mirrors(row: Row, t: TableV) -> bool {
    forall|field: Seq<char>| #[trigger]
        t.fields.contains_key(field) && schema::is_index_field(t, field) ==> (row.cells)(
            schema::column(field),
        ) == cell_of(t.fields[field], stored(row.doc, field))
}

/// Values for the field are bound as integers.
pub open spec fn bound_as_int(t: TableV, field: Seq<char>) -> bool {
    schema::is_index_field(t, field) && schema::base_type(t.fields[field]) is Int64
}

/// How a field of a document compares with a value of a filter: as integers where
/// the field is an indexed one of these, else by the kind of the value.
pub open spec fn field_order(
    t: TableV,
    field: Seq<char>,
    doc: JsonV,
    v: JsonV,
    shown: spec_fn(JsonV) -> Seq<char>,
) -> Option<Sign> {
    match stored(doc, field) {
        None => None,
        Some(x) => if bound_as_int(t, field) {
            match (as_int(x), as_int(v)) {
                (Some(a), Some(b)) => Some(int_order(a, b)),
                _ => None,
            }
        } else if schema::is_index_field(t, field) {
            scalar_order(x, v)
        } else {
            match v {
                JsonV::String(s) => Some(text_order(as_text(x, shown), s)),
                JsonV::Number(n) => match as_number(x) {
                    Some(s) => number::double_order(s, number::number_text(n)),
                    None => None,
                },
                _ => scalar_order(x, v),
            }
        },
    }
}

/// How two values compare; unknown where they are of different kinds.
pub open spec fn scalar_order(a: JsonV, b: JsonV) -> Option<Sign> {
    match (a, b) {
        (JsonV::String(x), JsonV::String(y)) => Some(text_order(x, y)),
        (JsonV::Number(x), JsonV::Number(y)) => number::double_order(
            number::number_text(x),
            number::number_text(y),
        ),
        (JsonV::Bool(x), JsonV::Bool(y)) => Some(bool_order(x, y)),
        _ => None,
    }
}

/// A relation holds where a field compares with a value like this.
pub open spec fn rel_sign(rel: Rel, s: Sign) -> bool {
    match rel {
        Rel::Eq => s == Sign::Equal,
        Rel::Neq => s == Sign::Less || s == Sign::Greater,
        Rel::Gt => s == Sign::Greater,
        Rel::Gte => s == Sign::Greater || s == Sign::Equal,
        Rel::Lt => s == Sign::Less,
        Rel::Lte => s == Sign::Less || s == Sign::Equal,
    }
}

/// The values of a membership test without those that stand for a property that
/// the caller lacks.
pub open spec fn given(usage: FilterUse, vs: Seq<JsonV>) -> Seq<JsonV> {
    vs.filter(is_given(usage))
}

/// A value does not stand for a property that the caller lacks.
pub open spec fn is_given(usage: FilterUse) -> spec_fn(JsonV) -> bool {
    |v: JsonV| !(usage is Authorize && v is Null)
}

/// What a test of a filter says of a document. Unknown where the field is not
/// there. A test against a property that the caller lacks says no.
pub open spec fn test_value(
    f: FilterV,
    t: TableV,
    doc: JsonV,
    shown: spec_fn(JsonV) -> Seq<char>,
    usage: FilterUse,
) -> Option<bool> {
    match f {
        FilterV::Compare(rel, field, v) => if usage is Authorize && v is Null {
            Some(false)
        } else {
            match field_order(t, field, doc, v, shown) {
                Some(s) => Some(rel_sign(rel, s)),
                None => None,
            }
        },
        FilterV::In(field, vs) => membership(
            given(usage, vs).map(|i: int, v: JsonV| field_order(t, field, doc, v, shown)),
        ),
        FilterV::Contains(field, v) => if usage is Authorize && v is Null {
            Some(false)
        } else {
            match (json::field_of(doc, field), v) {
                (Some(x), JsonV::String(s)) => if bound_as_int(t, field) {
                    None
                } else {
                    Some(holds_text(x, s))
                },
                _ => None,
            }
        },
        FilterV::Exists(field) => Some(stored(doc, field) is Some),
        FilterV::OlderThan(field, ms) => match usage {
            FilterUse::Scan(clock) => match field_order(
                t,
                field,
                doc,
                JsonV::Number(number::number_of(clock.wrapping_sub(ms))),
                shown,
            ) {
                Some(s) => Some(s == Sign::Less),
                None => None,
            },
            _ => None,
        },
        _ => None,
    }
}

/// What the tests of filters say of the document of a row.
pub open spec fn row_tests(t: TableV, row: Row, usage: FilterUse) -> spec_fn(FilterV) -> Option<
    bool,
> {
    |g: FilterV| test_value(g, t, row.doc, row.shown, usage)
}

/// A value written out: text in quotes, its own quotes doubled; a boolean by its
/// name; a number in figures, or null where it is none.
pub open spec fn written(b: BindV) -> Seq<char> {
    match b {
        BindV::Text(s) => "'"@ + text::doubled(s) + "'"@,
        BindV::Bool(x) => casts::spelled(x),
        BindV::Num(n) => match number::double_form(number::number_text(n)) {
            Some(s) => s,
            None => "NULL"@,
        },
        BindV::I64(i) => text::dec_int(i as int),
    }
}

/// The text of a condition with its bound values written out.
pub open spec fn written_text(c: Cond, env: Seq<BindV>) -> Seq<char>
    decreases c,
{
    match c {
        Cond::Compare(t, op, n) => term_text(t) + " "@ + op_text(op) + " "@ + written(
            bound(env, n),
        ),
        Cond::Among(t, from, count) => term_text(t) + " IN ("@ + text::joined(
            Seq::new(count, |i: int| written(bound(env, (from + i) as nat))),
            ", "@,
        ) + ")"@,
        Cond::Holds(field, n) => "(doc->'"@ + field + "')"@ + " ? "@ + written(bound(env, n)),
        Cond::All(cs) => "("@ + text::joined(written_texts(cs, env), " AND "@) + ")"@,
        Cond::Any(cs) => "("@ + text::joined(written_texts(cs, env), " OR "@) + ")"@,
        Cond::Untrue(d) => "NOT COALESCE(("@ + written_text(*d, env) + "), FALSE)"@,
        Cond::Grouped(d) => "("@ + written_text(*d, env) + ")"@,
        _ => cond_text(c),
    }
}

/// The texts of conditions with their bound values written out.
pub open spec fn written_texts(cs: Seq<Cond>, env: Seq<BindV>) -> Seq<Seq<char>>
    decreases cs,
{
    if cs.len() == 0 {
        Seq::empty()
    } else {
        written_texts(cs.drop_last(), env).push(written_text(cs.last(), env))
    }
}

} // verus!
