//! Compilation of filters to statement text with numbered placeholders, or with
//! literals for predicates that are part of an index definition.
#[allow(unused_imports)]
use vstd::prelude::*;
#[allow(unused_imports)]
use vstd::string::*;

use crate::dsl;
use crate::dsl::{BindV, CtxV, EqBind, FilterExpr, FilterV, PrincipalCtx, Rel};
use crate::error;
use crate::error::{ErrorV, RtDbError};
use crate::json;
use crate::json::{Json, JsonNumber, JsonV};
use crate::number;
use crate::query::row_auth;
use crate::query::row_auth::{
    authorize_predicate_body, row_auth_enforced_uid, row_auth_predicate_body,
};
use crate::schema;
use crate::schema::{pg_col, FieldType, TableDef, TableV, TypeV};
use crate::text;
use crate::text::{cat2, cat3, cat5, double_quotes, join};

verus! {

/// The largest position a compilation may start numbering placeholders at.
pub const MAX_POSITION: u128 = 0xffff_ffff_ffff_ffff_0000_0000_0000_0000;

/// What a filter is compiled for.
#[derive(Debug, Clone, Copy, PartialEq, Eq, Structural)]
pub enum FilterUse {
    /// A read, where no relative time test is allowed.
    Read,
    /// A by-query scan at the given time.
    Scan(i64),
    /// The `authorize` predicate of a table without nulls of its own, resolved for
    /// a caller: a null stands for a property that the caller lacks.
    Authorize,
}

/// What a client filter is compiled for.
pub open spec fn client_use(now: Option<i64>) -> FilterUse {
    match now {
        Some(clock) => FilterUse::Scan(clock),
        None => FilterUse::Read,
    }
}

/// The value stands for a property that the caller lacks.
pub open spec fn lacking(usage: FilterUse, v: JsonV) -> bool {
    usage == FilterUse::Authorize && v == JsonV::Null
}

/// The placeholder with number `n`.
pub open spec fn placeholder(n: nat) -> Seq<char> {
    "$"@ + text::dec(n)
}

/// The `count` placeholders numbered from `from`.
pub open spec fn placeholders(from: nat, count: nat) -> Seq<Seq<char>> {
    Seq::new(count, |i: int| placeholder((from + i) as nat))
}

/// A name in double quotes.
pub open spec fn quoted(name: Seq<char>) -> Seq<char> {
    "\""@ + name + "\""@
}

/// The operator of a comparison.
pub open spec fn operator(rel: Rel) -> Seq<char> {
    match rel {
        Rel::Eq => "="@,
        Rel::Neq => "<>"@,
        Rel::Gt => ">"@,
        Rel::Gte => ">="@,
        Rel::Lt => "<"@,
        Rel::Lte => "<="@,
    }
}

fn operator_text(rel: Rel) -> (s: &'static str)
    ensures
        s@ == operator(rel),
{
    match rel {
        Rel::Eq => "=",
        Rel::Neq => "<>",
        Rel::Gt => ">",
        Rel::Gte => ">=",
        Rel::Lt => "<",
        Rel::Lte => "<=",
    }
}

/// The error for a field the table does not declare.
pub open spec fn unknown_field(field: Seq<char>) -> ErrorV {
    error::bad("filter references unknown field '"@ + field + "'"@)
}

fn unknown_field_error(field: &str) -> (e: RtDbError)
    ensures
        e@ == unknown_field(field@),
{
    RtDbError::bad_request(cat3("filter references unknown field '", field, "'"))
}

/// The typed bind of a value compared with an indexed field: text for strings,
/// ids and bytes, a number for numbers, an integer for integers given as a
/// number or as decimal text, a boolean for booleans.
pub open spec fn eq_bind(t: TypeV, v: JsonV) -> Result<BindV, ErrorV> {
    let mismatch: Result<BindV, ErrorV> = Err(
        error::bad("value does not match the type of the indexed field"@),
    );
    match (schema::base_type(t), v) {
        (TypeV::String, JsonV::String(s)) => Ok(BindV::Text(s)),
        (TypeV::Id(_, _), JsonV::String(s)) => Ok(BindV::Text(s)),
        (TypeV::Bytes, JsonV::String(s)) => Ok(BindV::Text(s)),
        (TypeV::Number, JsonV::Number(n)) => Ok(BindV::Num(n)),
        (TypeV::Int64, JsonV::Number(n)) => match number::int64_of(n) {
            Some(i) => Ok(BindV::I64(i)),
            None => mismatch,
        },
        (TypeV::Int64, JsonV::String(s)) => match text::int64_value(s) {
            Some(i) => Ok(BindV::I64(i as i64)),
            None => mismatch,
        },
        (TypeV::Boolean, JsonV::Bool(b)) => Ok(BindV::Bool(b)),
        _ => mismatch,
    }
}

/// Types a value for comparison with an indexed field.
pub fn eq_bind_for(t: &FieldType, v: &Json) -> (r: Result<EqBind, RtDbError>)
    ensures
        match eq_bind(t@, v@) {
            Ok(b) => r matches Ok(x) && x@ == b,
            Err(e) => r matches Err(x) && x@ == e,
        },
{
    match (t.base(), v) {
        (FieldType::String, Json::String(s)) => Ok(EqBind::Text(s.clone())),
        (FieldType::Id { .. }, Json::String(s)) => Ok(EqBind::Text(s.clone())),
        (FieldType::Bytes, Json::String(s)) => Ok(EqBind::Text(s.clone())),
        (FieldType::Number, Json::Number(n)) => Ok(EqBind::Num(n.copy())),
        (FieldType::Int64, Json::Number(n)) => match n.as_i64() {
            Some(i) => Ok(EqBind::I64(i)),
            None => Err(mismatch_error()),
        },
        (FieldType::Int64, Json::String(s)) => match text::parse_i64(s.as_str()) {
            Some(i) => Ok(EqBind::I64(i)),
            None => Err(mismatch_error()),
        },
        (FieldType::Boolean, Json::Bool(b)) => Ok(EqBind::Bool(*b)),
        _ => Err(mismatch_error()),
    }
}

fn mismatch_error() -> (e: RtDbError)
    ensures
        e@ == error::bad("value does not match the type of the indexed field"@),
{
    RtDbError::bad_request("value does not match the type of the indexed field".to_owned())
}

/// The value's kind can be compared with a field of the declared type.
pub open spec fn kind_matches(t: TypeV, v: JsonV) -> bool {
    match schema::base_type(t) {
        TypeV::String => v is String,
        TypeV::Id(_, _) => v is String,
        TypeV::Bytes => v is String,
        TypeV::Number => v is Number,
        TypeV::Int64 => v is Number,
        TypeV::Boolean => v is Bool,
        _ => v is String || v is Number || v is Bool,
    }
}

/// Rejects a value whose kind cannot be compared with the field's type.
fn validate_jsonb_comparison_value(field: &str, t: &FieldType, v: &Json) -> (r: Result<
    (),
    RtDbError,
>)
    ensures
        r is Ok <==> kind_matches(t@, v@),
        r matches Err(e) ==> e@ == kind_error(field@),
{
    let is_string = matches!(v, Json::String(_));
    let is_number = matches!(v, Json::Number(_));
    let is_bool = matches!(v, Json::Bool(_));
    let ok = match t.base() {
        FieldType::String | FieldType::Id { .. } | FieldType::Bytes => is_string,
        FieldType::Number | FieldType::Int64 => is_number,
        FieldType::Boolean => is_bool,
        _ => is_string || is_number || is_bool,
    };
    if ok {
        Ok(())
    } else {
        Err(
            RtDbError::bad_request(
                cat3(
                    "filter on field '",
                    field,
                    "' value kind does not match declared field type",
                ),
            ),
        )
    }
}

/// The error for a value of the wrong kind.
pub open spec fn kind_error(field: Seq<char>) -> ErrorV {
    error::bad("filter on field '"@ + field + "' value kind does not match declared field type"@)
}

/// The left-hand side and bind of a comparison on a field read from the
/// document.
pub open spec fn document_term(field: Seq<char>, v: JsonV) -> Result<(Seq<char>, BindV), ErrorV> {
    match v {
        JsonV::String(s) => Ok(("(doc->>'"@ + field + "')"@, BindV::Text(s))),
        JsonV::Number(n) => Ok(("(doc->>'"@ + field + "')::float8"@, BindV::Num(n))),
        JsonV::Bool(b) => Ok(("(doc->>'"@ + field + "')::boolean"@, BindV::Bool(b))),
        _ => Err(error::bad("filter value must be a string, number, or boolean"@)),
    }
}

fn jsonb_lhs_and_bind(field: &str, v: &Json) -> (r: Result<(String, EqBind), RtDbError>)
    ensures
        match document_term(field@, v@) {
            Ok(p) => r matches Ok(x) && x.0@ == p.0 && x.1@ == p.1,
            Err(e) => r matches Err(x) && x@ == e,
        },
{
    match v {
        Json::String(s) => Ok((cat3("(doc->>'", field, "')"), EqBind::Text(s.clone()))),
        Json::Number(n) => Ok((cat3("(doc->>'", field, "')::float8"), EqBind::Num(n.copy()))),
        Json::Bool(b) => Ok((cat3("(doc->>'", field, "')::boolean"), EqBind::Bool(*b))),
        _ => Err(
            RtDbError::bad_request("filter value must be a string, number, or boolean".to_owned()),
        ),
    }
}

/// The left-hand side and bind of a comparison: the typed column of an indexed
/// field, the document otherwise.
pub open spec fn field_term(field: Seq<char>, v: JsonV, t: TableV) -> Result<
    (Seq<char>, BindV),
    ErrorV,
> {
    if !t.fields.contains_key(field) {
        Err(unknown_field(field))
    } else if schema::is_index_field(t, field) {
        match eq_bind(t.fields[field], v) {
            Ok(b) => Ok((quoted(schema::column(field)), b)),
            Err(e) => Err(e),
        }
    } else if !kind_matches(t.fields[field], v) {
        Err(kind_error(field))
    } else {
        document_term(field, v)
    }
}

/// A name in double quotes.
pub fn quote(name: &str) -> (s: String)
    ensures
        s@ == quoted(name@),
{
    cat3("\"", name, "\"")
}

fn field_lhs_and_bind(field: &str, v: &Json, t: &TableDef) -> (r: Result<
    (String, EqBind),
    RtDbError,
>)
    ensures
        match field_term(field@, v@, t@) {
            Ok(p) => r matches Ok(x) && x.0@ == p.0 && x.1@ == p.1,
            Err(e) => r matches Err(x) && x@ == e,
        },
{
    let field_type = match t.fields.get(field) {
        Some(ft) => ft,
        None => {
            return Err(unknown_field_error(field));
        },
    };
    if t.is_indexed(field) {
        match eq_bind_for(field_type, v) {
            Ok(b) => Ok((quote(pg_col(field).as_str()), b)),
            Err(e) => Err(e),
        }
    } else {
        match validate_jsonb_comparison_value(field, field_type, v) {
            Ok(_) => jsonb_lhs_and_bind(field, v),
            Err(e) => Err(e),
        }
    }
}

/// The left-hand side of a membership or presence test.
pub open spec fn document_field(field: Seq<char>) -> Seq<char> {
    "(doc->'"@ + field + "')"@
}

fn jsonb_field_lhs(field: &str, t: &TableDef) -> (r: Result<String, RtDbError>)
    ensures
        r is Ok <==> t@.fields.contains_key(field@),
        r matches Ok(s) ==> s@ == document_field(field@),
        r matches Err(e) ==> e@ == unknown_field(field@),
{
    if t.fields.contains_key(field) {
        Ok(cat3("(doc->'", field, "')"))
    } else {
        Err(unknown_field_error(field))
    }
}

/// The error for a relative time test where no clock is given.
pub open spec fn relative_time_error() -> ErrorV {
    error::bad("olderThan filter is only allowed in a by-query filter"@)
}

/// The left-hand side and cutoff of a relative time test.
pub open spec fn older_than_term(field: Seq<char>, ms: i64, t: TableV, now: i64) -> Result<
    (Seq<char>, BindV),
    ErrorV,
> {
    let cutoff = now.wrapping_sub(ms);
    let indexed = schema::is_index_field(t, field);
    if !t.fields.contains_key(field) {
        Err(unknown_field(field))
    } else {
        match schema::base_type(t.fields[field]) {
            TypeV::Int64 => if indexed {
                Ok((quoted(schema::column(field)), BindV::I64(cutoff)))
            } else {
                Ok(("(doc->>'"@ + field + "')::float8"@, BindV::Num(number::number_of(cutoff))))
            },
            TypeV::Number => Ok(
                (
                    if indexed {
                        quoted(schema::column(field))
                    } else {
                        "(doc->>'"@ + field + "')::float8"@
                    },
                    BindV::Num(number::number_of(cutoff)),
                ),
            ),
            _ => Err(
                error::bad(
                    "field '"@ + field + "' must be a number or int64 field for olderThan"@,
                ),
            ),
        }
    }
}

fn older_than_lhs_and_bind(field: &str, ms: i64, t: &TableDef, now: i64) -> (r: Result<
    (String, EqBind),
    RtDbError,
>)
    ensures
        match older_than_term(field@, ms, t@, now) {
            Ok(p) => r matches Ok(x) && x.0@ == p.0 && x.1@ == p.1,
            Err(e) => r matches Err(x) && x@ == e,
        },
{
    let field_type = match t.fields.get(field) {
        Some(ft) => ft,
        None => {
            return Err(unknown_field_error(field));
        },
    };
    let cutoff: i64 = now.wrapping_sub(ms);
    let indexed = t.is_indexed(field);
    let lhs = if indexed {
        quote(pg_col(field).as_str())
    } else {
        cat3("(doc->>'", field, "')::float8")
    };
    match field_type.base() {
        FieldType::Int64 => {
            if indexed {
                Ok((lhs, EqBind::I64(cutoff)))
            } else {
                Ok((lhs, EqBind::Num(JsonNumber::from_i64(cutoff))))
            }
        },
        FieldType::Number => Ok((lhs, EqBind::Num(JsonNumber::from_i64(cutoff)))),
        _ => Err(
            RtDbError::bad_request(
                cat3("field '", field, "' must be a number or int64 field for olderThan"),
            ),
        ),
    }
}

/// The common left-hand side and the binds of a membership test.
pub open spec fn in_terms(field: Seq<char>, values: Seq<JsonV>, t: TableV) -> Result<
    (Seq<char>, Seq<BindV>),
    ErrorV,
>
    decreases values.len(),
{
    if values.len() == 0 {
        Err(error::bad("in filter requires at least one value"@))
    } else if values.len() == 1 {
        match field_term(field, values[0], t) {
            Ok((lhs, b)) => Ok((lhs, seq![b])),
            Err(e) => Err(e),
        }
    } else {
        match in_terms(field, values.drop_last(), t) {
            Ok((lhs, binds)) => match field_term(field, values.last(), t) {
                Ok((other, b)) => if other != lhs {
                    Err(error::bad("in filter values must all be the same type"@))
                } else {
                    Ok((lhs, binds.push(b)))
                },
                Err(e) => Err(e),
            },
            Err(e) => Err(e),
        }
    }
}

/// Types the values of a membership test.
fn in_lhs_and_binds(field: &str, values: &Vec<Json>, t: &TableDef) -> (r: Result<
    (String, Vec<EqBind>),
    RtDbError,
>)
    ensures
        match in_terms(field@, json::json_views(values@), t@) {
            Ok(p) => r matches Ok(x) && x.0@ == p.0 && dsl::bind_views(x.1@) == p.1,
            Err(e) => r matches Err(x) && x@ == e,
        },
{
    let ghost vs = json::json_views(values@);
    if values.len() == 0 {
        return Err(RtDbError::bad_request("in filter requires at least one value".to_owned()));
    }
    let (lhs, first) = match field_lhs_and_bind(field, &values[0], t) {
        Ok(p) => p,
        Err(e) => {
            proof {
                lemma_in_terms_fail(field@, vs, t@, 1);
                assert(vs.take(1)[0] == vs[0]);
            }
            return Err(e);
        },
    };
    let mut binds: Vec<EqBind> = Vec::new();
    binds.push(first);
    let mut i: usize = 1;
    assert(vs.take(1)[0] == vs[0]);
    assert(dsl::bind_views(binds@) =~= seq![first@]);
    while i < values.len()
        invariant
            1 <= i <= values@.len(),
            vs == json::json_views(values@),
            in_terms(field@, vs.take(i as int), t@) == Ok::<(Seq<char>, Seq<BindV>), ErrorV>(
                (lhs@, dsl::bind_views(binds@)),
            ),
        decreases values@.len() - i,
    {
        assert(vs.take(i as int + 1).drop_last() =~= vs.take(i as int));
        assert(vs.take(i as int + 1).last() == vs[i as int]);
        match field_lhs_and_bind(field, &values[i], t) {
            Ok((other, b)) => {
                if other != lhs {
                    proof {
                        lemma_in_terms_fail(field@, vs, t@, i as int + 1);
                    }
                    return Err(
                        RtDbError::bad_request(
                            "in filter values must all be the same type".to_owned(),
                        ),
                    );
                }
                let ghost before = dsl::bind_views(binds@);
                binds.push(b);
                assert(dsl::bind_views(binds@) =~= before.push(b@));
            },
            Err(e) => {
                proof {
                    lemma_in_terms_fail(field@, vs, t@, i as int + 1);
                }
                return Err(e);
            },
        }
        i = i + 1;
    }
    assert(vs.take(values@.len() as int) =~= vs);
    Ok((lhs, binds))
}

/// A prefix that fails makes the whole membership test fail the same way.
proof fn lemma_in_terms_fail(field: Seq<char>, vs: Seq<JsonV>, t: TableV, n: int)
    requires
        1 <= n <= vs.len(),
        in_terms(field, vs.take(n), t) is Err,
    ensures
        in_terms(field, vs, t) == in_terms(field, vs.take(n), t),
    decreases vs.len(),
{
    if n == vs.len() {
        assert(vs.take(n) =~= vs);
    } else {
        assert(vs.drop_last().take(n) =~= vs.take(n));
        lemma_in_terms_fail(field, vs.drop_last(), t, n);
    }
}

/// The text of a conjunction or disjunction of compiled parts.
pub open spec fn connected(parts: Seq<Seq<char>>, joiner: Seq<char>) -> Seq<char> {
    "("@ + text::joined(parts, joiner) + ")"@
}

/// The statement text of a presence test.
pub open spec fn presence_test(field: Seq<char>) -> Seq<char> {
    "(doc ? '"@ + field + "' AND doc->>'"@ + field + "' IS NOT NULL)"@
}

/// The values that a membership test is made against: those that stand for a
/// property that the caller lacks are left out.
pub open spec fn at_hand(usage: FilterUse, values: Seq<JsonV>) -> Seq<JsonV>
    decreases values.len(),
{
    if values.len() == 0 {
        values
    } else if lacking(usage, values.last()) {
        at_hand(usage, values.drop_last())
    } else {
        at_hand(usage, values.drop_last()).push(values.last())
    }
}

/// Every value of a membership test stands for a property that the caller
/// lacks.
pub open spec fn all_lacking(usage: FilterUse, values: Seq<JsonV>) -> bool {
    values.len() > 0 && at_hand(usage, values).len() == 0
}

/// A test on a field that never holds.
pub open spec fn never(field: Seq<char>, t: TableV) -> Result<(Seq<char>, Seq<BindV>), ErrorV> {
    if t.fields.contains_key(field) {
        Ok(("FALSE"@, Seq::empty()))
    } else {
        Err(unknown_field(field))
    }
}

/// The statement text and the binds of a filter. Placeholders are numbered from
/// `start`, `used` of them being taken already.
pub open spec fn node_sql(f: FilterV, t: TableV, start: nat, used: nat, usage: FilterUse) -> Result<
    (Seq<char>, Seq<BindV>),
    ErrorV,
>
    decreases f,
{
    match f {
        FilterV::And(fs) => if fs.len() == 0 {
            Err(error::bad("and filter requires at least one expr"@))
        } else {
            match nodes_sql(fs, t, start, used, usage) {
                Ok((parts, binds)) => Ok((connected(parts, " AND "@), binds)),
                Err(e) => Err(e),
            }
        },
        FilterV::Or(fs) => if fs.len() == 0 {
            Err(error::bad("or filter requires at least one expr"@))
        } else {
            match nodes_sql(fs, t, start, used, usage) {
                Ok((parts, binds)) => Ok((connected(parts, " OR "@), binds)),
                Err(e) => Err(e),
            }
        },
        FilterV::Not(g) => match node_sql(*g, t, start, used, usage) {
            Ok((sql, binds)) => Ok(("NOT COALESCE(("@ + sql + "), FALSE)"@, binds)),
            Err(e) => Err(e),
        },
        FilterV::Compare(rel, field, v) => if lacking(usage, v) {
            never(field, t)
        } else {
            match field_term(field, v, t) {
                Ok((lhs, b)) => Ok(
                    (lhs + " "@ + operator(rel) + " "@ + placeholder(start + used), seq![b]),
                ),
                Err(e) => Err(e),
            }
        },
        FilterV::In(field, values) => if all_lacking(usage, values) {
            never(field, t)
        } else {
            match in_terms(field, at_hand(usage, values), t) {
                Ok((lhs, binds)) => Ok(
                    (
                        lhs + " IN ("@ + text::joined(
                            placeholders(start + used, binds.len()),
                            ", "@,
                        ) + ")"@,
                        binds,
                    ),
                ),
                Err(e) => Err(e),
            }
        },
        FilterV::Contains(field, v) => if lacking(usage, v) {
            never(field, t)
        } else {
            match field_term(field, v, t) {
                Ok((_, b)) => Ok(
                    (document_field(field) + " ? "@ + placeholder(start + used), seq![b]),
                ),
                Err(e) => Err(e),
            }
        },
        FilterV::Exists(field) => if t.fields.contains_key(field) {
            Ok((presence_test(field), Seq::empty()))
        } else {
            Err(unknown_field(field))
        },
        FilterV::OlderThan(field, ms) => match usage {
            FilterUse::Scan(clock) => match older_than_term(field, ms, t, clock) {
                Ok((lhs, b)) => Ok((lhs + " < "@ + placeholder(start + used), seq![b])),
                Err(e) => Err(e),
            },
            _ => Err(relative_time_error()),
        },
    }
}

/// The statement texts and the binds of several filters, each numbering its
/// placeholders behind those of the filters before it.
pub open spec fn nodes_sql(
    fs: Seq<FilterV>,
    t: TableV,
    start: nat,
    used: nat,
    usage: FilterUse,
) -> Result<(Seq<Seq<char>>, Seq<BindV>), ErrorV>
    decreases fs,
{
    if fs.len() == 0 {
        Ok((Seq::empty(), Seq::empty()))
    } else {
        match nodes_sql(fs.drop_last(), t, start, used, usage) {
            Ok((parts, binds)) => match node_sql(fs.last(), t, start, used + binds.len(), usage) {
                Ok((sql, more)) => Ok((parts.push(sql), binds + more)),
                Err(e) => Err(e),
            },
            Err(e) => Err(e),
        }
    }
}

/// A list whose prefix fails fails the same way.
proof fn lemma_nodes_fail(
    fs: Seq<FilterV>,
    t: TableV,
    start: nat,
    used: nat,
    usage: FilterUse,
    n: int,
)
    requires
        0 <= n <= fs.len(),
        nodes_sql(fs.take(n), t, start, used, usage) is Err,
    ensures
        nodes_sql(fs, t, start, used, usage) == nodes_sql(fs.take(n), t, start, used, usage),
    decreases fs.len(),
{
    if n == fs.len() {
        assert(fs.take(n) =~= fs);
    } else {
        assert(fs.drop_last().take(n) =~= fs.take(n));
        lemma_nodes_fail(fs.drop_last(), t, start, used, usage, n);
    }
}

/// The text of the placeholder `$n`.
pub fn placeholder_text(n: u128) -> (s: String)
    ensures
        s@ == placeholder(n as nat),
{
    cat2("$", text::dec_u128(n).as_str())
}

/// Adds a bind and gives its placeholder.
fn push_filter_bind(start_pos: u128, binds: &mut Vec<EqBind>, bind: EqBind) -> (s: String)
    requires
        start_pos <= MAX_POSITION,
    ensures
        s@ == placeholder((start_pos + old(binds)@.len()) as nat),
        final(binds)@ == old(binds)@.push(bind),
{
    let s = placeholder_text(start_pos + binds.len() as u128);
    binds.push(bind);
    s
}

/// Pushing one bind appends one view.
proof fn lemma_bind_push(v: Seq<EqBind>, b: EqBind)
    ensures
        dsl::bind_views(v.push(b)) == dsl::bind_views(v) + seq![b@],
{
    assert(dsl::bind_views(v.push(b)) =~= dsl::bind_views(v) + seq![b@]);
}

/// Adds the binds in order and gives their placeholders.
fn push_filter_binds(start_pos: u128, binds: &mut Vec<EqBind>, more: Vec<EqBind>) -> (r: Vec<
    String,
>)
    requires
        start_pos <= MAX_POSITION,
    ensures
        text::strs(r@) == placeholders((start_pos + old(binds)@.len()) as nat, more@.len()),
        dsl::bind_views(final(binds)@) == dsl::bind_views(old(binds)@) + dsl::bind_views(more@),
{
    let mut more = more;
    let ghost all = more@;
    let ghost from = (start_pos + binds@.len()) as nat;
    let mut texts: Vec<String> = Vec::new();
    let mut rest: Vec<EqBind> = Vec::new();
    // Reversed, so that the binds can be taken from the end in order.
    while more.len() > 0
        invariant
            rest@.len() + more@.len() == all.len(),
            more@ == all.take(more@.len() as int),
            forall|k: int| 0 <= k < rest@.len() ==> (#[trigger] rest@[k]) == all[all.len() - 1 - k],
        decreases more@.len(),
    {
        let ghost before = more@;
        match more.pop() {
            Some(b) => {
                assert(before.drop_last() =~= all.take(before.len() - 1));
                rest.push(b);
            },
            None => {},
        }
    }
    while rest.len() > 0
        invariant
            rest@.len() + texts@.len() == all.len(),
            binds@.len() == old(binds)@.len() + texts@.len(),
            start_pos <= MAX_POSITION,
            from == start_pos + old(binds)@.len(),
            forall|k: int| 0 <= k < rest@.len() ==> (#[trigger] rest@[k]) == all[all.len() - 1 - k],
            text::strs(texts@) == placeholders(from, texts@.len()),
            binds@ == old(binds)@ + all.take(texts@.len() as int),
        decreases rest@.len(),
    {
        let ghost done = texts@.len() as int;
        let ghost before = text::strs(texts@);
        let ghost last = rest@.last();
        match rest.pop() {
            Some(b) => {
                assert(last == all[done]);
                let s = push_filter_bind(start_pos, binds, b);
                texts.push(s);
                assert(text::strs(texts@) =~= before.push(s@));
                assert(placeholders(from, texts@.len()) =~= before.push(s@));
                assert(all.take(done + 1) =~= all.take(done).push(all[done]));
                assert(binds@ =~= old(binds)@ + all.take(done + 1));
            },
            None => {},
        }
    }
    assert(all.take(all.len() as int) =~= all);
    assert(dsl::bind_views(binds@) =~= dsl::bind_views(old(binds)@) + dsl::bind_views(all));
    texts
}

fn is_lacking(usage: FilterUse, v: &Json) -> (r: bool)
    ensures
        r == lacking(usage, v@),
{
    match (usage, v) {
        (FilterUse::Authorize, Json::Null) => true,
        _ => false,
    }
}

/// The values that a membership test is made against, and whether every one of
/// those given stands for a property that the caller lacks.
fn values_at_hand(usage: FilterUse, values: &Vec<Json>) -> (r: (Vec<Json>, bool))
    ensures
        json::json_views(r.0@) == at_hand(usage, json::json_views(values@)),
        r.1 == all_lacking(usage, json::json_views(values@)),
{
    let ghost vs = json::json_views(values@);
    let mut out: Vec<Json> = Vec::new();
    let mut i: usize = 0;
    assert(vs.take(0) =~= Seq::<JsonV>::empty());
    assert(json::json_views(out@) =~= at_hand(usage, vs.take(0)));
    while i < values.len()
        invariant
            i <= values@.len(),
            vs == json::json_views(values@),
            json::json_views(out@) == at_hand(usage, vs.take(i as int)),
        decreases values@.len() - i,
    {
        assert(vs.take(i as int + 1).drop_last() =~= vs.take(i as int));
        assert(vs.take(i as int + 1).last() == values@[i as int]@);
        let ghost before = json::json_views(out@);
        if !is_lacking(usage, &values[i]) {
            out.push(values[i].copy());
            assert(json::json_views(out@) =~= before.push(values@[i as int]@));
        }
        i = i + 1;
    }
    assert(vs.take(values@.len() as int) =~= vs);
    assert(at_hand(usage, vs).len() == out@.len());
    let none = values.len() > 0 && out.len() == 0;
    (out, none)
}

/// A test on a field that never holds. It has no binds.
fn never_text(field: &str, t: &TableDef, binds: &Vec<EqBind>) -> (r: Result<String, RtDbError>)
    ensures
        match never(field@, t@) {
            Ok(p) => r matches Ok(sql) && sql@ == p.0 && dsl::bind_views(binds@) + p.1
                == dsl::bind_views(binds@),
            Err(e) => r matches Err(x) && x@ == e,
        },
{
    assert(dsl::bind_views(binds@) + Seq::<BindV>::empty() =~= dsl::bind_views(binds@));
    if t.fields.contains_key(field) {
        Ok("FALSE".to_owned())
    } else {
        Err(unknown_field_error(field))
    }
}

/// Compiles several filters in order.
fn compile_filter_nodes(
    exprs: &Vec<FilterExpr>,
    table: &TableDef,
    start_pos: u128,
    binds: &mut Vec<EqBind>,
    usage: FilterUse,
) -> (r: Result<Vec<String>, RtDbError>)
    requires
        start_pos <= MAX_POSITION,
    ensures
        match nodes_sql(
            dsl::filter_views(exprs@),
            table@,
            start_pos as nat,
            old(binds)@.len(),
            usage,
        ) {
            Ok(p) => r matches Ok(parts) && text::strs(parts@) == p.0 && dsl::bind_views(
                final(binds)@,
            ) == dsl::bind_views(old(binds)@) + p.1,
            Err(e) => r matches Err(x) && x@ == e,
        },
    decreases exprs,
{
    let ghost fs = dsl::filter_views(exprs@);
    let ghost used = binds@.len();
    let ghost given = dsl::bind_views(binds@);
    let mut parts: Vec<String> = Vec::new();
    let ghost mut added: Seq<BindV> = Seq::empty();
    let mut i: usize = 0;
    assert(fs.take(0) =~= Seq::<FilterV>::empty());
    assert(text::strs(parts@) =~= Seq::<Seq<char>>::empty());
    assert(given + added =~= given);
    while i < exprs.len()
        invariant
            i <= exprs@.len(),
            fs == dsl::filter_views(exprs@),
            start_pos <= MAX_POSITION,
            nodes_sql(fs.take(i as int), table@, start_pos as nat, used, usage) == Ok::<
                (Seq<Seq<char>>, Seq<BindV>),
                ErrorV,
            >((text::strs(parts@), added)),
            dsl::bind_views(binds@) == given + added,
            given.len() == used,
            used == old(binds)@.len(),
        decreases exprs@.len() - i,
    {
        assert(decreases_to!(*exprs => exprs[i as int]));
        let ghost next = fs.take(i as int + 1);
        assert(next.drop_last() =~= fs.take(i as int));
        assert(next.last() == exprs@[i as int]@);
        assert(dsl::bind_views(binds@).len() == used + added.len());
        match compile_filter_node(&exprs[i], table, start_pos, binds, usage) {
            Ok(sql) => {
                proof {
                    let more = node_sql(
                        next.last(),
                        table@,
                        start_pos as nat,
                        used + added.len(),
                        usage,
                    )->Ok_0.1;
                    assert((given + added) + more =~= given + (added + more));
                    added = added + more;
                }
                let ghost before = text::strs(parts@);
                parts.push(sql);
                assert(text::strs(parts@) =~= before.push(sql@));
            },
            Err(e) => {
                proof {
                    lemma_nodes_fail(fs, table@, start_pos as nat, used, usage, i as int + 1);
                }
                return Err(e);
            },
        }
        i = i + 1;
    }
    assert(fs.take(exprs@.len() as int) =~= fs);
    Ok(parts)
}

/// Compiles a filter, adding its binds to `binds` and numbering placeholders
/// from `start_pos` by the position of each bind.
pub fn compile_filter_node(
    node: &FilterExpr,
    table: &TableDef,
    start_pos: u128,
    binds: &mut Vec<EqBind>,
    usage: FilterUse,
) -> (r: Result<String, RtDbError>)
    requires
        start_pos <= MAX_POSITION,
    ensures
        match node_sql(node@, table@, start_pos as nat, old(binds)@.len(), usage) {
            Ok(p) => r matches Ok(sql) && sql@ == p.0 && dsl::bind_views(final(binds)@)
                == dsl::bind_views(old(binds)@) + p.1,
            Err(e) => r matches Err(x) && x@ == e,
        },
    decreases node,
{
    broadcast use dsl::lemma_filter_view;

    if let Some((rel, field, value)) = node.comparison() {
        if is_lacking(usage, value) {
            return never_text(field.as_str(), table, binds);
        }
        return match field_lhs_and_bind(field.as_str(), value, table) {
            Ok((lhs, bind)) => {
                proof {
                    lemma_bind_push(binds@, bind);
                }
                let ph = push_filter_bind(start_pos, binds, bind);
                Ok(cat5(lhs.as_str(), " ", operator_text(rel), " ", ph.as_str()))
            },
            Err(e) => Err(e),
        };
    }
    match node {
        FilterExpr::And { exprs } => {
            if exprs.len() == 0 {
                return Err(
                    RtDbError::bad_request("and filter requires at least one expr".to_owned()),
                );
            }
            match compile_filter_nodes(exprs, table, start_pos, binds, usage) {
                Ok(parts) => Ok(cat3("(", join(&parts, " AND ").as_str(), ")")),
                Err(e) => Err(e),
            }
        },
        FilterExpr::Or { exprs } => {
            if exprs.len() == 0 {
                return Err(
                    RtDbError::bad_request("or filter requires at least one expr".to_owned()),
                );
            }
            match compile_filter_nodes(exprs, table, start_pos, binds, usage) {
                Ok(parts) => Ok(cat3("(", join(&parts, " OR ").as_str(), ")")),
                Err(e) => Err(e),
            }
        },
        FilterExpr::Not { expr } => match compile_filter_node(expr, table, start_pos, binds, usage) {
            Ok(sql) => Ok(cat3("NOT COALESCE((", sql.as_str(), "), FALSE)")),
            Err(e) => Err(e),
        },
        FilterExpr::In { field, values } => {
            let (values, lacking_all) = values_at_hand(usage, values);
            if lacking_all {
                return never_text(field.as_str(), table, binds);
            }
            match in_lhs_and_binds(field.as_str(), &values, table) {
                Ok((lhs, more)) => {
                    assert(dsl::bind_views(more@).len() == more@.len());
                    let texts = push_filter_binds(start_pos, binds, more);
                    Ok(text::cat4(lhs.as_str(), " IN (", join(&texts, ", ").as_str(), ")"))
                },
                Err(e) => Err(e),
            }
        },
        FilterExpr::Contains { field, value } => {
            if is_lacking(usage, value) {
                return never_text(field.as_str(), table, binds);
            }
            let lhs = match jsonb_field_lhs(field.as_str(), table) {
                Ok(lhs) => lhs,
                Err(e) => {
                    return Err(e);
                },
            };
            match field_lhs_and_bind(field.as_str(), value, table) {
                Ok((_, bind)) => {
                    proof {
                        lemma_bind_push(binds@, bind);
                    }
                    let ph = push_filter_bind(start_pos, binds, bind);
                    Ok(cat3(lhs.as_str(), " ? ", ph.as_str()))
                },
                Err(e) => Err(e),
            }
        },
        FilterExpr::Exists { field } => match jsonb_field_lhs(field.as_str(), table) {
            Ok(_) => {
                assert(dsl::bind_views(binds@) + Seq::<BindV>::empty() =~= dsl::bind_views(binds@));
                Ok(presence_text(field.as_str()))
            },
            Err(e) => Err(e),
        },
        FilterExpr::OlderThan { field, ms } => match usage {
            FilterUse::Scan(clock) => match older_than_lhs_and_bind(field.as_str(), *ms, table, clock) {
                Ok((lhs, bind)) => {
                    proof {
                        lemma_bind_push(binds@, bind);
                    }
                    let ph = push_filter_bind(start_pos, binds, bind);
                    Ok(cat3(lhs.as_str(), " < ", ph.as_str()))
                },
                Err(e) => Err(e),
            },
            _ => Err(relative_time_refused()),
        },
        _ => {
            assert(false);
            Ok(String::new())
        },
    }
}

fn presence_text(field: &str) -> (s: String)
    ensures
        s@ == presence_test(field@),
{
    cat5("(doc ? '", field, "' AND doc->>'", field, "' IS NOT NULL)")
}

fn relative_time_refused() -> (e: RtDbError)
    ensures
        e@ == relative_time_error(),
{
    RtDbError::bad_request("olderThan filter is only allowed in a by-query filter".to_owned())
}

/// The literal text of a bind. A number that does not read as one has no
/// literal, and stands as a null, which no comparison matches.
pub open spec fn literal(b: BindV) -> Seq<char> {
    match b {
        BindV::Text(s) => "'"@ + text::doubled(s) + "'"@,
        BindV::Bool(x) => if x {
            "true"@
        } else {
            "false"@
        },
        BindV::Num(n) => match number::double_form(number::number_text(n)) {
            Some(s) => s,
            None => "NULL"@,
        },
        BindV::I64(i) => text::dec_int(i as int),
    }
}

/// The literals of several binds.
pub open spec fn literals(bs: Seq<BindV>) -> Seq<Seq<char>> {
    Seq::new(bs.len(), |i: int| literal(bs[i]))
}

/// The literal text of a bind, with the quotes of a string doubled.
fn render_literal(bind: &EqBind) -> (s: String)
    ensures
        s@ == literal(bind@),
{
    match bind {
        EqBind::Text(s) => cat3("'", double_quotes(s.as_str()).as_str(), "'"),
        EqBind::Bool(b) => {
            if *b {
                "true".to_owned()
            } else {
                "false".to_owned()
            }
        },
        EqBind::Num(n) => match number::double_text(n.to_text().as_str()) {
            Some(s) => s,
            None => "NULL".to_owned(),
        },
        EqBind::I64(n) => text::dec_i64(*n),
    }
}

/// The statement text of a filter with literals in place of binds.
pub open spec fn literal_sql(f: FilterV, t: TableV) -> Result<Seq<char>, ErrorV>
    decreases f,
{
    match f {
        FilterV::And(fs) => if fs.len() == 0 {
            Err(error::bad("and filter requires at least one expr"@))
        } else {
            match literals_sql(fs, t) {
                Ok(parts) => Ok(connected(parts, " AND "@)),
                Err(e) => Err(e),
            }
        },
        FilterV::Or(fs) => if fs.len() == 0 {
            Err(error::bad("or filter requires at least one expr"@))
        } else {
            match literals_sql(fs, t) {
                Ok(parts) => Ok(connected(parts, " OR "@)),
                Err(e) => Err(e),
            }
        },
        FilterV::Not(g) => match literal_sql(*g, t) {
            Ok(sql) => Ok("NOT COALESCE(("@ + sql + "), FALSE)"@),
            Err(e) => Err(e),
        },
        FilterV::Compare(rel, field, v) => match field_term(field, v, t) {
            Ok((lhs, b)) => Ok(lhs + " "@ + operator(rel) + " "@ + literal(b)),
            Err(e) => Err(e),
        },
        FilterV::In(field, values) => match in_terms(field, values, t) {
            Ok((lhs, binds)) => Ok(
                lhs + " IN ("@ + text::joined(literals(binds), ", "@) + ")"@,
            ),
            Err(e) => Err(e),
        },
        FilterV::Contains(field, v) => match field_term(field, v, t) {
            Ok((_, b)) => Ok(document_field(field) + " ? "@ + literal(b)),
            Err(e) => Err(e),
        },
        FilterV::Exists(field) => if t.fields.contains_key(field) {
            Ok(presence_test(field))
        } else {
            Err(unknown_field(field))
        },
        FilterV::OlderThan(_, _) => Err(
            error::bad("olderThan filter is not allowed in a partial-index predicate"@),
        ),
    }
}

/// The statement texts of several filters with literals.
pub open spec fn literals_sql(fs: Seq<FilterV>, t: TableV) -> Result<Seq<Seq<char>>, ErrorV>
    decreases fs,
{
    if fs.len() == 0 {
        Ok(Seq::empty())
    } else {
        match literals_sql(fs.drop_last(), t) {
            Ok(parts) => match literal_sql(fs.last(), t) {
                Ok(sql) => Ok(parts.push(sql)),
                Err(e) => Err(e),
            },
            Err(e) => Err(e),
        }
    }
}

proof fn lemma_literals_fail(fs: Seq<FilterV>, t: TableV, n: int)
    requires
        0 <= n <= fs.len(),
        literals_sql(fs.take(n), t) is Err,
    ensures
        literals_sql(fs, t) == literals_sql(fs.take(n), t),
    decreases fs.len(),
{
    if n == fs.len() {
        assert(fs.take(n) =~= fs);
    } else {
        assert(fs.drop_last().take(n) =~= fs.take(n));
        lemma_literals_fail(fs.drop_last(), t, n);
    }
}

fn render_filter_literal_nodes(exprs: &Vec<FilterExpr>, table: &TableDef) -> (r: Result<
    Vec<String>,
    RtDbError,
>)
    ensures
        match literals_sql(dsl::filter_views(exprs@), table@) {
            Ok(p) => r matches Ok(parts) && text::strs(parts@) == p,
            Err(e) => r matches Err(x) && x@ == e,
        },
    decreases exprs,
{
    let ghost fs = dsl::filter_views(exprs@);
    let mut parts: Vec<String> = Vec::new();
    let mut i: usize = 0;
    assert(fs.take(0) =~= Seq::<FilterV>::empty());
    assert(text::strs(parts@) =~= Seq::<Seq<char>>::empty());
    while i < exprs.len()
        invariant
            i <= exprs@.len(),
            fs == dsl::filter_views(exprs@),
            literals_sql(fs.take(i as int), table@) == Ok::<Seq<Seq<char>>, ErrorV>(
                text::strs(parts@),
            ),
        decreases exprs@.len() - i,
    {
        assert(decreases_to!(*exprs => exprs[i as int]));
        let ghost next = fs.take(i as int + 1);
        assert(next.drop_last() =~= fs.take(i as int));
        assert(next.last() == exprs@[i as int]@);
        match render_filter_literal_node(&exprs[i], table) {
            Ok(sql) => {
                let ghost before = text::strs(parts@);
                parts.push(sql);
                assert(text::strs(parts@) =~= before.push(sql@));
            },
            Err(e) => {
                proof {
                    lemma_literals_fail(fs, table@, i as int + 1);
                }
                return Err(e);
            },
        }
        i = i + 1;
    }
    assert(fs.take(exprs@.len() as int) =~= fs);
    Ok(parts)
}

fn render_literals(binds: &Vec<EqBind>) -> (r: Vec<String>)
    ensures
        text::strs(r@) == literals(dsl::bind_views(binds@)),
{
    let mut out: Vec<String> = Vec::new();
    let mut i: usize = 0;
    while i < binds.len()
        invariant
            i <= binds@.len(),
            out@.len() == i,
            forall|k: int| 0 <= k < i ==> (#[trigger] out@[k])@ == literal(binds@[k]@),
        decreases binds@.len() - i,
    {
        out.push(render_literal(&binds[i]));
        i = i + 1;
    }
    assert(text::strs(out@) =~= literals(dsl::bind_views(binds@)));
    out
}

fn render_filter_literal_node(node: &FilterExpr, table: &TableDef) -> (r: Result<String, RtDbError>)
    ensures
        match literal_sql(node@, table@) {
            Ok(p) => r matches Ok(sql) && sql@ == p,
            Err(e) => r matches Err(x) && x@ == e,
        },
    decreases node,
{
    broadcast use dsl::lemma_filter_view;

    if let Some((rel, field, value)) = node.comparison() {
        return match field_lhs_and_bind(field.as_str(), value, table) {
            Ok((lhs, bind)) => Ok(
                cat5(
                    lhs.as_str(),
                    " ",
                    operator_text(rel),
                    " ",
                    render_literal(&bind).as_str(),
                ),
            ),
            Err(e) => Err(e),
        };
    }
    match node {
        FilterExpr::And { exprs } => {
            if exprs.len() == 0 {
                return Err(
                    RtDbError::bad_request("and filter requires at least one expr".to_owned()),
                );
            }
            match render_filter_literal_nodes(exprs, table) {
                Ok(parts) => Ok(cat3("(", join(&parts, " AND ").as_str(), ")")),
                Err(e) => Err(e),
            }
        },
        FilterExpr::Or { exprs } => {
            if exprs.len() == 0 {
                return Err(
                    RtDbError::bad_request("or filter requires at least one expr".to_owned()),
                );
            }
            match render_filter_literal_nodes(exprs, table) {
                Ok(parts) => Ok(cat3("(", join(&parts, " OR ").as_str(), ")")),
                Err(e) => Err(e),
            }
        },
        FilterExpr::Not { expr } => match render_filter_literal_node(expr, table) {
            Ok(sql) => Ok(cat3("NOT COALESCE((", sql.as_str(), "), FALSE)")),
            Err(e) => Err(e),
        },
        FilterExpr::In { field, values } => match in_lhs_and_binds(field.as_str(), values, table) {
            Ok((lhs, binds)) => {
                let texts = render_literals(&binds);
                Ok(text::cat4(lhs.as_str(), " IN (", join(&texts, ", ").as_str(), ")"))
            },
            Err(e) => Err(e),
        },
        FilterExpr::Contains { field, value } => {
            let lhs = match jsonb_field_lhs(field.as_str(), table) {
                Ok(lhs) => lhs,
                Err(e) => {
                    return Err(e);
                },
            };
            match field_lhs_and_bind(field.as_str(), value, table) {
                Ok((_, bind)) => Ok(cat3(lhs.as_str(), " ? ", render_literal(&bind).as_str())),
                Err(e) => Err(e),
            }
        },
        FilterExpr::Exists { field } => match jsonb_field_lhs(field.as_str(), table) {
            Ok(_) => Ok(presence_text(field.as_str())),
            Err(e) => Err(e),
        },
        _ => Err(
            RtDbError::bad_request(
                "olderThan filter is not allowed in a partial-index predicate".to_owned(),
            ),
        ),
    }
}

/// Compiles a filter with literals in place of binds, for the predicate of a
/// partial index.
pub fn compile_filter_literal(filter: &FilterExpr, table: &TableDef) -> (r: Result<
    String,
    RtDbError,
>)
    ensures
        match literal_sql(filter@, table@) {
            Ok(p) => r matches Ok(sql) && sql@ == p,
            Err(e) => r matches Err(x) && x@ == e,
        },
{
    render_filter_literal_node(filter, table)
}

/// A value that stands for a property of the caller: an object with the one
/// entry `$user` or `$email`, set to true.
pub open spec fn is_marker(v: JsonV, name: Seq<char>) -> bool {
    v matches JsonV::Object(entries) && entries.len() == 1 && entries[0].0 == name && entries[0].1
        == JsonV::Bool(true)
}

/// Whether the value is the marker with the given name.
pub fn marker(v: &Json, name: &str) -> (r: bool)
    ensures
        r == is_marker(v@, name@),
{
    broadcast use json::lemma_json_view;

    match v {
        Json::Object(entries) => {
            if entries.len() != 1 {
                return false;
            }
            let named = text::same(entries[0].0.as_str(), name);
            let set = matches!(entries[0].1, Json::Bool(true));
            assert(json::entry_views(entries@)[0] == (entries@[0].0@, entries@[0].1@));
            named && set
        },
        _ => false,
    }
}

/// Some value is a marker.
pub open spec fn has_marker(values: Seq<JsonV>) -> bool {
    exists|i: int|
        0 <= i < values.len() && (is_marker(#[trigger] values[i], "$user"@) || is_marker(
            values[i],
            "$email"@,
        ))
}

/// Ordering is meaningful for the type.
pub open spec fn orderable(t: TypeV) -> bool {
    match schema::base_type(t) {
        TypeV::Array(_) => false,
        TypeV::Object(_) => false,
        TypeV::Record(_) => false,
        TypeV::Vector(_) => false,
        TypeV::Null => false,
        _ => true,
    }
}

/// What is wrong with one comparison on a field, if anything.
pub open spec fn leaf_error(
    field: Seq<char>,
    marked: bool,
    ordered: bool,
    member: bool,
    t: TableV,
    markers: bool,
) -> Option<ErrorV> {
    if !t.fields.contains_key(field) {
        Some(unknown_field(field))
    } else if !markers && marked {
        Some(error::bad("principal markers are not allowed in a client filter"@))
    } else if ordered && !orderable(t.fields[field]) {
        Some(error::bad("field '"@ + field + "' cannot be ordered"@))
    } else if member && !(schema::base_type(t.fields[field]) is Array) {
        Some(error::bad("contains filter requires an array field, got '"@ + field + "'"@))
    } else {
        None
    }
}

/// What is wrong with the fields of a filter, if anything: the first fault in
/// reading order.
pub open spec fn filter_fault(f: FilterV, t: TableV, markers: bool, relative: bool) -> Option<
    ErrorV,
>
    decreases f,
{
    match f {
        FilterV::And(fs) => filters_fault(fs, t, markers, relative),
        FilterV::Or(fs) => filters_fault(fs, t, markers, relative),
        FilterV::Not(g) => filter_fault(*g, t, markers, relative),
        FilterV::Compare(rel, field, v) => leaf_error(
            field,
            has_marker(seq![v]),
            rel != Rel::Eq && rel != Rel::Neq,
            false,
            t,
            markers,
        ),
        FilterV::In(field, values) => leaf_error(
            field,
            has_marker(values),
            false,
            false,
            t,
            markers,
        ),
        FilterV::Contains(field, v) => leaf_error(
            field,
            has_marker(seq![v]),
            false,
            true,
            t,
            markers,
        ),
        FilterV::Exists(field) => leaf_error(field, false, false, false, t, markers),
        FilterV::OlderThan(field, ms) => if relative {
            leaf_error(field, false, false, false, t, markers)
        } else {
            Some(relative_time_error())
        },
    }
}

/// The first fault among several filters.
pub open spec fn filters_fault(fs: Seq<FilterV>, t: TableV, markers: bool, relative: bool) -> Option<
    ErrorV,
>
    decreases fs,
{
    if fs.len() == 0 {
        None
    } else {
        match filters_fault(fs.drop_last(), t, markers, relative) {
            Some(e) => Some(e),
            None => filter_fault(fs.last(), t, markers, relative),
        }
    }
}

proof fn lemma_filters_fault(fs: Seq<FilterV>, t: TableV, markers: bool, relative: bool, n: int)
    requires
        0 <= n <= fs.len(),
        filters_fault(fs.take(n), t, markers, relative) is Some,
    ensures
        filters_fault(fs, t, markers, relative) == filters_fault(fs.take(n), t, markers, relative),
    decreases fs.len(),
{
    if n == fs.len() {
        assert(fs.take(n) =~= fs);
    } else {
        assert(fs.drop_last().take(n) =~= fs.take(n));
        lemma_filters_fault(fs.drop_last(), t, markers, relative, n);
    }
}

fn validate_leaf(
    field: &str,
    marked: bool,
    ordered: bool,
    member: bool,
    table: &TableDef,
    allow_markers: bool,
) -> (r: Result<(), RtDbError>)
    ensures
        match leaf_error(field@, marked, ordered, member, table@, allow_markers) {
            Some(e) => r matches Err(x) && x@ == e,
            None => r is Ok,
        },
{
    let t = match table.fields.get(field) {
        Some(t) => t,
        None => {
            return Err(unknown_field_error(field));
        },
    };
    if !allow_markers && marked {
        return Err(
            RtDbError::bad_request(
                "principal markers are not allowed in a client filter".to_owned(),
            ),
        );
    }
    let sortable = match t.base() {
        FieldType::Array { .. } | FieldType::Object { .. } | FieldType::Record { .. }
        | FieldType::Vector { .. } | FieldType::Null => false,
        _ => true,
    };
    if ordered && !sortable {
        return Err(RtDbError::bad_request(cat3("field '", field, "' cannot be ordered")));
    }
    let array = matches!(t.base(), FieldType::Array { .. });
    if member && !array {
        return Err(
            RtDbError::bad_request(
                cat3("contains filter requires an array field, got '", field, "'"),
            ),
        );
    }
    Ok(())
}

fn value_marked(v: &Json) -> (r: bool)
    ensures
        r == has_marker(seq![v@]),
{
    let r = marker(v, "$user") || marker(v, "$email");
    assert(seq![v@][0] == v@);
    r
}

fn values_marked(vs: &Vec<Json>) -> (r: bool)
    ensures
        r == has_marker(json::json_views(vs@)),
{
    let ghost all = json::json_views(vs@);
    let mut i: usize = 0;
    while i < vs.len()
        invariant
            i <= vs@.len(),
            all == json::json_views(vs@),
            forall|k: int|
                0 <= k < i ==> !is_marker(#[trigger] all[k], "$user"@) && !is_marker(
                    all[k],
                    "$email"@,
                ),
        decreases vs@.len() - i,
    {
        if marker(&vs[i], "$user") || marker(&vs[i], "$email") {
            assert(is_marker(all[i as int], "$user"@) || is_marker(all[i as int], "$email"@));
            return true;
        }
        i = i + 1;
    }
    false
}

fn validate_filter_list(
    exprs: &Vec<FilterExpr>,
    table: &TableDef,
    allow_markers: bool,
    allow_relative_time: bool,
) -> (r: Result<(), RtDbError>)
    ensures
        match filters_fault(
            dsl::filter_views(exprs@),
            table@,
            allow_markers,
            allow_relative_time,
        ) {
            Some(e) => r matches Err(x) && x@ == e,
            None => r is Ok,
        },
    decreases exprs,
{
    let ghost fs = dsl::filter_views(exprs@);
    let mut i: usize = 0;
    assert(fs.take(0) =~= Seq::<FilterV>::empty());
    while i < exprs.len()
        invariant
            i <= exprs@.len(),
            fs == dsl::filter_views(exprs@),
            filters_fault(fs.take(i as int), table@, allow_markers, allow_relative_time) is None,
        decreases exprs@.len() - i,
    {
        assert(decreases_to!(*exprs => exprs[i as int]));
        let ghost next = fs.take(i as int + 1);
        assert(next.drop_last() =~= fs.take(i as int));
        assert(next.last() == exprs@[i as int]@);
        match validate_filter_expr_fields(&exprs[i], table, allow_markers, allow_relative_time) {
            Ok(_) => {},
            Err(e) => {
                proof {
                    lemma_filters_fault(
                        fs,
                        table@,
                        allow_markers,
                        allow_relative_time,
                        i as int + 1,
                    );
                }
                return Err(e);
            },
        }
        i = i + 1;
    }
    assert(fs.take(exprs@.len() as int) =~= fs);
    Ok(())
}

/// Rejects a filter that names an undeclared field, orders by or tests
/// membership in a field of an unfit type, uses a principal marker where none
/// is allowed, or tests a relative time where none is allowed.
pub fn validate_filter_expr_fields(
    filter: &FilterExpr,
    table: &TableDef,
    allow_markers: bool,
    allow_relative_time: bool,
) -> (r: Result<(), RtDbError>)
    ensures
        match filter_fault(filter@, table@, allow_markers, allow_relative_time) {
            Some(e) => r matches Err(x) && x@ == e,
            None => r is Ok,
        },
    decreases filter,
{
    broadcast use dsl::lemma_filter_view;

    if let Some((rel, field, value)) = filter.comparison() {
        let ordered = match rel {
            Rel::Eq => false,
            Rel::Neq => false,
            _ => true,
        };
        let marked = value_marked(value);
        return validate_leaf(
            field.as_str(),
            marked,
            ordered,
            false,
            table,
            allow_markers,
        );
    }
    match filter {
        FilterExpr::And { exprs } => validate_filter_list(
            exprs,
            table,
            allow_markers,
            allow_relative_time,
        ),
        FilterExpr::Or { exprs } => validate_filter_list(
            exprs,
            table,
            allow_markers,
            allow_relative_time,
        ),
        FilterExpr::Not { expr } => validate_filter_expr_fields(
            expr,
            table,
            allow_markers,
            allow_relative_time,
        ),
        FilterExpr::In { field, values } => {
            let marked = values_marked(values);
            validate_leaf(
                field.as_str(),
                marked,
                false,
                false,
                table,
                allow_markers,
            )
        },
        FilterExpr::Contains { field, value } => {
            let marked = value_marked(value);
            validate_leaf(
                field.as_str(),
                marked,
                false,
                true,
                table,
                allow_markers,
            )
        },
        FilterExpr::Exists { field } => validate_leaf(
            field.as_str(),
            false,
            false,
            false,
            table,
            allow_markers,
        ),
        FilterExpr::OlderThan { field, .. } => {
            if !allow_relative_time {
                return Err(relative_time_refused());
            }
            validate_leaf(
                field.as_str(),
                false,
                false,
                false,
                table,
                allow_markers,
            )
        },
        _ => {
            assert(false);
            Ok(())
        },
    }
}

/// The statement text and binds of a client filter, or the error for it: its
/// fields are checked first. The clock is given where a relative time test is
/// allowed.
pub open spec fn client_filter_sql(
    f: FilterV,
    t: TableV,
    start: nat,
    now: Option<i64>,
) -> Result<(Seq<char>, Seq<BindV>), ErrorV> {
    match filter_fault(f, t, false, now is Some) {
        Some(e) => Err(e),
        None => node_sql(f, t, start, 0, client_use(now)),
    }
}

/// Compiles a client filter; the clock is given where a relative time test is
/// allowed.
pub fn compile_filter_at(
    filter: &FilterExpr,
    table: &TableDef,
    start_pos: u128,
    now: Option<i64>,
) -> (r: Result<(String, Vec<EqBind>), RtDbError>)
    requires
        start_pos <= MAX_POSITION,
    ensures
        match client_filter_sql(filter@, table@, start_pos as nat, now) {
            Ok(p) => r matches Ok(x) && x.0@ == p.0 && dsl::bind_views(x.1@) == p.1,
            Err(e) => r matches Err(x) && x@ == e,
        },
{
    match validate_filter_expr_fields(filter, table, false, now.is_some()) {
        Ok(_) => {},
        Err(e) => {
            return Err(e);
        },
    }
    let mut binds: Vec<EqBind> = Vec::new();
    let ghost none = dsl::bind_views(binds@);
    let usage = match now {
        Some(clock) => FilterUse::Scan(clock),
        None => FilterUse::Read,
    };
    match compile_filter_node(filter, table, start_pos, &mut binds, usage) {
        Ok(sql) => {
            assert(none + dsl::bind_views(binds@) =~= dsl::bind_views(binds@));
            assert(none =~= Seq::<BindV>::empty());
            proof {
                let p = node_sql(filter@, table@, start_pos as nat, 0, usage)->Ok_0;
                assert(none + p.1 =~= p.1);
            }
            Ok((sql, binds))
        },
        Err(e) => Err(e),
    }
}

/// Compiles a client filter of the read path, where no relative time test is
/// allowed. Placeholders are numbered from `start_pos`.
pub fn compile_filter(filter: &FilterExpr, table: &TableDef, start_pos: u128) -> (r: Result<
    (String, Vec<EqBind>),
    RtDbError,
>)
    requires
        start_pos <= MAX_POSITION,
    ensures
        match client_filter_sql(filter@, table@, start_pos as nat, None) {
            Ok(p) => r matches Ok(x) && x.0@ == p.0 && dsl::bind_views(x.1@) == p.1,
            Err(e) => r matches Err(x) && x@ == e,
        },
{
    compile_filter_at(filter, table, start_pos, None)
}

/// The conditions and binds of a scan after the per-row predicates that apply to
/// a caller: the owner or collaborator predicate, the `authorize` predicate of
/// the table, and the exclusion of deleted rows.
pub open spec fn with_row_conditions(
    conditions: Seq<Seq<char>>,
    binds: Seq<BindV>,
    t: TableV,
    ctx: CtxV,
    owner: Option<Seq<char>>,
    start: nat,
    hide_deleted: bool,
) -> Result<(Seq<Seq<char>>, Seq<BindV>), ErrorV> {
    let uid = row_auth::enforced_uid(t.owner_field, t.collaborators_field, owner);
    let (c1, b1) = match uid {
        Some(u) => (
            conditions.push(
                row_auth::row_auth_sql(
                    t.owner_field,
                    t.collaborators_field,
                    start + binds.len(),
                ),
            ),
            binds.push(BindV::Text(u)),
        ),
        None => (conditions, binds),
    };
    match row_auth::authorize_sql(t, ctx, start, b1.len()) {
        Ok(fragment) => {
            let (c2, b2) = match fragment {
                Some((sql, more)) => (c1.push(sql), b1 + more),
                None => (c1, b1),
            };
            Ok(
                (
                    if hide_deleted {
                        c2.push("\"deleted_at\" IS NULL"@)
                    } else {
                        c2
                    },
                    b2,
                ),
            )
        },
        Err(e) => Err(e),
    }
}

proof fn lemma_strs_push(v: Seq<String>, s: String)
    ensures
        text::strs(v.push(s)) == text::strs(v).push(s@),
{
    assert(text::strs(v.push(s)) =~= text::strs(v).push(s@));
}

/// Adds the per-row predicates that apply to a caller.
pub fn push_row_conditions(
    conditions: &mut Vec<String>,
    binds: &mut Vec<EqBind>,
    table: &TableDef,
    ctx: &PrincipalCtx,
    owner: Option<&str>,
    start: u128,
    hide_deleted: bool,
) -> (r: Result<(), RtDbError>)
    requires
        start <= MAX_POSITION,
    ensures
        match with_row_conditions(
            text::strs(old(conditions)@),
            dsl::bind_views(old(binds)@),
            table@,
            ctx@,
            text::opt_slice(owner),
            start as nat,
            hide_deleted,
        ) {
            Ok(p) => r is Ok && text::strs(final(conditions)@) == p.0 && dsl::bind_views(
                final(binds)@,
            ) == p.1,
            Err(e) => r matches Err(x) && x@ == e,
        },
{
    let owner_field: Option<&str> = match &table.owner_field {
        Some(s) => Some(s.as_str()),
        None => None,
    };
    let collaborators_field: Option<&str> = match &table.collaborators_field {
        Some(s) => Some(s.as_str()),
        None => None,
    };
    assert(text::opt_slice(owner_field) == table@.owner_field);
    assert(text::opt_slice(collaborators_field) == table@.collaborators_field);
    match row_auth_enforced_uid(owner_field, collaborators_field, owner) {
        Some(uid) => {
            let ph: u128 = start + binds.len() as u128;
            let predicate = row_auth_predicate_body(owner_field, collaborators_field, ph);
            proof {
                lemma_strs_push(conditions@, predicate);
            }
            conditions.push(predicate);
            let bind = EqBind::Text(uid.to_owned());
            proof {
                lemma_bind_push(binds@, bind);
                assert(dsl::bind_views(binds@).push(bind@) =~= dsl::bind_views(binds@) + seq![bind@]);
            }
            binds.push(bind);
        },
        None => {},
    }
    match authorize_predicate_body(table, ctx, start, binds) {
        Ok(Some(fragment)) => {
            proof {
                lemma_strs_push(conditions@, fragment);
            }
            conditions.push(fragment);
        },
        Ok(None) => {},
        Err(e) => {
            return Err(e);
        },
    }
    if hide_deleted {
        let hidden = "\"deleted_at\" IS NULL".to_owned();
        proof {
            lemma_strs_push(conditions@, hidden);
        }
        conditions.push(hidden);
    }
    Ok(())
}

/// The conditions and binds of a by-query scan: the client filter and the
/// per-row predicates, numbered from one.
pub open spec fn scan_where(
    t: TableV,
    ctx: CtxV,
    owner: Option<Seq<char>>,
    f: Option<FilterV>,
    now: i64,
) -> Result<(Seq<Seq<char>>, Seq<BindV>), ErrorV> {
    let client = match f {
        Some(g) => match client_filter_sql(g, t, 1, Some(now)) {
            Ok((sql, binds)) => Ok((seq![sql], binds)),
            Err(e) => Err(e),
        },
        None => Ok((Seq::empty(), Seq::empty())),
    };
    match client {
        Ok((conditions, binds)) => with_row_conditions(
            conditions,
            binds,
            t,
            ctx,
            owner,
            1,
            t.soft_delete,
        ),
        Err(e) => Err(e),
    }
}

/// Compiles the conditions of a by-query scan, so that a by-query write touches
/// the rows the caller could read. Gives the text, its binds numbered from one,
/// and the position of the next placeholder. The text is empty where nothing
/// restricts the scan.
pub fn compile_scan_where(
    table_def: &TableDef,
    ctx: &PrincipalCtx,
    owner: Option<&str>,
    filter: Option<&FilterExpr>,
    now: i64,
) -> (r: Result<(String, Vec<EqBind>, u128), RtDbError>)
    ensures
        match scan_where(
            table_def@,
            ctx@,
            text::opt_slice(owner),
            match filter {
                Some(f) => Some(f@),
                None => None,
            },
            now,
        ) {
            Ok(p) => r matches Ok(x) && x.0@ == text::joined(p.0, " AND "@) && dsl::bind_views(
                x.1@,
            ) == p.1 && x.2 == 1 + p.1.len(),
            Err(e) => r matches Err(x) && x@ == e,
        },
{
    let mut conditions: Vec<String> = Vec::new();
    let mut binds: Vec<EqBind> = Vec::new();
    assert(text::strs(conditions@) =~= Seq::<Seq<char>>::empty());
    assert(dsl::bind_views(binds@) =~= Seq::<BindV>::empty());
    match filter {
        Some(f) => match compile_filter_at(f, table_def, 1, Some(now)) {
            Ok((fragment, more)) => {
                conditions.push(fragment);
                assert(text::strs(conditions@) =~= seq![fragment@]);
                binds = more;
            },
            Err(e) => {
                return Err(e);
            },
        },
        None => {},
    }
    match push_row_conditions(
        &mut conditions,
        &mut binds,
        table_def,
        ctx,
        owner,
        1,
        table_def.soft_delete,
    ) {
        Ok(_) => {},
        Err(e) => {
            return Err(e);
        },
    }
    let next: u128 = 1 + binds.len() as u128;
    assert(dsl::bind_views(binds@).len() == binds@.len());
    Ok((join(&conditions, " AND "), binds, next))
}

} // verus!
