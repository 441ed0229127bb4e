//! Per-row authorization: the owner and collaborator predicates, the resolution
//! of principal markers, and the `authorize` predicate of a table.
#[allow(unused_imports)]
use vstd::prelude::*;
#[allow(unused_imports)]
use vstd::string::*;

use crate::dsl;
use crate::dsl::{BindV, CtxV, EqBind, FilterExpr, FilterV, PrincipalCtx, Rel};
use crate::error::{ErrorV, RtDbError};
use crate::json;
use crate::json::{Json, JsonV};
use crate::number;
use crate::number::Sign;
use crate::query::filter;
use crate::query::filter::{
    compile_filter_node, marker, placeholder_text, FilterUse, MAX_POSITION,
};
use crate::schema;
use crate::schema::{TableDef, TableV};
use crate::text;
use crate::text::cat4;

verus! {

/// The value a caller's property stands for in a test: null where the caller has
/// none, which meets no test, compiled or on a document.
pub open spec fn principal_value(p: Option<Seq<char>>) -> JsonV {
    match p {
        Some(s) => JsonV::String(s),
        None => JsonV::Null,
    }
}

/// A value with a principal marker replaced by the caller's property.
pub open spec fn resolved_value(v: JsonV, ctx: CtxV) -> JsonV {
    if filter::is_marker(v, "$user"@) {
        principal_value(ctx.user)
    } else if filter::is_marker(v, "$email"@) {
        principal_value(ctx.email)
    } else {
        v
    }
}

/// The values with principal markers replaced.
pub open spec fn resolved_values(vs: Seq<JsonV>, ctx: CtxV) -> Seq<JsonV> {
    Seq::new(vs.len(), |i: int| resolved_value(vs[i], ctx))
}

/// A filter with the principal markers at every value position replaced.
pub open spec fn resolved_filter(f: FilterV, ctx: CtxV) -> FilterV
    decreases f,
{
    match f {
        FilterV::And(fs) => FilterV::And(
            Seq::new(
                fs.len(),
                |i: int|
                    if 0 <= i < fs.len() {
                        resolved_filter(fs[i], ctx)
                    } else {
                        FilterV::Exists(Seq::empty())
                    },
            ),
        ),
        FilterV::Or(fs) => FilterV::Or(
            Seq::new(
                fs.len(),
                |i: int|
                    if 0 <= i < fs.len() {
                        resolved_filter(fs[i], ctx)
                    } else {
                        FilterV::Exists(Seq::empty())
                    },
            ),
        ),
        FilterV::Not(g) => FilterV::Not(Box::new(resolved_filter(*g, ctx))),
        FilterV::Compare(rel, field, v) => FilterV::Compare(rel, field, resolved_value(v, ctx)),
        FilterV::In(field, vs) => FilterV::In(field, resolved_values(vs, ctx)),
        FilterV::Contains(field, v) => FilterV::Contains(field, resolved_value(v, ctx)),
        FilterV::Exists(field) => FilterV::Exists(field),
        FilterV::OlderThan(field, ms) => FilterV::OlderThan(field, ms),
    }
}

/// Filters with their principal markers replaced.
pub open spec fn resolved_filters(fs: Seq<FilterV>, ctx: CtxV) -> Seq<FilterV> {
    Seq::new(fs.len(), |i: int| resolved_filter(fs[i], ctx))
}

proof fn lemma_resolved_list(f: FilterV, ctx: CtxV)
    ensures
        f matches FilterV::And(fs) ==> resolved_filter(f, ctx) == FilterV::And(
            resolved_filters(fs, ctx),
        ),
        f matches FilterV::Or(fs) ==> resolved_filter(f, ctx) == FilterV::Or(
            resolved_filters(fs, ctx),
        ),
{
    match f {
        FilterV::And(fs) => {
            assert(resolved_filter(f, ctx)->And_0 =~= resolved_filters(fs, ctx));
        },
        FilterV::Or(fs) => {
            assert(resolved_filter(f, ctx)->Or_0 =~= resolved_filters(fs, ctx));
        },
        _ => {},
    }
}

/// A value with a principal marker replaced by the caller's property.
pub fn resolve_value(v: &Json, ctx: &PrincipalCtx) -> (r: Json)
    ensures
        r@ == resolved_value(v@, ctx@),
{
    if marker(v, "$user") {
        match &ctx.user_id {
            Some(s) => Json::String(s.clone()),
            None => Json::Null,
        }
    } else if marker(v, "$email") {
        match &ctx.email {
            Some(s) => Json::String(s.clone()),
            None => Json::Null,
        }
    } else {
        v.copy()
    }
}

fn resolve_all(exprs: &Vec<FilterExpr>, ctx: &PrincipalCtx) -> (r: Vec<FilterExpr>)
    ensures
        dsl::filter_views(r@) == resolved_filters(dsl::filter_views(exprs@), ctx@),
    decreases exprs,
{
    let mut out: Vec<FilterExpr> = Vec::new();
    let mut i: usize = 0;
    while i < exprs.len()
        invariant
            i <= exprs@.len(),
            out@.len() == i,
            forall|k: int|
                0 <= k < i ==> (#[trigger] out@[k])@ == resolved_filter(exprs@[k]@, ctx@),
        decreases exprs@.len() - i,
    {
        assert(decreases_to!(*exprs => exprs[i as int]));
        let item = resolve_predicate_markers(&exprs[i], ctx);
        out.push(item);
        i = i + 1;
    }
    assert(dsl::filter_views(out@) =~= resolved_filters(dsl::filter_views(exprs@), ctx@));
    out
}

/// The filter with the principal markers at every value position replaced by
/// the caller's properties.
pub fn resolve_predicate_markers(expr: &FilterExpr, ctx: &PrincipalCtx) -> (r: FilterExpr)
    ensures
        r@ == resolved_filter(expr@, ctx@),
    decreases expr,
{
    broadcast use dsl::lemma_filter_view;

    proof {
        lemma_resolved_list(expr@, ctx@);
    }
    if let Some((rel, field, value)) = expr.comparison() {
        return FilterExpr::compare(rel, field.clone(), resolve_value(value, ctx));
    }
    match expr {
        FilterExpr::And { exprs } => FilterExpr::And { exprs: resolve_all(exprs, ctx) },
        FilterExpr::Or { exprs } => FilterExpr::Or { exprs: resolve_all(exprs, ctx) },
        FilterExpr::Not { expr: inner } => {
            FilterExpr::Not { expr: Box::new(resolve_predicate_markers(inner, ctx)) }
        },
        FilterExpr::In { field, values } => {
            let mut out: Vec<Json> = Vec::new();
            let mut i: usize = 0;
            while i < values.len()
                invariant
                    i <= values@.len(),
                    out@.len() == i,
                    forall|k: int|
                        0 <= k < i ==> (#[trigger] out@[k])@ == resolved_value(values@[k]@, ctx@),
                decreases values@.len() - i,
            {
                out.push(resolve_value(&values[i], ctx));
                i = i + 1;
            }
            assert(json::json_views(out@) =~= resolved_values(json::json_views(values@), ctx@));
            FilterExpr::In { field: field.clone(), values: out }
        },
        FilterExpr::Contains { field, value } => {
            FilterExpr::Contains { field: field.clone(), value: resolve_value(value, ctx) }
        },
        FilterExpr::Exists { field } => FilterExpr::Exists { field: field.clone() },
        FilterExpr::OlderThan { field, ms } => {
            FilterExpr::OlderThan { field: field.clone(), ms: *ms }
        },
        _ => {
            assert(false);
            FilterExpr::Exists { field: String::new() }
        },
    }
}

/// A client filter, narrowed to the caller's own rows where the table names an
/// owner field and the caller is a user.
pub open spec fn owned_filter(
    client: Option<FilterV>,
    owner_field: Option<Seq<char>>,
    owner: Option<Seq<char>>,
) -> Option<FilterV> {
    match (owner_field, owner) {
        (Some(field), Some(uid)) => {
            let own = FilterV::Compare(Rel::Eq, field, JsonV::String(uid));
            match client {
                Some(f) => Some(FilterV::And(seq![f, own])),
                None => Some(own),
            }
        },
        _ => client,
    }
}

/// Narrows a client filter to the caller's own rows where the table names an
/// owner field and the caller is a user; gives it back unchanged otherwise.
pub fn owner_filter(
    client_filter: Option<&FilterExpr>,
    owner_field: Option<&str>,
    owner: Option<&str>,
) -> (r: Option<FilterExpr>)
    ensures
        schema::opt_view(r) == owned_filter(
            match client_filter {
                Some(f) => Some(f@),
                None => None,
            },
            text::opt_slice(owner_field),
            text::opt_slice(owner),
        ),
{
    broadcast use dsl::lemma_filter_view;

    match (owner_field, owner) {
        (Some(field), Some(uid)) => {
            let own = FilterExpr::Eq {
                field: field.to_owned(),
                value: Json::String(uid.to_owned()),
            };
            match client_filter {
                Some(f) => {
                    let mut exprs: Vec<FilterExpr> = Vec::new();
                    let first = f.copy();
                    exprs.push(first);
                    exprs.push(own);
                    assert(dsl::filter_views(exprs@) =~= seq![f@, own@]);
                    Some(FilterExpr::And { exprs })
                },
                None => Some(own),
            }
        },
        _ => match client_filter {
            Some(f) => Some(f.copy()),
            None => None,
        },
    }
}

/// The user that per-row authorization applies to: the caller, where the table
/// names an owner or a collaborators field.
pub open spec fn enforced_uid(
    owner_field: Option<Seq<char>>,
    collab_field: Option<Seq<char>>,
    owner: Option<Seq<char>>,
) -> Option<Seq<char>> {
    if owner_field is Some || collab_field is Some {
        owner
    } else {
        None
    }
}

/// The user that per-row authorization applies to, if any.
pub fn row_auth_enforced_uid<'a>(
    owner_field: Option<&'a str>,
    collab_field: Option<&'a str>,
    owner: Option<&'a str>,
) -> (r: Option<&'a str>)
    ensures
        text::opt_slice(r) == enforced_uid(
            text::opt_slice(owner_field),
            text::opt_slice(collab_field),
            text::opt_slice(owner),
        ),
{
    if owner_field.is_some() || collab_field.is_some() {
        owner
    } else {
        None
    }
}

/// The predicate that a row belongs to, or is shared with, the user bound to
/// placeholder `ph`.
pub open spec fn row_auth_sql(
    owner_field: Option<Seq<char>>,
    collab_field: Option<Seq<char>>,
    ph: nat,
) -> Seq<char> {
    let p = filter::placeholder(ph);
    match (owner_field, collab_field) {
        (Some(of), Some(cf)) => "((doc->>'"@ + of + "') = "@ + p + " OR (doc->'"@ + cf + "') ? "@
            + p + ")"@,
        (Some(of), None) => "(doc->>'"@ + of + "') = "@ + p,
        (None, Some(cf)) => "(doc->'"@ + cf + "') ? "@ + p,
        (None, None) => "(TRUE)"@,
    }
}

/// The predicate that a row belongs to, or is shared with, the user bound to
/// placeholder `ph`.
pub fn row_auth_predicate_body(
    owner_field: Option<&str>,
    collab_field: Option<&str>,
    ph: u128,
) -> (s: String)
    ensures
        s@ == row_auth_sql(text::opt_slice(owner_field), text::opt_slice(collab_field), ph as nat),
{
    let p = placeholder_text(ph);
    match (owner_field, collab_field) {
        (Some(of), Some(cf)) => text::cat9(
            "((doc->>'",
            of,
            "') = ",
            p.as_str(),
            " OR (doc->'",
            cf,
            "') ? ",
            p.as_str(),
            ")",
        ),
        (Some(of), None) => cat4("(doc->>'", of, "') = ", p.as_str()),
        (None, Some(cf)) => cat4("(doc->'", cf, "') ? ", p.as_str()),
        (None, None) => "(TRUE)".to_owned(),
    }
}

/// A filter tests against a null that is written in it.
pub open spec fn writes_null(f: FilterV) -> bool
    decreases f,
{
    match f {
        FilterV::And(fs) => some_writes_null(fs),
        FilterV::Or(fs) => some_writes_null(fs),
        FilterV::Not(g) => writes_null(*g),
        FilterV::Compare(_, _, v) => v == JsonV::Null,
        FilterV::In(_, vs) => vs.contains(JsonV::Null),
        FilterV::Contains(_, v) => v == JsonV::Null,
        FilterV::Exists(_) => false,
        FilterV::OlderThan(_, _) => false,
    }
}

/// One of the filters tests against a null that is written in it.
pub open spec fn some_writes_null(fs: Seq<FilterV>) -> bool
    decreases fs,
{
    fs.len() > 0 && (some_writes_null(fs.drop_last()) || writes_null(fs.last()))
}

fn any_null(values: &Vec<Json>) -> (r: bool)
    ensures
        r == json::json_views(values@).contains(JsonV::Null),
{
    let ghost vs = json::json_views(values@);
    let mut i: usize = 0;
    while i < values.len()
        invariant
            i <= values@.len(),
            vs == json::json_views(values@),
            forall|k: int| 0 <= k < i ==> vs[k] != JsonV::Null,
        decreases values@.len() - i,
    {
        if is_null(&values[i]) {
            assert(vs[i as int] == JsonV::Null);
            return true;
        }
        i = i + 1;
    }
    false
}

/// Whether a filter tests against a null that is written in it.
fn has_written_null(filter: &FilterExpr) -> (r: bool)
    ensures
        r == writes_null(filter@),
    decreases filter,
{
    broadcast use dsl::lemma_filter_view;

    if let Some((_, _, value)) = filter.comparison() {
        return is_null(value);
    }
    match filter {
        FilterExpr::And { exprs } => {
            assert(decreases_to!(*filter => filter->And_exprs));
            any_written_null(exprs)
        },
        FilterExpr::Or { exprs } => {
            assert(decreases_to!(*filter => filter->Or_exprs));
            any_written_null(exprs)
        },
        FilterExpr::Not { expr } => has_written_null(expr),
        FilterExpr::In { values, .. } => any_null(values),
        FilterExpr::Contains { value, .. } => is_null(value),
        _ => false,
    }
}

fn any_written_null(exprs: &Vec<FilterExpr>) -> (r: bool)
    ensures
        r == some_writes_null(dsl::filter_views(exprs@)),
    decreases exprs,
{
    let ghost fs = dsl::filter_views(exprs@);
    let mut found = false;
    let mut i: usize = 0;
    assert(fs.take(0) =~= Seq::<FilterV>::empty());
    while i < exprs.len()
        invariant
            i <= exprs@.len(),
            fs == dsl::filter_views(exprs@),
            found == some_writes_null(fs.take(i as int)),
        decreases exprs@.len() - i,
    {
        assert(decreases_to!(*exprs => exprs[i as int]));
        assert(fs.take(i as int + 1).drop_last() =~= fs.take(i as int));
        assert(fs.take(i as int + 1).last() == exprs@[i as int]@);
        found = has_written_null(&exprs[i]) || found;
        i = i + 1;
    }
    assert(fs.take(exprs@.len() as int) =~= fs);
    found
}

/// What a predicate is compiled for. A null in a resolved predicate stands for a
/// property that the caller lacks, unless nulls are written in the predicate: as
/// in any other filter, there is nothing to compare a written null with.
pub open spec fn predicate_use(f: FilterV) -> FilterUse {
    if writes_null(f) {
        FilterUse::Read
    } else {
        FilterUse::Authorize
    }
}

/// The `authorize` predicate of a table for a caller: none where the table has
/// none or the caller is no user. A test against a property that the caller lacks
/// never holds; a predicate with a written null is refused.
pub open spec fn authorize_sql(t: TableV, ctx: CtxV, start: nat, used: nat) -> Result<
    Option<(Seq<char>, Seq<BindV>)>,
    ErrorV,
> {
    match (t.authorize, ctx.user) {
        (Some(f), Some(_)) => match filter::node_sql(
            resolved_filter(f, ctx),
            t,
            start,
            used,
            predicate_use(f),
        ) {
            Ok(p) => Ok(Some(p)),
            Err(e) => Err(e),
        },
        _ => Ok(None),
    }
}

/// Compiles the `authorize` predicate of a table for a user, behind the binds
/// that `binds` holds already.
pub fn authorize_predicate_body(
    table: &TableDef,
    ctx: &PrincipalCtx,
    start_pos: u128,
    binds: &mut Vec<EqBind>,
) -> (r: Result<Option<String>, RtDbError>)
    requires
        start_pos <= MAX_POSITION,
    ensures
        match authorize_sql(table@, ctx@, start_pos as nat, old(binds)@.len()) {
            Ok(Some(p)) => r matches Ok(Some(sql)) && sql@ == p.0 && dsl::bind_views(final(binds)@)
                == dsl::bind_views(old(binds)@) + p.1,
            Ok(None) => r matches Ok(None) && final(binds)@ == old(binds)@,
            Err(e) => r matches Err(x) && x@ == e,
        },
{
    let expr = match &table.authorize {
        Some(expr) => expr,
        None => {
            return Ok(None);
        },
    };
    if ctx.user_id.is_none() {
        return Ok(None);
    }
    let resolved = resolve_predicate_markers(expr, ctx);
    let usage = if has_written_null(expr) {
        FilterUse::Read
    } else {
        FilterUse::Authorize
    };
    match compile_filter_node(&resolved, table, start_pos, binds, usage) {
        Ok(sql) => Ok(Some(sql)),
        Err(e) => Err(e),
    }
}

/// How two values compare: numbers by their double-precision readings, text by
/// character, booleans with false first; not at all otherwise.
pub open spec fn value_order(a: JsonV, b: JsonV) -> Option<Sign> {
    match (a, b) {
        (JsonV::Number(x), JsonV::Number(y)) => number::double_order(
            number::number_text(x),
            number::number_text(y),
        ),
        (JsonV::String(x), JsonV::String(y)) => if x == y {
            Some(Sign::Equal)
        } else if text::chars_lt(x, y) {
            Some(Sign::Less)
        } else {
            Some(Sign::Greater)
        },
        (JsonV::Bool(x), JsonV::Bool(y)) => if x == y {
            Some(Sign::Equal)
        } else if y {
            Some(Sign::Less)
        } else {
            Some(Sign::Greater)
        },
        _ => None,
    }
}

/// A comparison holds between a stored value and a given one.
pub open spec fn rel_holds(rel: Rel, stored: JsonV, given: JsonV) -> bool {
    match rel {
        Rel::Eq => stored == given,
        Rel::Neq => stored != given,
        Rel::Gt => value_order(stored, given) == Some(Sign::Greater),
        Rel::Gte => value_order(stored, given) == Some(Sign::Greater) || value_order(stored, given)
            == Some(Sign::Equal),
        Rel::Lt => value_order(stored, given) == Some(Sign::Less),
        Rel::Lte => value_order(stored, given) == Some(Sign::Less) || value_order(stored, given)
            == Some(Sign::Equal),
    }
}

/// A document meets a filter for a caller. A missing field meets no test, and
/// neither does a null to test against, which a property that the caller lacks
/// stands for.
pub open spec fn doc_matches(doc: JsonV, f: FilterV, ctx: CtxV) -> bool
    decreases f,
{
    match f {
        FilterV::And(fs) => doc_matches_all(doc, fs, ctx),
        FilterV::Or(fs) => doc_matches_any(doc, fs, ctx),
        FilterV::Not(g) => !doc_matches(doc, *g, ctx),
        FilterV::Compare(rel, field, v) => json::field_of(doc, field) matches Some(x)
            && resolved_value(v, ctx) != JsonV::Null && rel_holds(rel, x, resolved_value(v, ctx)),
        FilterV::In(field, vs) => json::field_of(doc, field) matches Some(x) && x != JsonV::Null
            && resolved_values(vs, ctx).contains(x),
        FilterV::Contains(field, v) => json::field_of(doc, field) matches Some(JsonV::Array(items))
            && resolved_value(v, ctx) != JsonV::Null && items.contains(resolved_value(v, ctx)),
        FilterV::Exists(field) => json::field_of(doc, field) matches Some(x) && x != JsonV::Null,
        FilterV::OlderThan(_, _) => false,
    }
}

/// A document meets all of the filters.
pub open spec fn doc_matches_all(doc: JsonV, fs: Seq<FilterV>, ctx: CtxV) -> bool
    decreases fs,
{
    fs.len() == 0 || (doc_matches_all(doc, fs.drop_last(), ctx) && doc_matches(doc, fs.last(), ctx))
}

/// A document meets one of the filters.
pub open spec fn doc_matches_any(doc: JsonV, fs: Seq<FilterV>, ctx: CtxV) -> bool
    decreases fs,
{
    fs.len() > 0 && (doc_matches_any(doc, fs.drop_last(), ctx) || doc_matches(doc, fs.last(), ctx))
}

/// Meeting all of the filters is meeting each of them.
pub proof fn lemma_matches_all(doc: JsonV, fs: Seq<FilterV>, ctx: CtxV)
    ensures
        doc_matches_all(doc, fs, ctx) <==> forall|i: int|
            0 <= i < fs.len() ==> doc_matches(doc, #[trigger] fs[i], ctx),
    decreases fs.len(),
{
    if fs.len() > 0 {
        let init = fs.drop_last();
        lemma_matches_all(doc, init, ctx);
        assert(forall|i: int| 0 <= i < init.len() ==> init[i] == fs[i]);
        if doc_matches_all(doc, fs, ctx) {
            assert forall|i: int| 0 <= i < fs.len() implies doc_matches(doc, #[trigger] fs[i], ctx) by {
                if i < init.len() {
                    assert(doc_matches(doc, init[i], ctx));
                }
            }
        } else if forall|i: int| 0 <= i < fs.len() ==> doc_matches(doc, #[trigger] fs[i], ctx) {
            assert(doc_matches(doc, fs[fs.len() - 1], ctx));
            assert forall|i: int| 0 <= i < init.len() implies doc_matches(
                doc,
                #[trigger] init[i],
                ctx,
            ) by {
                assert(doc_matches(doc, fs[i], ctx));
            }
        }
    }
}

/// Meeting one of the filters is meeting some filter among them.
pub proof fn lemma_matches_any(doc: JsonV, fs: Seq<FilterV>, ctx: CtxV)
    ensures
        doc_matches_any(doc, fs, ctx) <==> exists|i: int|
            0 <= i < fs.len() && doc_matches(doc, #[trigger] fs[i], ctx),
    decreases fs.len(),
{
    if fs.len() > 0 {
        let init = fs.drop_last();
        lemma_matches_any(doc, init, ctx);
        assert(forall|i: int| 0 <= i < init.len() ==> init[i] == fs[i]);
        if doc_matches_any(doc, init, ctx) {
            let i = choose|i: int| 0 <= i < init.len() && doc_matches(doc, #[trigger] init[i], ctx);
            assert(doc_matches(doc, fs[i], ctx));
        } else if doc_matches(doc, fs.last(), ctx) {
            assert(doc_matches(doc, fs[fs.len() - 1], ctx));
        } else if exists|i: int| 0 <= i < fs.len() && doc_matches(doc, #[trigger] fs[i], ctx) {
            let i = choose|i: int| 0 <= i < fs.len() && doc_matches(doc, #[trigger] fs[i], ctx);
            if i < init.len() {
                assert(doc_matches(doc, init[i], ctx));
            }
        }
    }
}

fn order_values(a: &Json, b: &Json) -> (r: Option<Sign>)
    ensures
        r == value_order(a@, b@),
{
    broadcast use json::lemma_json_view;

    match (a, b) {
        (Json::Number(x), Json::Number(y)) => number::compare_doubles(
            x.to_text().as_str(),
            y.to_text().as_str(),
        ),
        (Json::String(x), Json::String(y)) => {
            if text::same(x.as_str(), y.as_str()) {
                Some(Sign::Equal)
            } else if text::before(x.as_str(), y.as_str()) {
                Some(Sign::Less)
            } else {
                Some(Sign::Greater)
            }
        },
        (Json::Bool(x), Json::Bool(y)) => {
            if *x == *y {
                Some(Sign::Equal)
            } else if *y {
                Some(Sign::Less)
            } else {
                Some(Sign::Greater)
            }
        },
        _ => None,
    }
}

fn is_null(v: &Json) -> (r: bool)
    ensures
        r == (v@ == JsonV::Null),
{
    matches!(v, Json::Null)
}

fn holds(rel: Rel, stored: &Json, given: &Json) -> (r: bool)
    ensures
        r == rel_holds(rel, stored@, given@),
{
    match rel {
        Rel::Eq => stored.same(given),
        Rel::Neq => !stored.same(given),
        Rel::Gt => matches!(order_values(stored, given), Some(Sign::Greater)),
        Rel::Gte => matches!(order_values(stored, given), Some(Sign::Greater | Sign::Equal)),
        Rel::Lt => matches!(order_values(stored, given), Some(Sign::Less)),
        Rel::Lte => matches!(order_values(stored, given), Some(Sign::Less | Sign::Equal)),
    }
}

/// Whether a document meets a filter for a caller. A missing field, or one whose
/// value cannot be compared, meets no comparison.
pub fn filter_matches(doc: &Json, filter: &FilterExpr, ctx: &PrincipalCtx) -> (r: bool)
    ensures
        r == doc_matches(doc@, filter@, ctx@),
    decreases filter,
{
    broadcast use dsl::lemma_filter_view;
    broadcast use json::lemma_json_view;

    if let Some((rel, field, value)) = filter.comparison() {
        return match doc.get(field.as_str()) {
            Some(x) => {
                let given = resolve_value(value, ctx);
                !is_null(&given) && holds(rel, x, &given)
            },
            None => false,
        };
    }
    match filter {
        FilterExpr::And { exprs } => {
            let ghost fs = dsl::filter_views(exprs@);
            proof {
                lemma_matches_all(doc@, fs, ctx@);
            }
            let mut i: usize = 0;
            while i < exprs.len()
                invariant
                    doc_matches_all(doc@, fs, ctx@) <==> forall|i: int|
                        0 <= i < fs.len() ==> doc_matches(doc@, #[trigger] fs[i], ctx@),
                    i <= exprs@.len(),
                    *filter == (FilterExpr::And { exprs: *exprs }),
                    fs == dsl::filter_views(exprs@),
                    filter@ == FilterV::And(fs),
                    forall|k: int| 0 <= k < i ==> doc_matches(doc@, #[trigger] fs[k], ctx@),
                decreases exprs@.len() - i,
            {
                assert(decreases_to!(*exprs => exprs[i as int]));
                assert(decreases_to!(*filter => filter->And_exprs));
                if !filter_matches(doc, &exprs[i], ctx) {
                    assert(!doc_matches(doc@, fs[i as int], ctx@));
                    return false;
                }
                i = i + 1;
            }
            true
        },
        FilterExpr::Or { exprs } => {
            let ghost fs = dsl::filter_views(exprs@);
            proof {
                lemma_matches_any(doc@, fs, ctx@);
            }
            let mut i: usize = 0;
            while i < exprs.len()
                invariant
                    doc_matches_any(doc@, fs, ctx@) <==> exists|i: int|
                        0 <= i < fs.len() && doc_matches(doc@, #[trigger] fs[i], ctx@),
                    i <= exprs@.len(),
                    *filter == (FilterExpr::Or { exprs: *exprs }),
                    fs == dsl::filter_views(exprs@),
                    filter@ == FilterV::Or(fs),
                    forall|k: int| 0 <= k < i ==> !doc_matches(doc@, #[trigger] fs[k], ctx@),
                decreases exprs@.len() - i,
            {
                assert(decreases_to!(*exprs => exprs[i as int]));
                assert(decreases_to!(*filter => filter->Or_exprs));
                if filter_matches(doc, &exprs[i], ctx) {
                    assert(doc_matches(doc@, fs[i as int], ctx@));
                    return true;
                }
                i = i + 1;
            }
            false
        },
        FilterExpr::Not { expr } => !filter_matches(doc, expr, ctx),
        FilterExpr::In { field, values } => match doc.get(field.as_str()) {
            Some(x) => {
                if is_null(x) {
                    return false;
                }
                let ghost vs = resolved_values(json::json_views(values@), ctx@);
                let mut i: usize = 0;
                while i < values.len()
                    invariant
                        i <= values@.len(),
                        vs == resolved_values(json::json_views(values@), ctx@),
                        filter@ == FilterV::In(field@, json::json_views(values@)),
                        json::field_of(doc@, field@) == Some(x@),
                        x@ != JsonV::Null,
                        forall|k: int| 0 <= k < i ==> vs[k] != x@,
                    decreases values@.len() - i,
                {
                    if x.same(&resolve_value(&values[i], ctx)) {
                        assert(vs[i as int] == x@);
                        return true;
                    }
                    i = i + 1;
                }
                false
            },
            None => false,
        },
        FilterExpr::Contains { field, value } => match doc.get(field.as_str()) {
            Some(Json::Array(items)) => {
                let wanted = resolve_value(value, ctx);
                if is_null(&wanted) {
                    return false;
                }
                let ghost vs = json::json_views(items@);
                let mut i: usize = 0;
                while i < items.len()
                    invariant
                        i <= items@.len(),
                        vs == json::json_views(items@),
                        filter@ == FilterV::Contains(field@, value@),
                        wanted@ == resolved_value(value@, ctx@),
                        wanted@ != JsonV::Null,
                        json::field_of(doc@, field@) == Some(JsonV::Array(vs)),
                        forall|k: int| 0 <= k < i ==> vs[k] != wanted@,
                    decreases items@.len() - i,
                {
                    if items[i].same(&wanted) {
                        assert(vs[i as int] == wanted@);
                        return true;
                    }
                    i = i + 1;
                }
                false
            },
            _ => false,
        },
        FilterExpr::Exists { field } => match doc.get(field.as_str()) {
            Some(Json::Null) => false,
            Some(_) => true,
            None => false,
        },
        _ => false,
    }
}

} // verus!
