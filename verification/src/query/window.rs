//! The index window of a query: its equality prefix, range bounds, client
//! filter and per-row predicates as conditions with numbered binds.
#[allow(unused_imports)]
use vstd::prelude::*;
#[allow(unused_imports)]
use vstd::string::*;

use crate::dsl;
use crate::dsl::{BindV, CtxV, EqBind, FilterV, PrincipalCtx, Query, QueryV};
use crate::error;
use crate::error::{ErrorV, RtDbError};
use crate::json;
use crate::json::{Json, JsonV};
use crate::query::filter;
use crate::query::filter::{
    compile_filter, eq_bind_for, placeholder_text, push_row_conditions, quote,
};
use crate::query::row_auth;
use crate::query::row_auth::owner_filter;
use crate::schema;
use crate::schema::{pg_col, FieldType, IndexDef, IndexV, TableDef, TableV, TypeV};
use crate::text;
use crate::text::cat3;

verus! {

/// The declared type of an indexed field.
pub open spec fn indexed_type(t: TableV, field: Seq<char>) -> Result<TypeV, ErrorV> {
    if t.fields.contains_key(field) {
        Ok(t.fields[field])
    } else {
        Err(error::internal("index references unknown field '"@ + field + "'"@))
    }
}

/// The declared type of an indexed field.
pub fn index_field_type<'a>(t: &'a TableDef, field: &str) -> (r: Result<&'a FieldType, RtDbError>)
    ensures
        match indexed_type(t@, field@) {
            Ok(ty) => r matches Ok(x) && x@ == ty,
            Err(e) => r matches Err(x) && x@ == e,
        },
{
    match t.fields.get(field) {
        Some(ft) => Ok(ft),
        None => Err(
            RtDbError::internal(cat3("index references unknown field '", field, "'")),
        ),
    }
}

/// The typed binds of values for the leading fields of an index.
pub open spec fn prefix_binds(t: TableV, fields: Seq<Seq<char>>, eq: Seq<JsonV>) -> Result<
    Seq<BindV>,
    ErrorV,
>
    decreases eq.len(),
{
    if eq.len() == 0 {
        Ok(Seq::empty())
    } else {
        match prefix_binds(t, fields, eq.drop_last()) {
            Ok(binds) => match indexed_type(t, fields[eq.len() - 1]) {
                Ok(ty) => match filter::eq_bind(ty, eq.last()) {
                    Ok(b) => Ok(binds.push(b)),
                    Err(e) => Err(e),
                },
                Err(e) => Err(e),
            },
            Err(e) => Err(e),
        }
    }
}

/// The typed binds of an equality prefix, which is no longer than the index.
pub open spec fn eq_prefix(t: TableV, ix: IndexV, eq: Seq<JsonV>) -> Result<Seq<BindV>, ErrorV> {
    if eq.len() > ix.fields.len() {
        Err(error::bad("eq has more values than the index has fields"@))
    } else {
        prefix_binds(t, ix.fields, eq)
    }
}

proof fn lemma_prefix_fail(t: TableV, fields: Seq<Seq<char>>, eq: Seq<JsonV>, n: int)
    requires
        0 <= n <= eq.len(),
        prefix_binds(t, fields, eq.take(n)) is Err,
    ensures
        prefix_binds(t, fields, eq) == prefix_binds(t, fields, eq.take(n)),
    decreases eq.len(),
{
    if n == eq.len() {
        assert(eq.take(n) =~= eq);
    } else {
        assert(eq.drop_last().take(n) =~= eq.take(n));
        lemma_prefix_fail(t, fields, eq.drop_last(), n);
    }
}

/// There is one bind for each value of a prefix.
pub proof fn lemma_prefix_len(t: TableV, fields: Seq<Seq<char>>, eq: Seq<JsonV>)
    ensures
        prefix_binds(t, fields, eq) matches Ok(b) ==> b.len() == eq.len(),
    decreases eq.len(),
{
    if eq.len() > 0 {
        lemma_prefix_len(t, fields, eq.drop_last());
    }
}

/// Types the values of an equality prefix.
pub fn eq_binds(t: &TableDef, ix: &IndexDef, eq: &Vec<Json>) -> (r: Result<Vec<EqBind>, RtDbError>)
    ensures
        match eq_prefix(t@, ix@, json::json_views(eq@)) {
            Ok(p) => r matches Ok(x) && dsl::bind_views(x@) == p,
            Err(e) => r matches Err(x) && x@ == e,
        },
{
    let ghost vs = json::json_views(eq@);
    let ghost fields = ix@.fields;
    if eq.len() > ix.fields.len() {
        return Err(
            RtDbError::bad_request("eq has more values than the index has fields".to_owned()),
        );
    }
    let mut binds: Vec<EqBind> = Vec::new();
    let mut i: usize = 0;
    assert(vs.take(0) =~= Seq::<JsonV>::empty());
    assert(dsl::bind_views(binds@) =~= Seq::<BindV>::empty());
    while i < eq.len()
        invariant
            i <= eq@.len(),
            eq@.len() <= ix.fields@.len(),
            vs == json::json_views(eq@),
            fields == ix@.fields,
            prefix_binds(t@, fields, vs.take(i as int)) == Ok::<Seq<BindV>, ErrorV>(
                dsl::bind_views(binds@),
            ),
        decreases eq@.len() - i,
    {
        let ghost next = vs.take(i as int + 1);
        assert(next.drop_last() =~= vs.take(i as int));
        assert(next.last() == eq@[i as int]@);
        assert(fields[i as int] == ix.fields@[i as int]@);
        let ft = match index_field_type(t, ix.fields[i].as_str()) {
            Ok(ft) => ft,
            Err(e) => {
                proof {
                    lemma_prefix_fail(t@, fields, vs, i as int + 1);
                }
                return Err(e);
            },
        };
        match eq_bind_for(ft, &eq[i]) {
            Ok(b) => {
                let ghost before = dsl::bind_views(binds@);
                binds.push(b);
                assert(dsl::bind_views(binds@) =~= before.push(b@));
            },
            Err(e) => {
                proof {
                    lemma_prefix_fail(t@, fields, vs, i as int + 1);
                }
                return Err(e);
            },
        }
        i = i + 1;
    }
    assert(vs.take(eq@.len() as int) =~= vs);
    Ok(binds)
}

/// The condition that a field's column stands in a relation to a placeholder.
pub open spec fn column_condition(field: Seq<char>, op: Seq<char>, n: nat) -> Seq<char> {
    filter::quoted(schema::column(field)) + op + filter::placeholder(n)
}

fn column_condition_text(field: &str, op: &str, n: u128) -> (s: String)
    ensures
        s@ == column_condition(field@, op@, n as nat),
{
    cat3(quote(pg_col(field).as_str()).as_str(), op, placeholder_text(n).as_str())
}

/// The conditions of an equality prefix of `n` fields.
pub open spec fn prefix_conditions(fields: Seq<Seq<char>>, n: nat) -> Seq<Seq<char>> {
    Seq::new(n, |i: int| column_condition(fields[i], " = "@, (i + 1) as nat))
}

/// The lower bound of a query: the exclusive one before the inclusive one.
pub open spec fn lower_bound(q: QueryV) -> Option<(Seq<char>, JsonV)> {
    match (q.gt, q.gte) {
        (Some(v), _) => Some((" > "@, v)),
        (None, Some(v)) => Some((" >= "@, v)),
        _ => None,
    }
}

/// The upper bound of a query: the exclusive one before the inclusive one.
pub open spec fn upper_bound(q: QueryV) -> Option<(Seq<char>, JsonV)> {
    match (q.lt, q.lte) {
        (Some(v), _) => Some((" < "@, v)),
        (None, Some(v)) => Some((" <= "@, v)),
        _ => None,
    }
}

/// Conditions and binds after one more bound on a field.
pub open spec fn with_bound(
    conditions: Seq<Seq<char>>,
    binds: Seq<BindV>,
    bound: Option<(Seq<char>, JsonV)>,
    field: Seq<char>,
    ty: TypeV,
    eq_len: nat,
) -> Result<(Seq<Seq<char>>, Seq<BindV>), ErrorV> {
    match bound {
        Some((op, v)) => match filter::eq_bind(ty, v) {
            Ok(b) => Ok(
                (
                    conditions.push(column_condition(field, op, eq_len + binds.len() + 1)),
                    binds.push(b),
                ),
            ),
            Err(e) => Err(e),
        },
        None => Ok((conditions, binds)),
    }
}

/// The conditions and binds of the range bounds of a query, on the index field
/// behind the equality prefix.
pub open spec fn range_terms(t: TableV, ix: Option<IndexV>, q: QueryV, eq_len: nat) -> Result<
    (Seq<Seq<char>>, Seq<BindV>),
    ErrorV,
> {
    if q.gt is None && q.gte is None && q.lt is None && q.lte is None {
        Ok((Seq::empty(), Seq::empty()))
    } else {
        match ix {
            None => Err(error::bad("range bound requires an index"@)),
            Some(ix) => if eq_len >= ix.fields.len() {
                Err(error::bad("range bound requires a remaining index field after eq"@))
            } else {
                let field = ix.fields[eq_len as int];
                match indexed_type(t, field) {
                    Ok(ty) => match with_bound(
                        Seq::empty(),
                        Seq::empty(),
                        lower_bound(q),
                        field,
                        ty,
                        eq_len,
                    ) {
                        Ok((cs, bs)) => with_bound(cs, bs, upper_bound(q), field, ty, eq_len),
                        Err(e) => Err(e),
                    },
                    Err(e) => Err(e),
                }
            },
        }
    }
}

fn push_bound(
    conditions: &mut Vec<String>,
    binds: &mut Vec<EqBind>,
    op: &str,
    v: &Json,
    field: &str,
    ft: &FieldType,
    eq_len: usize,
) -> (r: Result<(), RtDbError>)
    ensures
        match with_bound(
            text::strs(old(conditions)@),
            dsl::bind_views(old(binds)@),
            Some((op@, v@)),
            field@,
            ft@,
            eq_len as nat,
        ) {
            Ok(p) => r is Ok && text::strs(final(conditions)@) == p.0 && dsl::bind_views(
                final(binds)@,
            ) == p.1,
            Err(e) => r matches Err(x) && x@ == e,
        },
{
    match eq_bind_for(ft, v) {
        Ok(b) => {
            let ghost cs = text::strs(conditions@);
            let ghost bs = dsl::bind_views(binds@);
            let n: u128 = eq_len as u128 + binds.len() as u128 + 1;
            let c = column_condition_text(field, op, n);
            conditions.push(c);
            binds.push(b);
            assert(text::strs(conditions@) =~= cs.push(c@));
            assert(dsl::bind_views(binds@) =~= bs.push(b@));
            Ok(())
        },
        Err(e) => Err(e),
    }
}

/// Compiles the range bounds of a query.
fn compile_range(t: &TableDef, ix: Option<&IndexDef>, q: &Query, eq_len: usize) -> (r: Result<
    (Vec<String>, Vec<EqBind>),
    RtDbError,
>)
    ensures
        match range_terms(
            t@,
            match ix {
                Some(x) => Some(x@),
                None => None,
            },
            q@,
            eq_len as nat,
        ) {
            Ok(p) => r matches Ok(x) && text::strs(x.0@) == p.0 && dsl::bind_views(x.1@) == p.1,
            Err(e) => r matches Err(x) && x@ == e,
        },
{
    let mut conditions: Vec<String> = Vec::new();
    let mut binds: Vec<EqBind> = Vec::new();
    assert(text::strs(conditions@) =~= Seq::<Seq<char>>::empty());
    assert(dsl::bind_views(binds@) =~= Seq::<BindV>::empty());
    if q.gt.is_none() && q.gte.is_none() && q.lt.is_none() && q.lte.is_none() {
        return Ok((conditions, binds));
    }
    let ix = match ix {
        Some(ix) => ix,
        None => {
            return Err(RtDbError::bad_request("range bound requires an index".to_owned()));
        },
    };
    if eq_len >= ix.fields.len() {
        return Err(
            RtDbError::bad_request(
                "range bound requires a remaining index field after eq".to_owned(),
            ),
        );
    }
    let field = ix.fields[eq_len].as_str();
    let ft = match index_field_type(t, field) {
        Ok(ft) => ft,
        Err(e) => {
            return Err(e);
        },
    };
    let lower: Option<(&str, &Json)> = match (&q.gt, &q.gte) {
        (Some(v), _) => Some((" > ", v)),
        (None, Some(v)) => Some((" >= ", v)),
        _ => None,
    };
    if let Some((op, v)) = lower {
        match push_bound(&mut conditions, &mut binds, op, v, field, ft, eq_len) {
            Ok(_) => {},
            Err(e) => {
                return Err(e);
            },
        }
    }
    let upper: Option<(&str, &Json)> = match (&q.lt, &q.lte) {
        (Some(v), _) => Some((" < ", v)),
        (None, Some(v)) => Some((" <= ", v)),
        _ => None,
    };
    if let Some((op, v)) = upper {
        match push_bound(&mut conditions, &mut binds, op, v, field, ft, eq_len) {
            Ok(_) => {},
            Err(e) => {
                return Err(e);
            },
        }
    }
    Ok((conditions, binds))
}

/// The rows a query ranges over: its index, the conditions on its rows and
/// their binds, and the position of the next placeholder.
#[derive(Debug)]
pub struct QueryWindow<'a> {
    pub index_def: Option<&'a IndexDef>,
    pub binds: Vec<EqBind>,
    pub eq_len: usize,
    pub range_binds: Vec<EqBind>,
    pub where_conditions: Vec<String>,
    pub filter_binds: Vec<EqBind>,
    pub limit_placeholder: u128,
}

/// The mathematical form of a window. Its binds are those of the equality
/// prefix, the range bounds and the filters, in this order.
pub struct WindowV {
    pub index: Option<IndexV>,
    pub eq_len: nat,
    pub conditions: Seq<Seq<char>>,
    pub binds: Seq<BindV>,
    pub next: nat,
}

impl<'a> View for QueryWindow<'a> {
    type V = WindowV;

    open spec fn view(&self) -> WindowV {
        WindowV {
            index: match self.index_def {
                Some(x) => Some(x@),
                None => None,
            },
            eq_len: self.eq_len as nat,
            conditions: text::strs(self.where_conditions@),
            binds: dsl::bind_views(self.binds@) + dsl::bind_views(self.range_binds@)
                + dsl::bind_views(self.filter_binds@),
            next: self.limit_placeholder as nat,
        }
    }
}

/// The filter of a query, narrowed to the caller's own rows where the table
/// names an owner field alone.
pub open spec fn effective_filter(t: TableV, q: QueryV, ctx: CtxV) -> Option<FilterV> {
    if t.owner_field is Some && t.collaborators_field is None {
        row_auth::owned_filter(q.filter, t.owner_field, ctx.user)
    } else {
        q.filter
    }
}

/// The caller whose rows the per-row predicate of a window selects: none where
/// the filter of the window selects them already.
pub open spec fn separate_owner(t: TableV, ctx: CtxV) -> Option<Seq<char>> {
    if t.owner_field is Some && t.collaborators_field is None {
        None
    } else {
        ctx.user
    }
}

/// The window behind the equality prefix and range bounds of a query.
pub open spec fn filtered_window(
    t: TableV,
    q: QueryV,
    ctx: CtxV,
    include_deleted: bool,
    index: Option<IndexV>,
    eq: Seq<BindV>,
    range: (Seq<Seq<char>>, Seq<BindV>),
) -> Result<WindowV, ErrorV> {
    let seek = (match index {
        Some(ix) => prefix_conditions(ix.fields, eq.len()),
        None => Seq::empty(),
    }) + range.0;
    let start = eq.len() + range.1.len() + 1;
    let client = match effective_filter(t, q, ctx) {
        Some(f) => match filter::client_filter_sql(f, t, start, None) {
            Ok((sql, binds)) => Ok((seek.push(sql), binds)),
            Err(e) => Err(e),
        },
        None => Ok((seek, Seq::empty())),
    };
    match client {
        Ok((conditions, binds)) => match filter::with_row_conditions(
            conditions,
            binds,
            t,
            ctx,
            separate_owner(t, ctx),
            start,
            t.soft_delete && !include_deleted,
        ) {
            Ok((all, filter_binds)) => Ok(
                WindowV {
                    index,
                    eq_len: eq.len(),
                    conditions: all,
                    binds: eq + range.1 + filter_binds,
                    next: start + filter_binds.len(),
                },
            ),
            Err(e) => Err(e),
        },
        Err(e) => Err(e),
    }
}

/// The window of a query on a table for a caller.
pub open spec fn window(t: TableV, q: QueryV, ctx: CtxV, include_deleted: bool) -> Result<
    WindowV,
    ErrorV,
> {
    let prefix = match q.index {
        Some(name) => match schema::find_index(t.indexes, name) {
            Some(ix) => match eq_prefix(t, ix, q.eq) {
                Ok(binds) => Ok((Some(ix), binds)),
                Err(e) => Err(e),
            },
            None => Err(error::bad("unknown index '"@ + name + "'"@)),
        },
        None => if q.eq.len() > 0 {
            Err(error::bad("eq requires an index"@))
        } else {
            Ok((None, Seq::empty()))
        },
    };
    match prefix {
        Ok((index, eq)) => match range_terms(t, index, q, eq.len()) {
            Ok(range) => filtered_window(t, q, ctx, include_deleted, index, eq, range),
            Err(e) => Err(e),
        },
        Err(e) => Err(e),
    }
}

fn prefix_condition_texts(ix: &IndexDef, n: usize) -> (r: Vec<String>)
    requires
        n <= ix.fields@.len(),
    ensures
        text::strs(r@) == prefix_conditions(ix@.fields, n as nat),
{
    let mut out: Vec<String> = Vec::new();
    let mut i: usize = 0;
    while i < n
        invariant
            i <= n <= ix.fields@.len(),
            out@.len() == i,
            forall|k: int|
                0 <= k < i ==> (#[trigger] out@[k])@ == column_condition(
                    ix@.fields[k],
                    " = "@,
                    (k + 1) as nat,
                ),
        decreases n - i,
    {
        assert(ix@.fields[i as int] == ix.fields@[i as int]@);
        out.push(column_condition_text(ix.fields[i].as_str(), " = ", i as u128 + 1));
        i = i + 1;
    }
    assert(text::strs(out@) =~= prefix_conditions(ix@.fields, n as nat));
    out
}

/// Compiles the index, equality prefix, range bounds, filter and per-row
/// predicates of a query into its window.
pub fn compile_query_window<'a>(
    table_def: &'a TableDef,
    q: &Query,
    ctx: &PrincipalCtx,
    include_deleted: bool,
) -> (r: Result<QueryWindow<'a>, RtDbError>)
    ensures
        match window(table_def@, q@, ctx@, include_deleted) {
            Ok(w) => r matches Ok(x) && x@ == w && (x.index_def matches Some(ix) ==> x.eq_len
                <= ix.fields@.len()),
            Err(e) => r matches Err(x) && x@ == e,
        },
{
    let index_def: Option<&'a IndexDef> = match &q.index {
        Some(name) => match table_def.index(name.as_str()) {
            Ok(ix) => Some(ix),
            Err(e) => {
                return Err(e);
            },
        },
        None => {
            if q.eq.len() > 0 {
                return Err(RtDbError::bad_request("eq requires an index".to_owned()));
            }
            None
        },
    };
    let binds: Vec<EqBind> = match index_def {
        Some(ix) => match eq_binds(table_def, ix, &q.eq) {
            Ok(b) => {
                proof {
                    lemma_prefix_len(table_def@, ix@.fields, q@.eq);
                }
                b
            },
            Err(e) => {
                return Err(e);
            },
        },
        None => Vec::new(),
    };
    let eq_len: usize = binds.len();
    let ghost eq = dsl::bind_views(binds@);
    assert(index_def is None ==> eq =~= Seq::<BindV>::empty());
    let (mut range_where, range_binds) = match compile_range(table_def, index_def, q, eq_len) {
        Ok(p) => p,
        Err(e) => {
            return Err(e);
        },
    };
    let ghost range_cs = text::strs(range_where@);
    let ghost range_bs = dsl::bind_views(range_binds@);
    let mut where_conditions: Vec<String> = match index_def {
        Some(ix) => prefix_condition_texts(ix, eq_len),
        None => Vec::new(),
    };
    let ghost prefix_cs = text::strs(where_conditions@);
    assert(index_def is None ==> prefix_cs =~= Seq::<Seq<char>>::empty());
    where_conditions.append(&mut range_where);
    assert(text::strs(where_conditions@) =~= prefix_cs + range_cs);
    let owner_only = table_def.owner_field.is_some() && table_def.collaborators_field.is_none();
    let client: Option<&dsl::FilterExpr> = match &q.filter {
        Some(f) => Some(f),
        None => None,
    };
    let effective = if owner_only {
        let owner_field: Option<&str> = match &table_def.owner_field {
            Some(s) => Some(s.as_str()),
            None => None,
        };
        let owner: Option<&str> = match &ctx.user_id {
            Some(s) => Some(s.as_str()),
            None => None,
        };
        assert(text::opt_slice(owner_field) == table_def@.owner_field);
        assert(text::opt_slice(owner) == ctx@.user);
        owner_filter(client, owner_field, owner)
    } else {
        match client {
            Some(f) => Some(f.copy()),
            None => None,
        }
    };
    assert(schema::opt_view(effective) == effective_filter(table_def@, q@, ctx@));
    let filter_start: u128 = eq_len as u128 + range_binds.len() as u128 + 1;
    let mut filter_binds: Vec<EqBind> = match &effective {
        Some(f) => match compile_filter(f, table_def, filter_start) {
            Ok((fragment, more)) => {
                let ghost before = text::strs(where_conditions@);
                where_conditions.push(fragment);
                assert(text::strs(where_conditions@) =~= before.push(fragment@));
                more
            },
            Err(e) => {
                return Err(e);
            },
        },
        None => Vec::new(),
    };
    assert(effective is None ==> dsl::bind_views(filter_binds@) =~= Seq::<BindV>::empty());
    let owner: Option<&str> = match &ctx.user_id {
        Some(s) => if owner_only {
            None
        } else {
            Some(s.as_str())
        },
        None => None,
    };
    assert(text::opt_slice(owner) == separate_owner(table_def@, ctx@));
    match push_row_conditions(
        &mut where_conditions,
        &mut filter_binds,
        table_def,
        ctx,
        owner,
        filter_start,
        table_def.soft_delete && !include_deleted,
    ) {
        Ok(_) => {},
        Err(e) => {
            return Err(e);
        },
    }
    let limit_placeholder: u128 = filter_start + filter_binds.len() as u128;
    assert(dsl::bind_views(filter_binds@).len() == filter_binds@.len());
    Ok(
        QueryWindow {
            index_def,
            binds,
            eq_len,
            range_binds,
            where_conditions,
            filter_binds,
            limit_placeholder,
        },
    )
}

/// The filter of a user's window on a table that names an owner field alone
/// selects, of the rows that the client asks for, exactly those that the user
/// owns.
pub proof fn law_owner_is_part_of_the_filter(doc: JsonV, t: TableV, q: QueryV, ctx: CtxV)
    requires
        t.owner_field is Some,
        t.collaborators_field is None,
        ctx.user is Some,
    ensures
        effective_filter(t, q, ctx) matches Some(f) && (row_auth::doc_matches(doc, f, ctx) <==> (
        q.filter matches Some(g) ==> row_auth::doc_matches(doc, g, ctx)) && json::field_of(
            doc,
            t.owner_field->0,
        ) == Some(JsonV::String(ctx.user->0))),
        separate_owner(t, ctx) is None,
{
    let own = FilterV::Compare(dsl::Rel::Eq, t.owner_field->0, JsonV::String(ctx.user->0));
    if let Some(g) = q.filter {
        let both = seq![g, own];
        row_auth::lemma_matches_all(doc, both, ctx);
        assert(both[0] == g && both[1] == own);
        let f = effective_filter(t, q, ctx)->0;
        assert(f == FilterV::And(both));
        assert(row_auth::doc_matches(doc, f, ctx) == row_auth::doc_matches_all(doc, both, ctx));
    }
}

/// The window of a query numbers its placeholders without a gap: the next one
/// comes right behind its binds.
pub proof fn law_window_is_numbered_without_gap(
    t: TableV,
    q: QueryV,
    ctx: CtxV,
    include_deleted: bool,
)
    ensures
        window(t, q, ctx, include_deleted) matches Ok(w) ==> w.next == w.binds.len() + 1,
{
}

} // verus!
