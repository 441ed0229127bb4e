//! The terminals over an index window, and the compilation of a whole query.
#[allow(unused_imports)]
use vstd::prelude::*;
#[allow(unused_imports)]
use vstd::string::*;

use crate::dsl;
use crate::dsl::{
    AggregateOp, AggregateSpec, BindV, CtxV, EqBind, Order, Paginate, PaginateV, PrincipalCtx, Query,
    QueryV,
};
use crate::error;
use crate::error::{ErrorCode, ErrorV, RtDbError};
use crate::json;
use crate::pagination;
use crate::pagination::decode_cursor;
use crate::query::combinations;
use crate::query::combinations::check_query_combinations;
use crate::query::compiled;
use crate::query::compiled::{
    limit_text, page_item_count, page_row_count, table_ref_text, where_text, CompiledQuery, CompiledV,
    MAX_TAKE,
};
use crate::query::filter;
use crate::query::filter::quote;
use crate::query::keyset;
use crate::query::keyset::{build_cursor_conditions, SortCol, SortColV, SortKey, SortKeyV};
use crate::query::search;
use crate::query::search::{
    compile_hybrid_search, compile_search, compile_vector_search, cursor_size_refused,
    CompileSearchCtx, SearchCtxV,
};
use crate::query::warnings;
use crate::query::warnings::{collect_filter_warnings, validate_projection};
use crate::query::window;
use crate::query::window::{compile_query_window, index_field_type, QueryWindow, WindowV};
use crate::schema;
use crate::schema::{
    authorize_table, pg_col, validate_db_name, FieldType, IndexDef, SchemaDef, TableDef, TableV, TypeV,
};
use crate::text;
use crate::text::{cat2, cat3, cat4, cat5, join};

verus! {

/// The equality prefix of a window lies within its index.
pub open spec fn fits(w: WindowV) -> bool {
    w.index matches Some(ix) ==> w.eq_len <= ix.fields.len()
}

/// All binds of a window, in order.
fn window_binds(binds: Vec<EqBind>, range: Vec<EqBind>, filters: Vec<EqBind>) -> (r: Vec<EqBind>)
    ensures
        dsl::bind_views(r@) == dsl::bind_views(binds@) + dsl::bind_views(range@) + dsl::bind_views(
            filters@,
        ),
{
    let mut all = binds;
    let mut range = range;
    let mut filters = filters;
    proof {
        compiled::lemma_bind_append(all@, range@);
        compiled::lemma_bind_append(all@ + range@, filters@);
    }
    all.append(&mut range);
    all.append(&mut filters);
    all
}

/// A count of the rows of a window.
pub open spec fn count_sql(w: WindowV, db: Seq<char>, table: Seq<char>) -> CompiledV {
    CompiledV {
        sql: "SELECT COUNT(*) FROM "@ + compiled::table_ref(db, table) + compiled::where_part(
            w.conditions,
        ),
        binds: w.binds,
        terminal: "count"@,
    }
}

/// Compiles a count of the rows of a window.
pub fn compile_count_terminal(w: QueryWindow, db: &str, table: &str) -> (r: CompiledQuery)
    ensures
        r@ == count_sql(w@, db@, table@),
{
    let sql = cat3(
        "SELECT COUNT(*) FROM ",
        table_ref_text(db, table).as_str(),
        where_text(&w.where_conditions).as_str(),
    );
    let all = window_binds(w.binds, w.range_binds, w.filter_binds);
    CompiledQuery { sql, binds: all, terminal: "count" }
}

/// The error for a distinct read without a field to read.
pub open spec fn distinct_field_error() -> ErrorV {
    error::bad("distinct requires an index field beyond the eq prefix"@)
}

/// The distinct values of the index field behind the equality prefix.
pub open spec fn distinct_sql(w: WindowV, db: Seq<char>, table: Seq<char>) -> Result<
    CompiledV,
    ErrorV,
> {
    match w.index {
        None => Err(distinct_field_error()),
        Some(ix) => if w.eq_len >= ix.fields.len() {
            Err(distinct_field_error())
        } else {
            Ok(
                CompiledV {
                    sql: "SELECT DISTINCT to_jsonb("@ + filter::quoted(
                        schema::column(ix.fields[w.eq_len as int]),
                    ) + ") AS v FROM "@ + compiled::table_ref(db, table) + compiled::where_part(
                        w.conditions,
                    ) + " ORDER BY v"@ + compiled::limit_part(w.next),
                    binds: w.binds.push(BindV::I64(MAX_TAKE as i64)),
                    terminal: "distinct"@,
                },
            )
        },
    }
}

/// Compiles a read of the distinct values of the index field behind the
/// equality prefix.
pub fn compile_distinct_terminal(w: QueryWindow, db: &str, table: &str) -> (r: Result<
    CompiledQuery,
    RtDbError,
>)
    ensures
        match distinct_sql(w@, db@, table@) {
            Ok(c) => r matches Ok(x) && x@ == c,
            Err(e) => r matches Err(x) && x@ == e,
        },
{
    let ix = match w.index_def {
        Some(ix) => ix,
        None => {
            return Err(distinct_refused());
        },
    };
    if w.eq_len >= ix.fields.len() {
        return Err(distinct_refused());
    }
    let col = quote(pg_col(ix.fields[w.eq_len].as_str()).as_str());
    let sql = text::cat7(
        "SELECT DISTINCT to_jsonb(",
        col.as_str(),
        ") AS v FROM ",
        table_ref_text(db, table).as_str(),
        where_text(&w.where_conditions).as_str(),
        " ORDER BY v",
        limit_text(w.limit_placeholder).as_str(),
    );
    let mut all = window_binds(w.binds, w.range_binds, w.filter_binds);
    let bind = EqBind::I64(MAX_TAKE as i64);
    proof {
        compiled::lemma_bind_add(all@, bind);
    }
    all.push(bind);
    Ok(CompiledQuery { sql, binds: all, terminal: "distinct" })
}

fn distinct_refused() -> (e: RtDbError)
    ensures
        e@ == distinct_field_error(),
{
    RtDbError::bad_request("distinct requires an index field beyond the eq prefix".to_owned())
}

/// A type whose values are numbers, behind any optional wrappers.
pub open spec fn numeric(t: TypeV) -> bool
    decreases t,
{
    match t {
        TypeV::Number => true,
        TypeV::Int64 => true,
        TypeV::Optional(inner) => numeric(*inner),
        _ => false,
    }
}

/// Whether the values of a type are numbers.
pub fn is_numeric_index_field(t: &FieldType) -> (r: bool)
    ensures
        r == numeric(t@),
    decreases t,
{
    match t {
        FieldType::Number => true,
        FieldType::Int64 => true,
        FieldType::Optional { inner } => is_numeric_index_field(inner),
        _ => false,
    }
}

/// The index field `offset` places behind the equality prefix.
pub open spec fn field_behind(w: WindowV, offset: nat) -> Option<Seq<char>> {
    match w.index {
        Some(ix) => if w.eq_len + offset < ix.fields.len() {
            Some(ix.fields[(w.eq_len + offset) as int])
        } else {
            None
        },
        None => None,
    }
}

/// The fields of an aggregation: the one it groups by and the one it aggregates,
/// where it has them.
pub open spec fn aggregate_fields(w: WindowV, t: TableV, agg: AggregateSpec) -> Result<
    (Option<Seq<char>>, Option<Seq<char>>),
    ErrorV,
> {
    if agg.group_by && field_behind(w, 0) is None {
        Err(error::bad("aggregate groupBy requires an index field beyond the eq prefix"@))
    } else {
        let group = if agg.group_by {
            field_behind(w, 0)
        } else {
            None
        };
        if agg.op == AggregateOp::Count {
            Ok((group, None))
        } else {
            match field_behind(
                w,
                if agg.group_by {
                    1
                } else {
                    0
                },
            ) {
                None => Err(
                    if agg.group_by {
                        error::bad(
                            "aggregate groupBy requires two index fields beyond the eq prefix"@,
                        )
                    } else {
                        error::bad("aggregate requires an index field beyond the eq prefix"@)
                    },
                ),
                Some(field) => match window::indexed_type(t, field) {
                    Err(e) => Err(e),
                    Ok(ty) => if (agg.op == AggregateOp::Sum || agg.op == AggregateOp::Avg)
                        && !numeric(ty) {
                        Err(
                            error::bad(
                                "aggregate op "@ + text::lowered(dsl::aggregate_name(agg.op))
                                    + " requires a numeric index field"@,
                            ),
                        )
                    } else {
                        Ok((group, Some(field)))
                    },
                },
            }
        }
    }
}

/// The aggregate expression over a field, or over the rows where there is none.
pub open spec fn aggregate_expr(op: AggregateOp, field: Option<Seq<char>>) -> Seq<char> {
    match field {
        Some(name) => dsl::aggregate_name(op) + "("@ + filter::quoted(schema::column(name)) + ")"@,
        None => "COUNT(*)"@,
    }
}

/// An aggregation of the rows of a window, or of each group of them.
pub open spec fn aggregate_sql(
    w: WindowV,
    t: TableV,
    agg: AggregateSpec,
    db: Seq<char>,
    table: Seq<char>,
) -> Result<CompiledV, ErrorV> {
    match aggregate_fields(w, t, agg) {
        Err(e) => Err(e),
        Ok((group, field)) => {
            let value = "COALESCE(to_jsonb("@ + aggregate_expr(agg.op, field)
                + "), 'null'::jsonb) AS v FROM "@ + compiled::table_ref(db, table)
                + compiled::where_part(w.conditions);
            match group {
                Some(g) => {
                    let col = filter::quoted(schema::column(g));
                    Ok(
                        CompiledV {
                            sql: "SELECT to_jsonb("@ + col + ") AS k, "@ + value + " GROUP BY "@
                                + col + " ORDER BY k"@ + compiled::limit_part(w.next),
                            binds: w.binds.push(BindV::I64(MAX_TAKE as i64)),
                            terminal: "aggregate"@,
                        },
                    )
                },
                None => Ok(
                    CompiledV { sql: "SELECT "@ + value, binds: w.binds, terminal: "aggregate"@ },
                ),
            }
        },
    }
}

fn index_field_behind<'a>(w: &QueryWindow<'a>, offset: usize) -> (r: Option<&'a str>)
    requires
        offset <= 1,
    ensures
        text::opt_slice(r) == field_behind(w@, offset as nat),
{
    match w.index_def {
        Some(ix) => {
            if w.eq_len < ix.fields.len() && offset < ix.fields.len() - w.eq_len {
                Some(ix.fields[w.eq_len + offset].as_str())
            } else {
                None
            }
        },
        None => None,
    }
}

/// Finds the fields of an aggregation.
fn resolve_aggregate<'a>(w: &QueryWindow<'a>, table_def: &TableDef, agg: &AggregateSpec) -> (r:
    Result<(Option<&'a str>, Option<&'a str>), RtDbError>)
    ensures
        match aggregate_fields(w@, table_def@, *agg) {
            Ok(p) => r matches Ok(x) && text::opt_slice(x.0) == p.0 && text::opt_slice(x.1) == p.1,
            Err(e) => r matches Err(x) && x@ == e,
        },
{
    let first = index_field_behind(w, 0);
    if agg.group_by && first.is_none() {
        return Err(
            RtDbError::bad_request(
                "aggregate groupBy requires an index field beyond the eq prefix".to_owned(),
            ),
        );
    }
    let group: Option<&'a str> = if agg.group_by {
        first
    } else {
        None
    };
    if !agg.op.needs_field() {
        return Ok((group, None));
    }
    let wanted = if agg.group_by {
        index_field_behind(w, 1)
    } else {
        first
    };
    let field = match wanted {
        Some(f) => f,
        None => {
            return Err(
                if agg.group_by {
                    RtDbError::bad_request(
                        "aggregate groupBy requires two index fields beyond the eq prefix".to_owned(),
                    )
                } else {
                    RtDbError::bad_request(
                        "aggregate requires an index field beyond the eq prefix".to_owned(),
                    )
                },
            );
        },
    };
    let ft = match index_field_type(table_def, field) {
        Ok(ft) => ft,
        Err(e) => {
            return Err(e);
        },
    };
    let arithmetic = match agg.op {
        AggregateOp::Sum => true,
        AggregateOp::Avg => true,
        _ => false,
    };
    if arithmetic && !is_numeric_index_field(ft) {
        return Err(
            RtDbError::bad_request(
                cat3(
                    "aggregate op ",
                    text::lower(agg.op.sql_fn()).as_str(),
                    " requires a numeric index field",
                ),
            ),
        );
    }
    Ok((group, Some(field)))
}

/// Compiles an aggregation of the rows of a window, or of each group of them.
pub fn compile_aggregate_terminal(
    w: QueryWindow,
    table_def: &TableDef,
    agg: &AggregateSpec,
    db: &str,
    table: &str,
) -> (r: Result<CompiledQuery, RtDbError>)
    ensures
        match aggregate_sql(w@, table_def@, *agg, db@, table@) {
            Ok(c) => r matches Ok(x) && x@ == c,
            Err(e) => r matches Err(x) && x@ == e,
        },
{
    let (group, field) = match resolve_aggregate(&w, table_def, agg) {
        Ok(p) => p,
        Err(e) => {
            return Err(e);
        },
    };
    let expr = match field {
        Some(name) => cat4(
            agg.op.sql_fn(),
            "(",
            quote(pg_col(name).as_str()).as_str(),
            ")",
        ),
        None => "COUNT(*)".to_owned(),
    };
    let value = cat5(
        "COALESCE(to_jsonb(",
        expr.as_str(),
        "), 'null'::jsonb) AS v FROM ",
        table_ref_text(db, table).as_str(),
        where_text(&w.where_conditions).as_str(),
    );
    match group {
        Some(g) => {
            let col = quote(pg_col(g).as_str());
            let sql = text::cat8(
                "SELECT to_jsonb(",
                col.as_str(),
                ") AS k, ",
                value.as_str(),
                " GROUP BY ",
                col.as_str(),
                " ORDER BY k",
                limit_text(w.limit_placeholder).as_str(),
            );
            let mut all = window_binds(w.binds, w.range_binds, w.filter_binds);
            let bind = EqBind::I64(MAX_TAKE as i64);
            proof {
                compiled::lemma_bind_add(all@, bind);
            }
            all.push(bind);
            Ok(CompiledQuery { sql, binds: all, terminal: "aggregate" })
        },
        None => {
            let sql = cat2("SELECT ", value.as_str());
            let all = window_binds(w.binds, w.range_binds, w.filter_binds);
            Ok(CompiledQuery { sql, binds: all, terminal: "aggregate" })
        },
    }
}

/// The index fields behind the equality prefix of a window.
pub open spec fn remaining_fields(w: WindowV) -> Seq<Seq<char>> {
    match w.index {
        Some(ix) => ix.fields.skip(w.eq_len as int),
        None => Seq::empty(),
    }
}

/// The columns that the rows of a window are sorted by: the remaining index
/// fields, the creation time, the id.
pub open spec fn sort_columns(w: WindowV) -> Seq<Seq<char>> {
    search::column_list(remaining_fields(w), ""@, ""@).push("\"created_at\""@).push("\"id\""@)
}

/// The name of a sort direction.
pub open spec fn direction(descending: bool) -> Seq<char> {
    if descending {
        "DESC"@
    } else {
        "ASC"@
    }
}

/// The sort part of a statement: every column in the one direction.
pub open spec fn order_part(columns: Seq<Seq<char>>, descending: bool) -> Seq<char> {
    " ORDER BY "@ + text::joined(
        Seq::new(columns.len(), |i: int| columns[i] + " "@ + direction(descending)),
        ", "@,
    )
}

/// The columns that the rows of a window are sorted by.
fn sort_column_texts(w: &QueryWindow) -> (r: Vec<String>)
    requires
        fits(w@),
    ensures
        text::strs(r@) == sort_columns(w@),
{
    let mut out: Vec<String> = Vec::new();
    match w.index_def {
        Some(ix) => {
            let ghost rest = remaining_fields(w@);
            let mut i: usize = w.eq_len;
            while i < ix.fields.len()
                invariant
                    w.eq_len <= i <= ix.fields@.len(),
                    rest == text::strs(ix.fields@).skip(w.eq_len as int),
                    out@.len() == i - w.eq_len,
                    forall|k: int|
                        0 <= k < out@.len() ==> (#[trigger] out@[k])@ == ""@ + filter::quoted(
                            schema::column(rest[k]),
                        ) + ""@,
                decreases ix.fields@.len() - i,
            {
                assert(rest[i - w.eq_len] == ix.fields@[i as int]@);
                out.push(cat3("", quote(pg_col(ix.fields[i].as_str()).as_str()).as_str(), ""));
                i = i + 1;
            }
        },
        None => {},
    }
    assert(text::strs(out@) =~= search::column_list(remaining_fields(w@), ""@, ""@));
    let ghost c0 = text::strs(out@);
    out.push("\"created_at\"".to_owned());
    out.push("\"id\"".to_owned());
    assert(text::strs(out@) =~= c0.push("\"created_at\""@).push("\"id\""@));
    out
}

fn order_text(columns: &Vec<String>, descending: bool) -> (s: String)
    ensures
        s@ == order_part(text::strs(columns@), descending),
{
    let dir = if descending {
        "DESC"
    } else {
        "ASC"
    };
    let ghost cs = text::strs(columns@);
    let mut parts: Vec<String> = Vec::new();
    let mut i: usize = 0;
    while i < columns.len()
        invariant
            i <= columns@.len(),
            cs == text::strs(columns@),
            dir@ == direction(descending),
            parts@.len() == i,
            forall|k: int| 0 <= k < i ==> (#[trigger] parts@[k])@ == cs[k] + " "@ + dir@,
        decreases columns@.len() - i,
    {
        parts.push(cat3(columns[i].as_str(), " ", dir));
        i = i + 1;
    }
    assert(text::strs(parts@) =~= Seq::new(
        cs.len(),
        |i: int| cs[i] + " "@ + direction(descending),
    ));
    cat2(" ORDER BY ", join(&parts, ", ").as_str())
}

/// The typed sort columns of the index fields, which the table must declare.
pub open spec fn index_keys(t: TableV, fields: Seq<Seq<char>>, descending: bool) -> Result<
    Seq<SortKeyV>,
    ErrorV,
>
    decreases fields.len(),
{
    if fields.len() == 0 {
        Ok(Seq::empty())
    } else {
        match index_keys(t, fields.drop_last(), descending) {
            Err(e) => Err(e),
            Ok(keys) => match window::indexed_type(t, fields.last()) {
                Err(e) => Err(e),
                Ok(ty) => Ok(
                    keys.push(
                        SortKeyV {
                            column: ""@ + filter::quoted(schema::column(fields.last())) + ""@,
                            kind: SortColV::IndexField(ty),
                            descending,
                        },
                    ),
                ),
            },
        }
    }
}

/// The typed sort columns of a window.
pub open spec fn window_keys(t: TableV, w: WindowV, descending: bool) -> Result<
    Seq<SortKeyV>,
    ErrorV,
> {
    match index_keys(t, remaining_fields(w), descending) {
        Err(e) => Err(e),
        Ok(keys) => Ok(
            keys.push(
                SortKeyV { column: "\"created_at\""@, kind: SortColV::CreatedAt, descending },
            ).push(SortKeyV { column: "\"id\""@, kind: SortColV::Id, descending }),
        ),
    }
}

proof fn lemma_index_keys_fail(t: TableV, fields: Seq<Seq<char>>, descending: bool, n: int)
    requires
        0 <= n <= fields.len(),
        index_keys(t, fields.take(n), descending) is Err,
    ensures
        index_keys(t, fields, descending) == index_keys(t, fields.take(n), descending),
    decreases fields.len(),
{
    if n == fields.len() {
        assert(fields.take(n) =~= fields);
    } else {
        assert(fields.drop_last().take(n) =~= fields.take(n));
        lemma_index_keys_fail(t, fields.drop_last(), descending, n);
    }
}

fn window_sort_keys<'t>(t: &'t TableDef, w: &QueryWindow, descending: bool) -> (r: Result<
    Vec<SortKey<'t>>,
    RtDbError,
>)
    requires
        fits(w@),
    ensures
        match window_keys(t@, w@, descending) {
            Ok(k) => r matches Ok(x) && keyset::key_views(x@) == k,
            Err(e) => r matches Err(x) && x@ == e,
        },
{
    let mut keys: Vec<SortKey<'t>> = Vec::new();
    let ghost rest = remaining_fields(w@);
    assert(keyset::key_views(keys@) =~= Seq::<SortKeyV>::empty());
    assert(rest.take(0) =~= Seq::<Seq<char>>::empty());
    match w.index_def {
        Some(ix) => {
            let mut i: usize = w.eq_len;
            while i < ix.fields.len()
                invariant
                    w.eq_len <= i <= ix.fields@.len(),
                    rest == text::strs(ix.fields@).skip(w.eq_len as int),
                    rest == remaining_fields(w@),
                    index_keys(t@, rest.take(i - w.eq_len), descending) == Ok::<
                        Seq<SortKeyV>,
                        ErrorV,
                    >(keyset::key_views(keys@)),
                decreases ix.fields@.len() - i,
            {
                let ghost next = rest.take(i - w.eq_len + 1);
                assert(next.drop_last() =~= rest.take(i - w.eq_len));
                assert(next.last() == ix.fields@[i as int]@);
                match index_field_type(t, ix.fields[i].as_str()) {
                    Ok(ft) => {
                        let key = SortKey {
                            column: cat3(
                                "",
                                quote(pg_col(ix.fields[i].as_str()).as_str()).as_str(),
                                "",
                            ),
                            kind: SortCol::IndexField(ft),
                            descending,
                        };
                        let ghost before = keyset::key_views(keys@);
                        let ghost kv = key@;
                        keys.push(key);
                        assert(keyset::key_views(keys@) =~= before.push(kv));
                    },
                    Err(e) => {
                        proof {
                            lemma_index_keys_fail(t@, rest, descending, i - w.eq_len + 1);
                        }
                        return Err(e);
                    },
                }
                i = i + 1;
            }
        },
        None => {},
    }
    assert(rest.take(rest.len() as int) =~= rest);
    let ghost k0 = keyset::key_views(keys@);
    keys.push(
        SortKey { column: "\"created_at\"".to_owned(), kind: SortCol::CreatedAt, descending },
    );
    keys.push(SortKey { column: "\"id\"".to_owned(), kind: SortCol::Id, descending });
    assert(keyset::key_views(keys@) =~= k0.push(
        SortKeyV { column: "\"created_at\""@, kind: SortColV::CreatedAt, descending },
    ).push(SortKeyV { column: "\"id\""@, kind: SortColV::Id, descending }));
    Ok(keys)
}

/// The documents of a window under further conditions, in order, up to a limit.
pub open spec fn documents_sql(
    w: WindowV,
    conditions: Seq<Seq<char>>,
    descending: bool,
    limit: nat,
    db: Seq<char>,
    table: Seq<char>,
) -> Seq<char> {
    "SELECT \"id\", \"doc\", \"created_at\", \"version\" FROM "@ + compiled::table_ref(db, table)
        + compiled::where_part(conditions) + order_part(sort_columns(w), descending)
        + compiled::limit_part(limit)
}

/// One page of the documents of a window.
pub open spec fn paginate_sql(
    w: WindowV,
    t: TableV,
    p: PaginateV,
    descending: bool,
    db: Seq<char>,
    table: Seq<char>,
) -> Result<CompiledV, ErrorV> {
    match window_keys(t, w, descending) {
        Err(e) => Err(e),
        Ok(keys) => {
            let start = w.binds.len() + 1;
            let resume = match p.cursor {
                None => Ok((w.conditions, Seq::empty())),
                Some(cursor) => match pagination::cursor_values(cursor) {
                    Err(e) => Err(e),
                    Ok(values) => if values.len() != keys.len() {
                        Err(search::cursor_size_error(values.len(), keys.len()))
                    } else {
                        match keyset::resume_sql(values, keys, start) {
                            Err(e) => Err(e),
                            Ok((sql, binds)) => Ok((w.conditions.push(sql), binds)),
                        }
                    },
                },
            };
            match resume {
                Err(e) => Err(e),
                Ok((conditions, binds)) => Ok(
                    CompiledV {
                        sql: documents_sql(
                            w,
                            conditions,
                            descending,
                            start + binds.len(),
                            db,
                            table,
                        ),
                        binds: (w.binds + binds).push(
                            BindV::I64(compiled::page_rows(p.num_items)),
                        ),
                        terminal: "paginate"@,
                    },
                ),
            }
        },
    }
}

/// What the rows of a page are cut by: how many items it has, and the index and
/// equality prefix that it is sorted behind.
#[derive(Debug)]
pub struct PageContext<'a> {
    pub num_items: u32,
    pub index_def: Option<&'a IndexDef>,
    pub eq_len: usize,
}

/// What the rows of a page of a window are cut by.
pub fn page_context<'a>(w: &QueryWindow<'a>, paginate: &Paginate) -> (r: PageContext<'a>)
    ensures
        r.num_items == compiled::page_items(paginate@.num_items),
        r.index_def == w.index_def,
        r.eq_len == w.eq_len,
{
    PageContext {
        num_items: page_item_count(paginate.num_items),
        index_def: w.index_def,
        eq_len: w.eq_len,
    }
}

/// Compiles a read of one page of the documents of a window.
pub fn compile_paginate_terminal(
    w: QueryWindow,
    table_def: &TableDef,
    paginate: &Paginate,
    descending: bool,
    db: &str,
    table: &str,
) -> (r: Result<CompiledQuery, RtDbError>)
    requires
        fits(w@),
    ensures
        match paginate_sql(w@, table_def@, paginate@, descending, db@, table@) {
            Ok(c) => r matches Ok(x) && x@ == c,
            Err(e) => r matches Err(x) && x@ == e,
        },
{
    let ghost wv = w@;
    let keys = match window_sort_keys(table_def, &w, descending) {
        Ok(k) => k,
        Err(e) => {
            return Err(e);
        },
    };
    assert(keyset::key_views(keys@).len() == keys@.len());
    let order = order_text(&sort_column_texts(&w), descending);
    let start: u128 = w.binds.len() as u128 + w.range_binds.len() as u128 + w.filter_binds.len() as u128
        + 1;
    assert(start == wv.binds.len() + 1);
    let mut conditions = w.where_conditions;
    let mut cursor_binds: Vec<EqBind> = Vec::new();
    assert(dsl::bind_views(cursor_binds@) =~= Seq::<BindV>::empty());
    match &paginate.cursor {
        Some(cursor) => {
            let values = match decode_cursor(cursor.as_str()) {
                Ok(v) => v,
                Err(e) => {
                    return Err(e);
                },
            };
            assert(json::json_views(values@).len() == values@.len());
            if values.len() != keys.len() {
                return Err(cursor_size_refused(values.len(), keys.len()));
            }
            let key_count: usize = keys.len();
            proof {
                keyset::lemma_triangle_fits(key_count as nat);
            }
            match build_cursor_conditions(&values, &keys, start) {
                Ok((sql, binds)) => {
                    let ghost before = text::strs(conditions@);
                    conditions.push(sql);
                    assert(text::strs(conditions@) =~= before.push(sql@));
                    cursor_binds = binds;
                },
                Err(e) => {
                    return Err(e);
                },
            }
        },
        None => {},
    }
    assert(dsl::bind_views(cursor_binds@).len() == cursor_binds@.len());
    let limit: u128 = start + cursor_binds.len() as u128;
    let sql = cat5(
        "SELECT \"id\", \"doc\", \"created_at\", \"version\" FROM ",
        table_ref_text(db, table).as_str(),
        where_text(&conditions).as_str(),
        order.as_str(),
        limit_text(limit).as_str(),
    );
    let mut all = window_binds(w.binds, w.range_binds, w.filter_binds);
    let rows = EqBind::I64(page_row_count(paginate.num_items));
    proof {
        compiled::lemma_bind_append(all@, cursor_binds@);
        compiled::lemma_bind_add(all@ + cursor_binds@, rows);
    }
    all.append(&mut cursor_binds);
    all.push(rows);
    Ok(CompiledQuery { sql, binds: all, terminal: "paginate" })
}

/// The number of rows a collecting read asks for: two to see that a row is
/// unique, one for the first row, what is asked otherwise.
pub open spec fn collect_limit(unique: bool, first: bool, take: Option<u32>) -> i64 {
    if unique {
        2
    } else if first {
        1
    } else {
        match take {
            Some(n) => n as i64,
            None => MAX_TAKE as i64,
        }
    }
}

/// The documents of a window: the unique one, the first one, or all.
pub open spec fn collect_sql(
    w: WindowV,
    unique: bool,
    first: bool,
    take: Option<u32>,
    descending: bool,
    db: Seq<char>,
    table: Seq<char>,
) -> CompiledV {
    CompiledV {
        sql: documents_sql(w, w.conditions, descending, w.next, db, table),
        binds: w.binds.push(BindV::I64(collect_limit(unique, first, take))),
        terminal: if unique {
            "unique"@
        } else if first {
            "first"@
        } else {
            "collect"@
        },
    }
}

/// Compiles a read of the documents of a window.
pub fn compile_collect_terminal(
    w: QueryWindow,
    unique: bool,
    first: bool,
    take: Option<u32>,
    descending: bool,
    db: &str,
    table: &str,
) -> (r: CompiledQuery)
    requires
        fits(w@),
    ensures
        r@ == collect_sql(w@, unique, first, take, descending, db@, table@),
{
    let order = order_text(&sort_column_texts(&w), descending);
    let sql = cat5(
        "SELECT \"id\", \"doc\", \"created_at\", \"version\" FROM ",
        table_ref_text(db, table).as_str(),
        where_text(&w.where_conditions).as_str(),
        order.as_str(),
        limit_text(w.limit_placeholder).as_str(),
    );
    let limit: i64 = if unique {
        2
    } else if first {
        1
    } else {
        match take {
            Some(n) => n as i64,
            None => MAX_TAKE as i64,
        }
    };
    let mut all = window_binds(w.binds, w.range_binds, w.filter_binds);
    let bind = EqBind::I64(limit);
    proof {
        compiled::lemma_bind_add(all@, bind);
    }
    all.push(bind);
    let terminal = if unique {
        "unique"
    } else if first {
        "first"
    } else {
        "collect"
    };
    CompiledQuery { sql, binds: all, terminal }
}

/// A read of one document by its id.
pub open spec fn point_sql(c: SearchCtxV, id: Seq<char>) -> CompiledV {
    CompiledV {
        sql: "SELECT \"id\", \"doc\", \"created_at\", \"version\" FROM "@ + compiled::table_ref(
            c.db,
            c.table_name,
        ) + " WHERE \"id\" = $1"@ + (if c.table.soft_delete && !c.include_deleted {
            " AND \"deleted_at\" IS NULL"@
        } else {
            ""@
        }),
        binds: seq![BindV::Text(id)],
        terminal: "get"@,
    }
}

/// Compiles a read of one document by its id.
pub fn compile_point_read(sctx: &CompileSearchCtx, id: &str) -> (r: CompiledQuery)
    ensures
        r@ == point_sql(sctx@, id@),
{
    let hidden = if sctx.table_def.soft_delete && !sctx.include_deleted {
        " AND \"deleted_at\" IS NULL"
    } else {
        ""
    };
    let sql = cat4(
        "SELECT \"id\", \"doc\", \"created_at\", \"version\" FROM ",
        table_ref_text(sctx.db, sctx.table_name).as_str(),
        " WHERE \"id\" = $1",
        hidden,
    );
    let mut binds: Vec<EqBind> = Vec::new();
    binds.push(EqBind::Text(id.to_owned()));
    assert(dsl::bind_views(binds@) =~= seq![BindV::Text(id@)]);
    CompiledQuery { sql, binds, terminal: "get" }
}

/// What is wrong with a query before its terminal is compiled, if anything.
pub open spec fn request_fault(
    db: Seq<char>,
    schema: Map<Seq<char>, TableV>,
    q: QueryV,
    ctx: CtxV,
) -> Option<ErrorV> {
    if !schema::db_name_ok(db) {
        Some(error::bad("invalid database name '"@ + db + "'"@))
    } else if !schema::may_use_table(ctx, q.table) {
        Some(
            ErrorV {
                code: ErrorCode::Forbidden,
                message: "table '"@ + q.table + "' is not allowed for this credential"@,
                retry_after: None,
            },
        )
    } else if !schema.contains_key(q.table) {
        Some(error::missing("unknown table '"@ + q.table + "'"@))
    } else if q.fields matches Some(names) && warnings::projection_fault(
        schema[q.table],
        names,
    ) is Some {
        warnings::projection_fault(schema[q.table], q.fields->0)
    } else if combinations::combination_fault(q) is Some {
        combinations::combination_fault(q)
    } else if q.take matches Some(n) && n > MAX_TAKE {
        Some(error::bad("take exceeds maximum of 4096"@))
    } else {
        None
    }
}

/// The terminal of a query over its window, compiled.
pub open spec fn window_terminal(
    w: WindowV,
    t: TableV,
    q: QueryV,
    db: Seq<char>,
) -> Result<CompiledV, ErrorV> {
    let descending = q.order == Some(Order::Desc);
    if q.count {
        Ok(count_sql(w, db, q.table))
    } else if q.distinct {
        distinct_sql(w, db, q.table)
    } else {
        match (q.aggregate, q.paginate) {
            (Some(agg), _) => aggregate_sql(w, t, agg, db, q.table),
            (None, Some(p)) => paginate_sql(w, t, p, descending, db, q.table),
            (None, None) => Ok(
                collect_sql(w, q.unique, q.first, q.take, descending, db, q.table),
            ),
        }
    }
}

/// A query on a known table, compiled by its terminal.
pub open spec fn terminal_sql(c: SearchCtxV, q: QueryV) -> Result<CompiledV, ErrorV> {
    match (q.get, q.vector_search, q.hybrid_search, q.search) {
        (Some(id), _, _, _) => Ok(point_sql(c, id)),
        (None, Some(vs), _, _) => search::vector_search_sql(c, vs, None),
        (None, None, Some(hs), _) => search::hybrid_search_sql(c, hs, None),
        (None, None, None, Some(s)) => search::search_sql(c, s, q.take, None),
        (None, None, None, None) => match window::window(c.table, q, c.ctx, c.include_deleted) {
            Ok(w) => window_terminal(w, c.table, q, c.db),
            Err(e) => Err(e),
        },
    }
}

/// A query, compiled.
pub open spec fn query_sql(
    db: Seq<char>,
    schema: Map<Seq<char>, TableV>,
    q: QueryV,
    ctx: CtxV,
    include_deleted: bool,
) -> Result<CompiledV, ErrorV> {
    match request_fault(db, schema, q, ctx) {
        Some(e) => Err(e),
        None => terminal_sql(
            SearchCtxV {
                db,
                table_name: q.table,
                table: schema[q.table],
                ctx,
                include_deleted,
            },
            q,
        ),
    }
}

/// Compiles a query on a table that was found and whose parts fit together.
fn compile_terminal(sctx: &CompileSearchCtx, q: &Query) -> (r: Result<CompiledQuery, RtDbError>)
    requires
        sctx@.table_name == q@.table,
    ensures
        match terminal_sql(sctx@, q@) {
            Ok(c) => r matches Ok(x) && x@ == c,
            Err(e) => r matches Err(x) && x@ == e,
        },
{
    if let Some(id) = &q.get {
        return Ok(compile_point_read(sctx, id.as_str()));
    }
    if let Some(vs) = &q.vector_search {
        return compile_vector_search(sctx, vs, None);
    }
    if let Some(hs) = &q.hybrid_search {
        return compile_hybrid_search(sctx, hs, None);
    }
    if let Some(s) = &q.search {
        return compile_search(sctx, s, q.take, None);
    }
    let w = match compile_query_window(sctx.table_def, q, sctx.ctx, sctx.include_deleted) {
        Ok(w) => w,
        Err(e) => {
            return Err(e);
        },
    };
    let db = sctx.db;
    let table = q.table.as_str();
    if q.count {
        return Ok(compile_count_terminal(w, db, table));
    }
    if q.distinct {
        return compile_distinct_terminal(w, db, table);
    }
    if let Some(agg) = &q.aggregate {
        return compile_aggregate_terminal(w, sctx.table_def, agg, db, table);
    }
    let descending = match q.order {
        Some(Order::Desc) => true,
        _ => false,
    };
    if let Some(p) = &q.paginate {
        return compile_paginate_terminal(w, sctx.table_def, p, descending, db, table);
    }
    Ok(compile_collect_terminal(w, q.unique, q.first, q.take, descending, db, table))
}

/// Compiles a query to the statement and binds that answer it, with warnings
/// about its filters. A query that cannot be answered is rejected here.
pub fn compile_query(
    db: &str,
    schema: &SchemaDef,
    q: &Query,
    ctx: &PrincipalCtx,
    include_deleted: bool,
) -> (r: Result<(CompiledQuery, Vec<String>), RtDbError>)
    ensures
        match query_sql(db@, schema@, q@, ctx@, include_deleted) {
            Ok(c) => r matches Ok(x) && x.0@ == c && text::strs(x.1@) == warnings::query_warnings(
                schema@,
                q@,
            ),
            Err(e) => r matches Err(x) && x@ == e,
        },
{
    let found = collect_filter_warnings(schema, q);
    match validate_db_name(db) {
        Ok(_) => {},
        Err(e) => {
            return Err(e);
        },
    }
    match authorize_table(ctx, q.table.as_str()) {
        Ok(_) => {},
        Err(e) => {
            return Err(e);
        },
    }
    let table_def = match schema.table(q.table.as_str()) {
        Ok(t) => t,
        Err(e) => {
            return Err(e);
        },
    };
    if let Some(fields) = &q.fields {
        match validate_projection(table_def, fields) {
            Ok(_) => {},
            Err(e) => {
                return Err(e);
            },
        }
    }
    match check_query_combinations(q) {
        Ok(_) => {},
        Err(e) => {
            return Err(e);
        },
    }
    if let Some(take) = q.take {
        if take > MAX_TAKE {
            return Err(RtDbError::bad_request("take exceeds maximum of 4096".to_owned()));
        }
    }
    let sctx = CompileSearchCtx {
        db,
        table_name: q.table.as_str(),
        table_def,
        ctx,
        include_deleted,
    };
    match compile_terminal(&sctx, q) {
        Ok(c) => Ok((c, found)),
        Err(e) => Err(e),
    }
}

proof fn lemma_index_keys(t: TableV, fields: Seq<Seq<char>>, descending: bool)
    ensures
        index_keys(t, fields, descending) matches Ok(keys) ==> keys.len() == fields.len() && (
        forall|i: int|
            0 <= i < keys.len() ==> (#[trigger] keys[i]).column == search::column_list(
                fields,
                ""@,
                ""@,
            )[i] && keys[i].descending == descending),
    decreases fields.len(),
{
    if fields.len() > 0 {
        lemma_index_keys(t, fields.drop_last(), descending);
        let head = search::column_list(fields.drop_last(), ""@, ""@);
        let all = search::column_list(fields, ""@, ""@);
        assert(forall|i: int| 0 <= i < head.len() ==> #[trigger] all[i] == head[i]);
    }
}

/// A page is resumed by the columns it is sorted by, in their order and in their
/// direction; the last of them is the id.
pub proof fn law_page_resumes_as_it_sorts(t: TableV, w: WindowV, descending: bool)
    ensures
        window_keys(t, w, descending) matches Ok(keys) ==> keys.len() == sort_columns(w).len() && (
        forall|i: int|
            0 <= i < keys.len() ==> (#[trigger] keys[i]).column == sort_columns(w)[i]
                && keys[i].descending == descending) && keys.last().kind == SortColV::Id,
{
    lemma_index_keys(t, remaining_fields(w), descending);
}

} // verus!
