//! Hiding deleted rows costs one condition, and nothing else changes.
#[allow(unused_imports)]
use vstd::prelude::*;
#[allow(unused_imports)]
use vstd::string::*;

use crate::dsl::{
    AggregateSpec, BindV, CtxV, FilterV, HybridSearchV, Order, PaginateV, QueryV, SearchMode, SearchV,
    VectorSearchV,
};
use crate::error::ErrorV;
use crate::pagination;
use crate::query::compiled;
use crate::query::compiled::CompiledV;
use crate::query::filter;
use crate::query::keyset;
use crate::query::search;
use crate::query::search::SearchCtxV;
use crate::query::terminals;
use crate::query::window;
use crate::query::window::WindowV;
use crate::schema;
use crate::schema::{IndexV, TableV};
use crate::text;

verus! {

/// The condition that hides deleted rows.
pub open spec fn undeleted() -> Seq<char> {
    "\"deleted_at\" IS NULL"@
}

/// The condition that hides deleted rows with the word that ties it to the rest
/// of a statement.
pub open spec fn ties(added: Seq<char>) -> bool {
    ||| added == " WHERE "@ + undeleted()
    ||| added == " AND "@ + undeleted()
    ||| added == undeleted() + " AND "@
}

/// A statement is another with the given text put in between its two parts.
pub open spec fn splices(
    shown: Seq<char>,
    hidden: Seq<char>,
    pre: Seq<char>,
    added: Seq<char>,
    post: Seq<char>,
) -> bool {
    shown == pre + post && hidden == pre + added + post && ties(added)
}

/// A statement is another with the condition that hides deleted rows put in, at
/// one place.
pub open spec fn hides(shown: Seq<char>, hidden: Seq<char>) -> bool {
    exists|pre: Seq<char>, added: Seq<char>, post: Seq<char>| #[trigger]
        splices(shown, hidden, pre, added, post)
}

/// A compilation that shows deleted rows and one that hides them differ by the
/// condition alone, and not at all where the table keeps no deleted rows.
pub open spec fn differ_by_condition(
    keeps: bool,
    shown: Result<CompiledV, ErrorV>,
    hidden: Result<CompiledV, ErrorV>,
) -> bool {
    match (shown, hidden) {
        (Ok(s), Ok(h)) => {
            &&& h.binds == s.binds
            &&& h.terminal == s.terminal
            &&& if keeps {
                hides(s.sql, h.sql)
            } else {
                h.sql == s.sql
            }
        },
        (Err(s), Err(h)) => s == h,
        _ => false,
    }
}

/// Text before and behind does not matter.
proof fn lemma_within(shown: Seq<char>, hidden: Seq<char>, lead: Seq<char>, tail: Seq<char>)
    requires
        hides(shown, hidden),
    ensures
        hides(lead + shown + tail, lead + hidden + tail),
{
    let (pre, added, post) = choose|pre: Seq<char>, added: Seq<char>, post: Seq<char>| #[trigger]
        splices(shown, hidden, pre, added, post);
    assert(lead + shown + tail =~= (lead + pre) + (post + tail));
    assert(lead + hidden + tail =~= (lead + pre) + added + (post + tail));
    assert(splices(lead + shown + tail, lead + hidden + tail, lead + pre, added, post + tail));
}

proof fn lemma_joined_push(parts: Seq<Seq<char>>, s: Seq<char>, sep: Seq<char>)
    ensures
        text::joined(parts.push(s), sep) == (if parts.len() == 0 {
            s
        } else {
            text::joined(parts, sep) + sep + s
        }),
{
    assert(parts.push(s).drop_last() =~= parts);
}

/// The condition part of a statement with the condition put in last.
proof fn lemma_where(conditions: Seq<Seq<char>>)
    ensures
        hides(
            compiled::where_part(conditions),
            compiled::where_part(conditions.push(undeleted())),
        ),
{
    let shown = compiled::where_part(conditions);
    let hidden = compiled::where_part(conditions.push(undeleted()));
    let none = Seq::<char>::empty();
    lemma_joined_push(conditions, undeleted(), " AND "@);
    let added = if conditions.len() == 0 {
        " WHERE "@ + undeleted()
    } else {
        " AND "@ + undeleted()
    };
    assert(shown =~= shown + none);
    assert(hidden =~= shown + added + none);
    assert(splices(shown, hidden, shown, added, none));
}

/// The condition part of a statement with the condition put in last but one.
proof fn lemma_where_before(conditions: Seq<Seq<char>>, last: Seq<char>)
    ensures
        hides(
            compiled::where_part(conditions.push(last)),
            compiled::where_part(conditions.push(undeleted()).push(last)),
        ),
{
    let shown = compiled::where_part(conditions.push(last));
    let hidden = compiled::where_part(conditions.push(undeleted()).push(last));
    lemma_joined_push(conditions, undeleted(), " AND "@);
    lemma_joined_push(conditions, last, " AND "@);
    lemma_joined_push(conditions.push(undeleted()), last, " AND "@);
    if conditions.len() == 0 {
        let added = undeleted() + " AND "@;
        assert(hidden =~= " WHERE "@ + added + last);
        assert(splices(shown, hidden, " WHERE "@, added, last));
    } else {
        let pre = " WHERE "@ + text::joined(conditions, " AND "@);
        let added = " AND "@ + undeleted();
        let post = " AND "@ + last;
        assert(shown =~= pre + post);
        assert(hidden =~= pre + added + post);
        assert(splices(shown, hidden, pre, added, post));
    }
}

/// The row conditions of a scan that hides deleted rows are those of one that
/// shows them, and the condition.
proof fn lemma_row_conditions(
    conditions: Seq<Seq<char>>,
    binds: Seq<BindV>,
    t: TableV,
    ctx: CtxV,
    owner: Option<Seq<char>>,
    start: nat,
)
    ensures
        match (
            filter::with_row_conditions(conditions, binds, t, ctx, owner, start, false),
            filter::with_row_conditions(conditions, binds, t, ctx, owner, start, true),
        ) {
            (Ok(s), Ok(h)) => h.0 == s.0.push(undeleted()) && h.1 == s.1,
            (Err(s), Err(h)) => s == h,
            _ => false,
        },
{
}

/// A window that hides deleted rows is one that shows them, with the condition.
proof fn lemma_window(t: TableV, q: QueryV, ctx: CtxV)
    ensures
        match (window::window(t, q, ctx, true), window::window(t, q, ctx, false)) {
            (Ok(s), Ok(h)) => h == (WindowV {
                conditions: if t.soft_delete {
                    s.conditions.push(undeleted())
                } else {
                    s.conditions
                },
                ..s
            }),
            (Err(s), Err(h)) => s == h,
            _ => false,
        },
{
}

proof fn lemma_count(s: WindowV, h: WindowV, db: Seq<char>, table: Seq<char>)
    requires
        h == (WindowV { conditions: s.conditions.push(undeleted()), ..s }),
    ensures
        hides(terminals::count_sql(s, db, table).sql, terminals::count_sql(h, db, table).sql),
{
    let lead = "SELECT COUNT(*) FROM "@ + compiled::table_ref(db, table);
    let none = Seq::<char>::empty();
    let (a, b) = (compiled::where_part(s.conditions), compiled::where_part(h.conditions));
    lemma_where(s.conditions);
    lemma_within(a, b, lead, none);
    assert(lead + a + none =~= terminals::count_sql(s, db, table).sql);
    assert(lead + b + none =~= terminals::count_sql(h, db, table).sql);
}

proof fn lemma_distinct(s: WindowV, h: WindowV, db: Seq<char>, table: Seq<char>)
    requires
        h == (WindowV { conditions: s.conditions.push(undeleted()), ..s }),
    ensures
        differ_by_condition(
            true,
            terminals::distinct_sql(s, db, table),
            terminals::distinct_sql(h, db, table),
        ),
{
    if let Ok(c) = terminals::distinct_sql(s, db, table) {
        let lead = "SELECT DISTINCT to_jsonb("@ + filter::quoted(
            schema::column(s.index->0.fields[s.eq_len as int]),
        ) + ") AS v FROM "@ + compiled::table_ref(db, table);
        let tail = " ORDER BY v"@ + compiled::limit_part(s.next);
        let (a, b) = (compiled::where_part(s.conditions), compiled::where_part(h.conditions));
        lemma_where(s.conditions);
        lemma_within(a, b, lead, tail);
        assert(lead + a + tail =~= c.sql);
        assert(lead + b + tail =~= terminals::distinct_sql(h, db, table)->Ok_0.sql);
    }
}

proof fn lemma_aggregate(
    s: WindowV,
    h: WindowV,
    t: TableV,
    agg: AggregateSpec,
    db: Seq<char>,
    table: Seq<char>,
)
    requires
        h == (WindowV { conditions: s.conditions.push(undeleted()), ..s }),
    ensures
        differ_by_condition(
            true,
            terminals::aggregate_sql(s, t, agg, db, table),
            terminals::aggregate_sql(h, t, agg, db, table),
        ),
{
    assert(terminals::aggregate_fields(s, t, agg) == terminals::aggregate_fields(h, t, agg));
    if let Ok((group, field)) = terminals::aggregate_fields(s, t, agg) {
        let value = "COALESCE(to_jsonb("@ + terminals::aggregate_expr(agg.op, field)
            + "), 'null'::jsonb) AS v FROM "@ + compiled::table_ref(db, table);
        let (a, b) = (compiled::where_part(s.conditions), compiled::where_part(h.conditions));
        lemma_where(s.conditions);
        let shown = terminals::aggregate_sql(s, t, agg, db, table)->Ok_0.sql;
        let hidden = terminals::aggregate_sql(h, t, agg, db, table)->Ok_0.sql;
        match group {
            Some(g) => {
                let col = filter::quoted(schema::column(g));
                let lead = "SELECT to_jsonb("@ + col + ") AS k, "@ + value;
                let tail = " GROUP BY "@ + col + " ORDER BY k"@ + compiled::limit_part(s.next);
                lemma_within(a, b, lead, tail);
                assert(lead + a + tail =~= shown);
                assert(lead + b + tail =~= hidden);
            },
            None => {
                let lead = "SELECT "@ + value;
                let none = Seq::<char>::empty();
                lemma_within(a, b, lead, none);
                assert(lead + a + none =~= shown);
                assert(lead + b + none =~= hidden);
            },
        }
    }
}

proof fn lemma_documents(
    s: WindowV,
    h: WindowV,
    a: Seq<Seq<char>>,
    b: Seq<Seq<char>>,
    descending: bool,
    limit: nat,
    db: Seq<char>,
    table: Seq<char>,
)
    requires
        h == (WindowV { conditions: h.conditions, ..s }),
        hides(compiled::where_part(a), compiled::where_part(b)),
    ensures
        hides(
            terminals::documents_sql(s, a, descending, limit, db, table),
            terminals::documents_sql(h, b, descending, limit, db, table),
        ),
{
    let lead = "SELECT \"id\", \"doc\", \"created_at\", \"version\" FROM "@ + compiled::table_ref(
        db,
        table,
    );
    let tail = terminals::order_part(terminals::sort_columns(s), descending)
        + compiled::limit_part(limit);
    assert(terminals::sort_columns(s) == terminals::sort_columns(h));
    lemma_within(compiled::where_part(a), compiled::where_part(b), lead, tail);
    assert(lead + compiled::where_part(a) + tail =~= terminals::documents_sql(
        s,
        a,
        descending,
        limit,
        db,
        table,
    ));
    assert(lead + compiled::where_part(b) + tail =~= terminals::documents_sql(
        h,
        b,
        descending,
        limit,
        db,
        table,
    ));
}

proof fn lemma_paginate(
    s: WindowV,
    h: WindowV,
    t: TableV,
    p: PaginateV,
    descending: bool,
    db: Seq<char>,
    table: Seq<char>,
)
    requires
        h == (WindowV { conditions: s.conditions.push(undeleted()), ..s }),
    ensures
        differ_by_condition(
            true,
            terminals::paginate_sql(s, t, p, descending, db, table),
            terminals::paginate_sql(h, t, p, descending, db, table),
        ),
{
    assert(terminals::window_keys(t, s, descending) == terminals::window_keys(t, h, descending));
    if let Ok(keys) = terminals::window_keys(t, s, descending) {
        let start = s.binds.len() + 1;
        if let Some(cursor) = p.cursor {
            if let Ok(values) = pagination::cursor_values(cursor) {
                if let Ok((sql, binds)) = keyset::resume_sql(values, keys, start) {
                    lemma_where_before(s.conditions, sql);
                    lemma_documents(
                        s,
                        h,
                        s.conditions.push(sql),
                        h.conditions.push(sql),
                        descending,
                        start + binds.len(),
                        db,
                        table,
                    );
                }
            }
        } else {
            lemma_where(s.conditions);
            lemma_documents(
                s,
                h,
                s.conditions,
                h.conditions,
                descending,
                start,
                db,
                table,
            );
        }
    }
}

proof fn lemma_window_terminal(s: WindowV, h: WindowV, t: TableV, q: QueryV, db: Seq<char>)
    requires
        h == (WindowV { conditions: s.conditions.push(undeleted()), ..s }),
    ensures
        differ_by_condition(
            true,
            terminals::window_terminal(s, t, q, db),
            terminals::window_terminal(h, t, q, db),
        ),
{
    let descending = q.order == Some(Order::Desc);
    if q.count {
        lemma_count(s, h, db, q.table);
    } else if q.distinct {
        lemma_distinct(s, h, db, q.table);
    } else if let Some(agg) = q.aggregate {
        lemma_aggregate(s, h, t, agg, db, q.table);
    } else if let Some(p) = q.paginate {
        lemma_paginate(s, h, t, p, descending, db, q.table);
    } else {
        lemma_where(s.conditions);
        lemma_documents(s, h, s.conditions, h.conditions, descending, s.next, db, q.table);
    }
}

/// The extra conditions of a search that hides deleted rows.
proof fn lemma_extra(s: SearchCtxV, h: SearchCtxV, f: Option<FilterV>, start: nat)
    requires
        s.include_deleted,
        h == (SearchCtxV { include_deleted: false, ..s }),
        s.table.soft_delete,
    ensures
        match (search::extra_conditions(s, f, start), search::extra_conditions(h, f, start)) {
            (Ok(a), Ok(b)) => hides(a.0, b.0) && a.1 == b.1,
            (Err(a), Err(b)) => a == b,
            _ => false,
        },
{
    let none = Seq::<Seq<char>>::empty();
    let client = match f {
        Some(g) => filter::client_filter_sql(g, s.table, start, None),
        None => Ok((Seq::empty(), Seq::empty())),
    };
    if let Ok((sql, binds)) = client {
        let lead = if f is Some {
            " AND ("@ + sql + ")"@
        } else {
            Seq::empty()
        };
        lemma_row_conditions(none, binds, s.table, s.ctx, s.ctx.user, start);
        if let Ok((conditions, _)) = filter::with_row_conditions(
            none,
            binds,
            s.table,
            s.ctx,
            s.ctx.user,
            start,
            false,
        ) {
            let more = conditions.push(undeleted());
            assert(more.drop_last() =~= conditions);
            let pre = lead + search::and_all(conditions);
            let added = " AND "@ + undeleted();
            let end = Seq::<char>::empty();
            assert(lead + search::and_all(more) =~= pre + added + end);
            assert(pre =~= pre + end);
            assert(splices(pre, lead + search::and_all(more), pre, added, end));
        }
    }
}

/// Text behind does not matter.
proof fn lemma_behind(shown: Seq<char>, hidden: Seq<char>, tail: Seq<char>)
    requires
        hides(shown, hidden),
    ensures
        hides(shown + tail, hidden + tail),
{
    let none = Seq::<char>::empty();
    lemma_within(shown, hidden, none, tail);
    assert(none + shown =~= shown);
    assert(none + hidden =~= hidden);
}

/// Text before does not matter.
proof fn lemma_before(lead: Seq<char>, shown: Seq<char>, hidden: Seq<char>)
    requires
        hides(shown, hidden),
    ensures
        hides(lead + shown, lead + hidden),
{
    let none = Seq::<char>::empty();
    lemma_within(shown, hidden, lead, none);
    assert(lead + shown + none =~= lead + shown);
    assert(lead + hidden + none =~= lead + hidden);
}

proof fn lemma_search_statement(
    s: SearchCtxV,
    h: SearchCtxV,
    ix: IndexV,
    mode: SearchMode,
    snippet: bool,
    a: Seq<char>,
    b: Seq<char>,
    resume: Seq<char>,
    limit: nat,
)
    requires
        h == (SearchCtxV { include_deleted: false, ..s }),
        hides(a, b),
    ensures
        hides(
            search::search_statement(s, ix, mode, snippet, false, a, resume, limit),
            search::search_statement(h, ix, mode, snippet, false, b, resume, limit),
        ),
{
    let rank = search::text_rank(ix, mode);
    let columns = "SELECT \"id\", \"doc\", \"created_at\", \"version\""@ + (if snippet {
        search::snippet_column(ix)
    } else {
        Seq::empty()
    }) + Seq::empty();
    let lead = columns + " FROM "@ + compiled::table_ref(s.db, s.table_name) + " WHERE "@
        + search::match_condition(ix, mode);
    lemma_before(lead, a, b);
    let (a1, b1) = (lead + a, lead + b);
    lemma_behind(a1, b1, resume);
    let (a2, b2) = (a1 + resume, b1 + resume);
    lemma_behind(a2, b2, " ORDER BY "@);
    let (a3, b3) = (a2 + " ORDER BY "@, b2 + " ORDER BY "@);
    lemma_behind(a3, b3, rank);
    let order = " DESC, \"created_at\" DESC, \"id\" DESC"@;
    lemma_behind(a3 + rank, b3 + rank, order);
    lemma_behind(a3 + rank + order, b3 + rank + order, compiled::limit_part(limit));
}

proof fn lemma_search(s: SearchCtxV, h: SearchCtxV, q: SearchV, take: Option<u32>)
    requires
        s.include_deleted,
        h == (SearchCtxV { include_deleted: false, ..s }),
        s.table.soft_delete,
    ensures
        differ_by_condition(
            true,
            search::search_sql(s, q, take, None),
            search::search_sql(h, q, take, None),
        ),
{
    let start = search::text_binds(q).len() + 1;
    lemma_extra(s, h, q.filter, start);
    if let (Some(ix), Ok((a, binds)), Ok((b, _))) = (
        search::first_usable(s.table.indexes, Some(q.index), false),
        search::extra_conditions(s, q.filter, start),
        search::extra_conditions(h, q.filter, start),
    ) {
        let none = Seq::<BindV>::empty();
        lemma_search_statement(
            s,
            h,
            ix,
            search::mode_of(q),
            q.snippet == Some(true),
            a,
            b,
            Seq::empty(),
            start + binds.len() + none.len(),
        );
    }
}

proof fn lemma_vector(s: SearchCtxV, h: SearchCtxV, q: VectorSearchV)
    requires
        s.include_deleted,
        h == (SearchCtxV { include_deleted: false, ..s }),
        s.table.soft_delete,
    ensures
        differ_by_condition(
            true,
            search::vector_search_sql(s, q, None),
            search::vector_search_sql(h, q, None),
        ),
{
    lemma_extra(s, h, q.filter, 1);
    if let Ok(c) = search::vector_search_sql(s, q, None) {
        let ix = search::first_usable(s.table.indexes, Some(q.index), true)->0;
        let column = schema::vector_column(ix.name);
        let op = schema::distance_operator(ix.vector->0.metric);
        let (a, binds) = search::extra_conditions(s, q.filter, 1)->Ok_0;
        let b = search::extra_conditions(h, q.filter, 1)->Ok_0.0;
        let ph = 1 + binds.len();
        let lead = "SELECT \"id\", \"doc\", \"created_at\", \"version\" FROM "@ + compiled::table_ref(
            s.db,
            s.table_name,
        ) + " WHERE "@ + filter::quoted(column) + " IS NOT NULL"@;
        let tail = " ORDER BY "@ + search::distance(column, op, ph) + compiled::limit_part(ph + 1);
        lemma_within(a, b, lead, tail);
        assert(lead + a + tail =~= c.sql);
        assert(lead + b + tail =~= search::vector_search_sql(h, q, None)->Ok_0.sql);
    }
}

proof fn lemma_rankings(
    s: SearchCtxV,
    h: SearchCtxV,
    six: IndexV,
    vix: IndexV,
    a: Seq<char>,
    b: Seq<char>,
    vector_ph: nat,
)
    requires
        h == (SearchCtxV { include_deleted: false, ..s }),
        hides(a, b),
    ensures
        hides(
            search::hybrid_rankings(s, six, vix, a, vector_ph),
            search::hybrid_rankings(h, six, vix, b, vector_ph),
        ),
{
    let scol = filter::quoted(schema::search_column(six.name));
    let vcol = schema::vector_column(vix.name);
    let q = search::tsquery(six.language, 1);
    let d = search::distance(vcol, schema::distance_operator(vix.vector->0.metric), vector_ph);
    let matched =
        "WITH matched AS ( SELECT \"id\", \"doc\", \"created_at\", \"version\", ts_rank("@ + scol
        + ", "@ + q + ") AS trank, ("@ + d + ") AS dist FROM "@ + compiled::table_ref(
        s.db,
        s.table_name,
    );
    let lead = matched + " WHERE ("@ + scol + " @@ "@ + q + " OR "@ + filter::quoted(vcol)
        + " IS NOT NULL)"@;
    lemma_before(lead, a, b);
    lemma_behind(
        lead + a,
        lead + b,
        " ), ranked AS ( SELECT \"id\", \"doc\", \"created_at\", \"version\", ROW_NUMBER() OVER (ORDER BY trank DESC, \"created_at\" DESC, \"id\" DESC) AS r_text, ROW_NUMBER() OVER (ORDER BY dist ASC NULLS LAST, \"created_at\" DESC, \"id\" DESC) AS r_vec FROM matched )"@,
    );
}

proof fn lemma_hybrid_statement(a: Seq<char>, b: Seq<char>, k_ph: nat)
    requires
        hides(a, b),
    ensures
        hides(search::hybrid_statement(a, k_ph), search::hybrid_statement(b, k_ph)),
{
    let select = " SELECT \"id\", \"doc\", \"created_at\", \"version\" FROM ranked ORDER BY "@;
    let score = search::fused_score(k_ph);
    let order = " DESC, \"created_at\" DESC, \"id\" DESC"@;
    lemma_behind(a, b, select);
    lemma_behind(a + select, b + select, score);
    lemma_behind(a + select + score, b + select + score, order);
    lemma_behind(
        a + select + score + order,
        b + select + score + order,
        compiled::limit_part(k_ph + 1),
    );
}

proof fn lemma_hybrid(s: SearchCtxV, h: SearchCtxV, q: HybridSearchV)
    requires
        s.include_deleted,
        h == (SearchCtxV { include_deleted: false, ..s }),
        s.table.soft_delete,
    ensures
        differ_by_condition(
            true,
            search::hybrid_search_sql(s, q, None),
            search::hybrid_search_sql(h, q, None),
        ),
{
    lemma_extra(s, h, None, 2);
    if let (Some(six), Some(vix), Ok((a, binds)), Ok((b, _))) = (
        search::first_usable(s.table.indexes, q.search_index, false),
        search::first_usable(s.table.indexes, q.vector_index, true),
        search::extra_conditions(s, None, 2),
        search::extra_conditions(h, None, 2),
    ) {
        let ph = 2 + binds.len();
        lemma_rankings(s, h, six, vix, a, b, ph);
        lemma_hybrid_statement(
            search::hybrid_rankings(s, six, vix, a, ph),
            search::hybrid_rankings(h, six, vix, b, ph),
            ph + 1,
        );
    }
}

proof fn lemma_point(s: SearchCtxV, h: SearchCtxV, id: Seq<char>)
    requires
        s.include_deleted,
        h == (SearchCtxV { include_deleted: false, ..s }),
        s.table.soft_delete,
    ensures
        hides(terminals::point_sql(s, id).sql, terminals::point_sql(h, id).sql),
{
    reveal_strlit(" AND \"deleted_at\" IS NULL");
    reveal_strlit(" AND ");
    reveal_strlit("\"deleted_at\" IS NULL");
    reveal_strlit("");
    let shown = terminals::point_sql(s, id).sql;
    let hidden = terminals::point_sql(h, id).sql;
    let added = " AND "@ + undeleted();
    let none = Seq::<char>::empty();
    assert(" AND \"deleted_at\" IS NULL"@ =~= added);
    assert(shown =~= shown + none);
    assert(hidden =~= shown + added + none);
    assert(splices(shown, hidden, shown, added, none));
}

/// Whether deleted rows are included changes one thing about a compiled query:
/// the condition that hides them is there or not. The binds, the terminal and any
/// error are the same, and on a table that keeps no deleted rows so is the text.
pub proof fn law_hiding_deleted_rows_adds_one_condition(
    db: Seq<char>,
    schema: Map<Seq<char>, TableV>,
    q: QueryV,
    ctx: CtxV,
)
    ensures
        differ_by_condition(
            schema[q.table].soft_delete,
            terminals::query_sql(db, schema, q, ctx, true),
            terminals::query_sql(db, schema, q, ctx, false),
        ),
{
    if terminals::request_fault(db, schema, q, ctx) is None {
        let t = schema[q.table];
        let s = SearchCtxV { db, table_name: q.table, table: t, ctx, include_deleted: true };
        let h = SearchCtxV { include_deleted: false, ..s };
        if t.soft_delete {
            match (q.get, q.vector_search, q.hybrid_search, q.search) {
                (Some(id), _, _, _) => lemma_point(s, h, id),
                (None, Some(vs), _, _) => lemma_vector(s, h, vs),
                (None, None, Some(hs), _) => lemma_hybrid(s, h, hs),
                (None, None, None, Some(x)) => lemma_search(s, h, x, q.take),
                (None, None, None, None) => {
                    lemma_window(t, q, ctx);
                    if let Ok(w) = window::window(t, q, ctx, true) {
                        let v = window::window(t, q, ctx, false)->Ok_0;
                        lemma_window_terminal(w, v, t, q, db);
                    }
                },
            }
        } else {
            lemma_window(t, q, ctx);
        }
    }
}

} // verus!
