//! What a compiled query reads: the rows that it admits, in the order and up to
//! the number that it asks for, or what they come to.
#[allow(unused_imports)]
use vstd::prelude::*;

use crate::dsl::{AggregateOp, AggregateSpec, BindV, Order, PaginateV, QueryV};
use crate::error::ErrorV;
use crate::json::JsonV;
use crate::pagination;
use crate::query::admission;
use crate::query::agreement;
use crate::query::compiled;
use crate::query::compiled::CompiledV;
use crate::query::filter;
use crate::query::keyset;
use crate::query::keyset::SortKeyV;
use crate::query::meaning;
use crate::query::meaning::{Cond, Row};
use crate::query::resumption;
use crate::query::retrieval;
use crate::query::retrieval::Sort;
use crate::query::search;
use crate::query::search::SearchCtxV;
use crate::query::terminals;
use crate::query::window;
use crate::query::window::WindowV;
use crate::schema;
use crate::schema::{IndexV, TableV};
use crate::text;

verus! {

/// The text of a read: what is read, from where, under which conditions, and what
/// comes behind.
pub open spec fn read_text(
    what: Seq<char>,
    from: Seq<char>,
    conditions: Seq<Seq<char>>,
    rest: Seq<char>,
) -> Seq<char> {
    let source = "SELECT "@ + what + " FROM "@ + from;
    if conditions.len() == 0 {
        source + rest
    } else {
        source + (" WHERE "@ + text::joined(conditions, " AND "@)) + rest
    }
}

/// The text of the columns of a document.
pub open spec fn documents() -> Seq<char> {
    "\"id\", \"doc\", \"created_at\", \"version\""@
}

/// The index fields behind the equality prefix of a query.
pub open spec fn fields_behind(index: Option<IndexV>, q: QueryV) -> Seq<Seq<char>> {
    match index {
        Some(ix) => ix.fields.skip(q.eq.len() as int),
        None => Seq::empty(),
    }
}

/// The order that a query reads in: by the index fields behind the equality
/// prefix, then by creation, then by id, all of them in the direction asked for.
pub open spec fn read_order(index: Option<IndexV>, q: QueryV) -> Seq<Sort> {
    let largest_first = q.order == Some(Order::Desc);
    let fields = fields_behind(index, q);
    Seq::new(
        fields.len(),
        |i: int| Sort { by: meaning::name_text(schema::column(fields[i])), largest_first },
    ).push(Sort { by: meaning::name_text("created_at"@), largest_first }).push(
        Sort { by: meaning::name_text("id"@), largest_first },
    )
}

/// How many documents a query takes: two to see that there is one only, one for
/// the first, else as many as are asked for.
pub open spec fn wanted_rows(q: QueryV) -> int {
    if q.unique {
        2
    } else if q.first {
        1
    } else {
        match q.take {
            Some(n) => n as int,
            None => 4096,
        }
    }
}

/// How many rows are read for a page: those on it, at most so many, and one to
/// see whether there are more.
pub open spec fn page_fetch(p: PaginateV) -> int {
    (if p.num_items <= 4096 {
        p.num_items as int
    } else {
        4096
    }) + 1
}

/// The name of an aggregate function, by its characters.
pub open spec fn function_name(op: AggregateOp) -> Seq<char> {
    match op {
        AggregateOp::Sum => seq!['S', 'U', 'M'],
        AggregateOp::Avg => seq!['A', 'V', 'G'],
        AggregateOp::Min => seq!['M', 'I', 'N'],
        AggregateOp::Max => seq!['M', 'A', 'X'],
        AggregateOp::Count => seq!['C', 'O', 'U', 'N', 'T'],
    }
}

/// The conditions are those of the rows that a query admits.
pub open spec fn are_admitted(
    cs: Seq<Cond>,
    c: SearchCtxV,
    q: QueryV,
    index: Option<IndexV>,
    env: Seq<BindV>,
) -> bool {
    forall|row: Row| #[trigger]
        admission::is_row_of(row, c.table) ==> (admission::all_hold(cs, row, env)
            <==> admission::admits(c.table, q, index, c.ctx, c.include_deleted, row))
}

/// A compiled query reads documents of the rows that it admits, sorted, up to a
/// number.
pub open spec fn reads_documents(
    c: SearchCtxV,
    q: QueryV,
    r: CompiledV,
    index: Option<IndexV>,
    cs: Seq<Cond>,
) -> bool {
    &&& admission::index_is_named(c.table, q, index)
    &&& are_admitted(cs, c, q, index, r.binds)
    &&& r.sql == read_text(
        documents(),
        compiled::table_ref(c.db, q.table),
        meaning::cond_texts(cs),
        retrieval::first_of(read_order(index, q), r.binds.len()),
    )
    &&& r.binds.len() > 0
    &&& r.binds.last() == BindV::I64(wanted_rows(q) as i64)
}

proof fn lemma_where(from: Seq<char>, what: Seq<char>, conditions: Seq<Seq<char>>, rest: Seq<char>)
    ensures
        "SELECT "@ + what + " FROM "@ + from + compiled::where_part(conditions) + rest == read_text(
            what,
            from,
            conditions,
            rest,
        ),
{
    let source = "SELECT "@ + what + " FROM "@ + from;
    if conditions.len() == 0 {
        assert(source + compiled::where_part(conditions) =~= source);
    }
}

proof fn lemma_order(w: WindowV, q: QueryV, index: Option<IndexV>, n: nat)
    requires
        w.index == index,
        w.eq_len == q.eq.len(),
    ensures
        terminals::order_part(terminals::sort_columns(w), q.order == Some(Order::Desc))
            + compiled::limit_part(n) == retrieval::first_of(read_order(index, q), n),
        terminals::sort_columns(w).len() == read_order(index, q).len(),
        forall|i: int|
            0 <= i < read_order(index, q).len() ==> (#[trigger] read_order(index, q)[i]).by
                == terminals::sort_columns(w)[i],
{
    let largest_first = q.order == Some(Order::Desc);
    let columns = terminals::sort_columns(w);
    let sorts = read_order(index, q);
    reveal_strlit("");
    reveal_strlit("\"");
    reveal_strlit("created_at");
    reveal_strlit("id");
    reveal_strlit("\"created_at\"");
    reveal_strlit("\"id\"");
    assert("\"created_at\""@ =~= meaning::name_text("created_at"@));
    assert("\"id\""@ =~= meaning::name_text("id"@));
    let fields = fields_behind(index, q);
    assert forall|i: int| 0 <= i < sorts.len() implies (#[trigger] sorts[i]).by == columns[i] by {
        if i < fields.len() {
            let name = filter::quoted(schema::column(fields[i]));
            assert(""@ + name + ""@ =~= name);
        }
    }
    let texts = Seq::new(
        columns.len(),
        |i: int| columns[i] + " "@ + terminals::direction(largest_first),
    );
    assert forall|i: int| 0 <= i < texts.len() implies texts[i] == retrieval::sort_texts(
        sorts,
    )[i] by {
        assert(sorts[i].by == columns[i]);
        assert(sorts[i].largest_first == largest_first);
    }
    assert(texts =~= retrieval::sort_texts(sorts));
    let list = " ORDER BY "@ + text::joined(texts, ", "@);
    assert(list + (" LIMIT "@ + filter::placeholder(n)) =~= list + " LIMIT "@
        + meaning::bound_text(n));
}

proof fn lemma_documents(from: Seq<char>)
    ensures
        "SELECT \"id\", \"doc\", \"created_at\", \"version\" FROM "@ + from == "SELECT "@
            + documents() + " FROM "@ + from,
{
    reveal_strlit("SELECT \"id\", \"doc\", \"created_at\", \"version\" FROM ");
    reveal_strlit("SELECT ");
    reveal_strlit("\"id\", \"doc\", \"created_at\", \"version\"");
    reveal_strlit(" FROM ");
    assert("SELECT \"id\", \"doc\", \"created_at\", \"version\" FROM "@ =~= "SELECT "@
        + documents() + " FROM "@);
}

/// The query reads documents of its window.
pub open spec fn is_collecting(q: QueryV) -> bool {
    &&& q.get is None && q.search is None && q.vector_search is None && q.hybrid_search is None
    &&& !q.count && !q.distinct && q.aggregate is None
}

/// A query that collects documents reads the rows that it admits and no others,
/// in the order of the index in the direction asked for, and as many as are asked
/// for.
#[verifier::rlimit(30)]
pub proof fn law_query_reads_what_it_admits(c: SearchCtxV, q: QueryV)
    requires
        is_collecting(q),
        q.paginate is None,
        terminals::terminal_sql(c, q) is Ok,
    ensures
        exists|index: Option<IndexV>, cs: Seq<Cond>| #[trigger]
            reads_documents(c, q, terminals::terminal_sql(c, q)->Ok_0, index, cs),
{
    let r = terminals::terminal_sql(c, q)->Ok_0;
    let w = window::window(c.table, q, c.ctx, c.include_deleted)->Ok_0;
    let env = r.binds;
    assert forall|i: int| 0 <= i < w.binds.len() implies env[1 - 1 + i] == #[trigger] w.binds[i] by {}
    let cs = admission::lemma_window(c.table, q, c.ctx, c.include_deleted, env);
    lemma_documents_text(w, q, w.conditions, w.next, c.db, q.table);
    assert(reads_documents(c, q, r, w.index, cs));
}

/// A compiled query counts the rows that it admits.
pub open spec fn counts_rows(
    c: SearchCtxV,
    q: QueryV,
    r: CompiledV,
    index: Option<IndexV>,
    cs: Seq<Cond>,
) -> bool {
    &&& admission::index_is_named(c.table, q, index)
    &&& are_admitted(cs, c, q, index, r.binds)
    &&& r.sql == read_text(
        "COUNT(*)"@,
        compiled::table_ref(c.db, q.table),
        meaning::cond_texts(cs),
        Seq::empty(),
    )
}

/// A count counts the rows that the query admits, all of them and no others.
#[verifier::rlimit(30)]
pub proof fn law_count_counts_what_the_query_admits(c: SearchCtxV, q: QueryV)
    requires
        q.get is None && q.search is None && q.vector_search is None && q.hybrid_search is None,
        q.count,
        terminals::terminal_sql(c, q) is Ok,
    ensures
        exists|index: Option<IndexV>, cs: Seq<Cond>| #[trigger]
            counts_rows(c, q, terminals::terminal_sql(c, q)->Ok_0, index, cs),
{
    let r = terminals::terminal_sql(c, q)->Ok_0;
    let w = window::window(c.table, q, c.ctx, c.include_deleted)->Ok_0;
    let cs = admission::lemma_window(c.table, q, c.ctx, c.include_deleted, r.binds);
    let from = compiled::table_ref(c.db, q.table);
    reveal_strlit("SELECT COUNT(*) FROM ");
    reveal_strlit("SELECT ");
    reveal_strlit("COUNT(*)");
    reveal_strlit(" FROM ");
    assert("SELECT COUNT(*) FROM "@ =~= "SELECT "@ + "COUNT(*)"@ + " FROM "@);
    let none = Seq::<char>::empty();
    lemma_where(from, "COUNT(*)"@, w.conditions, none);
    assert(r.sql + none =~= r.sql);
    assert(counts_rows(c, q, r, w.index, cs));
}

/// The sort columns of a cursor are those of a sort order, in the same
/// directions.
pub open spec fn follow(keys: Seq<SortKeyV>, sorts: Seq<Sort>) -> bool {
    &&& keys.len() == sorts.len()
    &&& forall|i: int|
        0 <= i < keys.len() ==> (#[trigger] keys[i]).column == sorts[i].by && keys[i].descending
            == sorts[i].largest_first
}

/// A condition on rows that come behind the cursor of a page in the order that
/// the page is read in.
pub open spec fn goes_on_behind(
    sql: Seq<char>,
    p: PaginateV,
    sorts: Seq<Sort>,
    env: Seq<BindV>,
) -> bool {
    exists|keys: Seq<SortKeyV>, values: Seq<JsonV>| #[trigger]
        resumption::means_behind(sql, env, keys, values) && follow(keys, sorts) && values.len()
            == keys.len() && p.cursor is Some && pagination::cursor_values(p.cursor->0) == Ok::<
            Seq<JsonV>,
            ErrorV,
        >(values)
}

/// A compiled query reads a page of documents: of the rows that it admits, those
/// behind the cursor where there is one, sorted, one more than the page has.
pub open spec fn reads_page(
    c: SearchCtxV,
    q: QueryV,
    p: PaginateV,
    r: CompiledV,
    index: Option<IndexV>,
    cs: Seq<Cond>,
    texts: Seq<Seq<char>>,
) -> bool {
    let sorts = read_order(index, q);
    &&& admission::index_is_named(c.table, q, index)
    &&& are_admitted(cs, c, q, index, r.binds)
    &&& match p.cursor {
        None => texts == meaning::cond_texts(cs),
        Some(_) => texts.len() > 0 && texts.drop_last() == meaning::cond_texts(cs)
            && goes_on_behind(texts.last(), p, sorts, r.binds),
    }
    &&& r.sql == read_text(
        documents(),
        compiled::table_ref(c.db, q.table),
        texts,
        retrieval::first_of(sorts, r.binds.len()),
    )
    &&& r.binds.len() > 0
    &&& r.binds.last() == BindV::I64(page_fetch(p) as i64)
}

proof fn lemma_index_keys(t: TableV, fields: Seq<Seq<char>>, descending: bool)
    requires
        terminals::index_keys(t, fields, descending) is Ok,
    ensures
        ({
            let keys = terminals::index_keys(t, fields, descending)->Ok_0;
            &&& keys.len() == fields.len()
            &&& forall|i: int|
                0 <= i < keys.len() ==> (#[trigger] keys[i]).column == meaning::name_text(
                    schema::column(fields[i]),
                ) && keys[i].descending == descending
        }),
    decreases fields.len(),
{
    if fields.len() > 0 {
        let init = fields.drop_last();
        lemma_index_keys(t, init, descending);
        reveal_strlit("");
        let name = filter::quoted(schema::column(fields.last()));
        assert(""@ + name + ""@ =~= name);
    }
}

proof fn lemma_keys(t: TableV, w: WindowV, q: QueryV)
    requires
        w.eq_len == q.eq.len(),
        terminals::window_keys(t, w, q.order == Some(Order::Desc)) is Ok,
    ensures
        follow(
            terminals::window_keys(t, w, q.order == Some(Order::Desc))->Ok_0,
            read_order(w.index, q),
        ),
{
    let descending = q.order == Some(Order::Desc);
    lemma_index_keys(t, terminals::remaining_fields(w), descending);
    reveal_strlit("\"");
    reveal_strlit("created_at");
    reveal_strlit("id");
    reveal_strlit("\"created_at\"");
    reveal_strlit("\"id\"");
    assert("\"created_at\""@ =~= meaning::name_text("created_at"@));
    assert("\"id\""@ =~= meaning::name_text("id"@));
}

/// The text that reads documents, put together.
proof fn lemma_documents_text(
    w: WindowV,
    q: QueryV,
    texts: Seq<Seq<char>>,
    n: nat,
    name: Seq<char>,
    table: Seq<char>,
)
    requires
        w.eq_len == q.eq.len(),
    ensures
        terminals::documents_sql(w, texts, q.order == Some(Order::Desc), n, name, table)
            == read_text(
            documents(),
            compiled::table_ref(name, table),
            texts,
            retrieval::first_of(read_order(w.index, q), n),
        ),
{
    let from = compiled::table_ref(name, table);
    lemma_documents(from);
    lemma_order(w, q, w.index, n);
    let head = "SELECT "@ + documents() + " FROM "@ + from + compiled::where_part(texts);
    let order = terminals::order_part(
        terminals::sort_columns(w),
        q.order == Some(Order::Desc),
    );
    let limit = compiled::limit_part(n);
    assert(head + order + limit =~= head + (order + limit));
    lemma_where(from, documents(), texts, order + limit);
}

/// The conditions of a page: those of its window, and that a row comes behind its
/// cursor.
proof fn lemma_page_conditions(
    w: WindowV,
    t: TableV,
    q: QueryV,
    p: PaginateV,
    name: Seq<char>,
    table: Seq<char>,
) -> (texts: Seq<Seq<char>>)
    requires
        w.eq_len == q.eq.len(),
        terminals::paginate_sql(w, t, p, q.order == Some(Order::Desc), name, table) is Ok,
    ensures
        ({
            let r = terminals::paginate_sql(
                w,
                t,
                p,
                q.order == Some(Order::Desc),
                name,
                table,
            )->Ok_0;
            &&& match p.cursor {
                None => texts == w.conditions,
                Some(_) => texts.len() > 0 && texts.drop_last() == w.conditions && goes_on_behind(
                    texts.last(),
                    p,
                    read_order(w.index, q),
                    r.binds,
                ),
            }
            &&& r.sql == terminals::documents_sql(
                w,
                texts,
                q.order == Some(Order::Desc),
                r.binds.len(),
                name,
                table,
            )
            &&& agreement::placed(r.binds, 1, w.binds)
            &&& r.binds.len() > 0
            &&& r.binds.last() == BindV::I64(page_fetch(p) as i64)
        }),
{
    let descending = q.order == Some(Order::Desc);
    let env = terminals::paginate_sql(w, t, p, descending, name, table)->Ok_0.binds;
    let start = w.binds.len() + 1;
    let keys = terminals::window_keys(t, w, descending)->Ok_0;
    lemma_keys(t, w, q);
    match p.cursor {
        None => w.conditions,
        Some(cursor) => {
            let values = pagination::cursor_values(cursor)->Ok_0;
            let (sql, binds) = keyset::resume_sql(values, keys, start)->Ok_0;
            assert forall|i: int| 0 <= i < binds.len() implies env[start - 1 + i]
                == #[trigger] binds[i] by {}
            resumption::law_resume_text_selects_what_comes_behind(values, keys, start, env);
            assert(resumption::means_behind(sql, env, keys, values));
            assert(goes_on_behind(sql, p, read_order(w.index, q), env));
            assert(w.conditions.push(sql).drop_last() =~= w.conditions);
            w.conditions.push(sql)
        },
    }
}

/// A page of a query reads the rows that the query admits, those behind its
/// cursor in the order that it reads in, and one more than it gives.
#[verifier::rlimit(40)]
pub proof fn law_page_reads_what_comes_behind_its_cursor(c: SearchCtxV, q: QueryV, p: PaginateV)
    requires
        is_collecting(q),
        q.paginate == Some(p),
        terminals::terminal_sql(c, q) is Ok,
    ensures
        exists|index: Option<IndexV>, cs: Seq<Cond>, texts: Seq<Seq<char>>| #[trigger]
            reads_page(c, q, p, terminals::terminal_sql(c, q)->Ok_0, index, cs, texts),
{
    let r = terminals::terminal_sql(c, q)->Ok_0;
    let w = window::window(c.table, q, c.ctx, c.include_deleted)->Ok_0;
    lemma_window_prefix(c, q);
    let texts = lemma_page_conditions(w, c.table, q, p, c.db, q.table);
    let cs = admission::lemma_window(c.table, q, c.ctx, c.include_deleted, r.binds);
    lemma_documents_text(w, q, texts, r.binds.len(), c.db, q.table);
    assert(reads_page(c, q, p, r, w.index, cs, texts));
}

/// The equality prefix of a window is that of the query.
proof fn lemma_window_prefix(c: SearchCtxV, q: QueryV)
    requires
        window::window(c.table, q, c.ctx, c.include_deleted) is Ok,
    ensures
        window::window(c.table, q, c.ctx, c.include_deleted)->Ok_0.eq_len == q.eq.len(),
{
    let w = window::window(c.table, q, c.ctx, c.include_deleted)->Ok_0;
    let cs = admission::lemma_window(c.table, q, c.ctx, c.include_deleted, w.binds);
}

/// A compiled query reads the values of a field, each once, in order.
pub open spec fn reads_values(
    c: SearchCtxV,
    q: QueryV,
    r: CompiledV,
    ix: IndexV,
    cs: Seq<Cond>,
) -> bool {
    &&& admission::index_is_named(c.table, q, Some(ix))
    &&& q.eq.len() < ix.fields.len()
    &&& are_admitted(cs, c, q, Some(ix), r.binds)
    &&& r.sql == read_text(
        "DISTINCT to_jsonb("@ + meaning::name_text(schema::column(ix.fields[q.eq.len() as int]))
            + ") AS v"@,
        compiled::table_ref(c.db, q.table),
        meaning::cond_texts(cs),
        " ORDER BY v LIMIT "@ + meaning::bound_text(r.binds.len()),
    )
    &&& r.binds.len() > 0
    &&& r.binds.last() == BindV::I64(4096)
}

proof fn lemma_values_text(
    column: Seq<char>,
    from: Seq<char>,
    conditions: Seq<Seq<char>>,
    n: nat,
)
    ensures
        "SELECT DISTINCT to_jsonb("@ + filter::quoted(column) + ") AS v FROM "@ + from
            + compiled::where_part(conditions) + " ORDER BY v"@ + compiled::limit_part(n)
            == read_text(
            "DISTINCT to_jsonb("@ + meaning::name_text(column) + ") AS v"@,
            from,
            conditions,
            " ORDER BY v LIMIT "@ + meaning::bound_text(n),
        ),
{
    let name = filter::quoted(column);
    let what = "DISTINCT to_jsonb("@ + name + ") AS v"@;
    reveal_strlit("SELECT DISTINCT to_jsonb(");
    reveal_strlit("SELECT ");
    reveal_strlit("DISTINCT to_jsonb(");
    reveal_strlit(") AS v FROM ");
    reveal_strlit(") AS v");
    reveal_strlit(" FROM ");
    reveal_strlit(" ORDER BY v");
    reveal_strlit(" LIMIT ");
    reveal_strlit(" ORDER BY v LIMIT ");
    assert("SELECT DISTINCT to_jsonb("@ =~= "SELECT "@ + "DISTINCT to_jsonb("@);
    assert(") AS v FROM "@ =~= ") AS v"@ + " FROM "@);
    assert("SELECT DISTINCT to_jsonb("@ + name + ") AS v FROM "@ =~= "SELECT "@ + what + " FROM "@);
    assert(" ORDER BY v LIMIT "@ =~= " ORDER BY v"@ + " LIMIT "@);
    let p = filter::placeholder(n);
    let rest = " ORDER BY v LIMIT "@ + p;
    let head = "SELECT "@ + what + " FROM "@ + from + compiled::where_part(conditions);
    assert(head + " ORDER BY v"@ + (" LIMIT "@ + p) =~= head + rest);
    lemma_where(from, what, conditions, rest);
}

/// A distinct read reads the values that the rows which the query admits have in
/// the index field behind the equality prefix.
#[verifier::rlimit(30)]
pub proof fn law_distinct_reads_values_of_what_the_query_admits(c: SearchCtxV, q: QueryV)
    requires
        q.get is None && q.search is None && q.vector_search is None && q.hybrid_search is None,
        !q.count && q.distinct,
        terminals::terminal_sql(c, q) is Ok,
    ensures
        exists|ix: IndexV, cs: Seq<Cond>| #[trigger]
            reads_values(c, q, terminals::terminal_sql(c, q)->Ok_0, ix, cs),
{
    let r = terminals::terminal_sql(c, q)->Ok_0;
    let w = window::window(c.table, q, c.ctx, c.include_deleted)->Ok_0;
    let env = r.binds;
    assert forall|i: int| 0 <= i < w.binds.len() implies env[1 - 1 + i] == #[trigger] w.binds[i] by {}
    let cs = admission::lemma_window(c.table, q, c.ctx, c.include_deleted, env);
    let ix = w.index->0;
    lemma_values_text(
        schema::column(ix.fields[w.eq_len as int]),
        compiled::table_ref(c.db, q.table),
        w.conditions,
        w.next,
    );
    assert(reads_values(c, q, r, ix, cs));
}

/// The text of an aggregate: of the rows where it is a count, else of a field.
pub open spec fn aggregate_text(op: AggregateOp, field: Option<Seq<char>>) -> Seq<char> {
    match field {
        Some(name) => function_name(op) + "("@ + meaning::name_text(schema::column(name)) + ")"@,
        None => "COUNT(*)"@,
    }
}

/// A compiled query aggregates the rows that it admits, or each group of them
/// that has one value in the index field behind the equality prefix. A count is
/// of the rows; else what is aggregated is the next index field.
pub open spec fn aggregates(
    c: SearchCtxV,
    q: QueryV,
    agg: AggregateSpec,
    r: CompiledV,
    index: Option<IndexV>,
    cs: Seq<Cond>,
) -> bool {
    let fields = fields_behind(index, q);
    let at: int = if agg.group_by {
        1
    } else {
        0
    };
    let value = "COALESCE(to_jsonb("@ + aggregate_text(
        agg.op,
        if agg.op == AggregateOp::Count {
            None
        } else {
            Some(fields[at])
        },
    ) + "), 'null'::jsonb) AS v"@;
    let group = meaning::name_text(schema::column(fields[0]));
    &&& admission::index_is_named(c.table, q, index)
    &&& are_admitted(cs, c, q, index, r.binds)
    &&& agg.op != AggregateOp::Count ==> at < fields.len()
    &&& agg.group_by ==> fields.len() > 0 && r.binds.len() > 0 && r.binds.last() == BindV::I64(4096)
    &&& r.sql == if agg.group_by {
        read_text(
            "to_jsonb("@ + group + ") AS k, "@ + value,
            compiled::table_ref(c.db, q.table),
            meaning::cond_texts(cs),
            " GROUP BY "@ + group + " ORDER BY k LIMIT "@ + meaning::bound_text(r.binds.len()),
        )
    } else {
        read_text(
            value,
            compiled::table_ref(c.db, q.table),
            meaning::cond_texts(cs),
            Seq::empty(),
        )
    }
}

/// The name of an aggregate function is that of what it computes; different
/// functions have different names.
pub proof fn law_aggregate_has_its_name(op: AggregateOp)
    ensures
        crate::dsl::aggregate_name(op) == function_name(op),
        forall|other: AggregateOp| #[trigger]
            crate::dsl::aggregate_name(other) == crate::dsl::aggregate_name(op) ==> other == op,
{
    lemma_function(op);
    assert forall|other: AggregateOp| #[trigger] crate::dsl::aggregate_name(
        other,
    ) == crate::dsl::aggregate_name(op) implies other == op by {
        lemma_function(other);
        assert(function_name(other)[0] == function_name(op)[0] && function_name(other)[1]
            == function_name(op)[1]);
    }
}

proof fn lemma_function(op: AggregateOp)
    ensures
        crate::dsl::aggregate_name(op) == function_name(op),
{
    reveal_strlit("SUM");
    reveal_strlit("AVG");
    reveal_strlit("MIN");
    reveal_strlit("MAX");
    reveal_strlit("COUNT");
    assert(crate::dsl::aggregate_name(op) =~= function_name(op));
}

proof fn lemma_value_text(expr: Seq<char>, from: Seq<char>, conditions: Seq<Seq<char>>)
    ensures
        "COALESCE(to_jsonb("@ + expr + "), 'null'::jsonb) AS v FROM "@ + from
            + compiled::where_part(conditions) == "COALESCE(to_jsonb("@ + expr
            + "), 'null'::jsonb) AS v"@ + " FROM "@ + from + compiled::where_part(conditions),
{
    reveal_strlit("), 'null'::jsonb) AS v FROM ");
    reveal_strlit("), 'null'::jsonb) AS v");
    reveal_strlit(" FROM ");
    let a = "COALESCE(to_jsonb("@ + expr;
    assert("), 'null'::jsonb) AS v FROM "@ =~= "), 'null'::jsonb) AS v"@ + " FROM "@);
    assert(a + "), 'null'::jsonb) AS v FROM "@ =~= a + "), 'null'::jsonb) AS v"@ + " FROM "@);
}

proof fn lemma_total_text(expr: Seq<char>, from: Seq<char>, conditions: Seq<Seq<char>>)
    ensures
        "SELECT "@ + ("COALESCE(to_jsonb("@ + expr + "), 'null'::jsonb) AS v FROM "@ + from
            + compiled::where_part(conditions)) == read_text(
            "COALESCE(to_jsonb("@ + expr + "), 'null'::jsonb) AS v"@,
            from,
            conditions,
            Seq::empty(),
        ),
{
    let value = "COALESCE(to_jsonb("@ + expr + "), 'null'::jsonb) AS v"@;
    let none = Seq::<char>::empty();
    let part = compiled::where_part(conditions);
    lemma_value_text(expr, from, conditions);
    assert("SELECT "@ + (value + " FROM "@ + from + part) =~= "SELECT "@ + value + " FROM "@ + from
        + part + none);
    lemma_where(from, value, conditions, none);
}

proof fn lemma_group_text(
    column: Seq<char>,
    expr: Seq<char>,
    from: Seq<char>,
    conditions: Seq<Seq<char>>,
    n: nat,
)
    ensures
        "SELECT to_jsonb("@ + filter::quoted(column) + ") AS k, "@ + ("COALESCE(to_jsonb("@ + expr
            + "), 'null'::jsonb) AS v FROM "@ + from + compiled::where_part(conditions))
            + " GROUP BY "@ + filter::quoted(column) + " ORDER BY k"@ + compiled::limit_part(n)
            == read_text(
            "to_jsonb("@ + meaning::name_text(column) + ") AS k, "@ + ("COALESCE(to_jsonb("@ + expr
                + "), 'null'::jsonb) AS v"@),
            from,
            conditions,
            " GROUP BY "@ + meaning::name_text(column) + " ORDER BY k LIMIT "@
                + meaning::bound_text(n),
        ),
{
    let col = filter::quoted(column);
    let value = "COALESCE(to_jsonb("@ + expr + "), 'null'::jsonb) AS v"@;
    let part = compiled::where_part(conditions);
    lemma_value_text(expr, from, conditions);
    reveal_strlit("SELECT to_jsonb(");
    reveal_strlit("SELECT ");
    reveal_strlit("to_jsonb(");
    assert("SELECT to_jsonb("@ =~= "SELECT "@ + "to_jsonb("@);
    let key = "to_jsonb("@ + col + ") AS k, "@;
    let what = key + value;
    assert("SELECT to_jsonb("@ + col + ") AS k, "@ =~= "SELECT "@ + key);
    let source = "SELECT "@ + what + " FROM "@ + from + part;
    assert("SELECT "@ + key + (value + " FROM "@ + from + part) =~= source);
    reveal_strlit(" ORDER BY k");
    reveal_strlit(" LIMIT ");
    reveal_strlit(" ORDER BY k LIMIT ");
    assert(" ORDER BY k LIMIT "@ =~= " ORDER BY k"@ + " LIMIT "@);
    let p = filter::placeholder(n);
    let rest = " GROUP BY "@ + col + " ORDER BY k LIMIT "@ + p;
    assert(source + " GROUP BY "@ + col + " ORDER BY k"@ + (" LIMIT "@ + p) =~= source + rest);
    lemma_where(from, what, conditions, rest);
}

/// An aggregation is over the rows that the query admits, all of them and no
/// others.
#[verifier::rlimit(30)]
pub proof fn law_aggregate_is_of_what_the_query_admits(
    c: SearchCtxV,
    q: QueryV,
    agg: AggregateSpec,
)
    requires
        q.get is None && q.search is None && q.vector_search is None && q.hybrid_search is None,
        !q.count && !q.distinct && q.aggregate == Some(agg),
        terminals::terminal_sql(c, q) is Ok,
    ensures
        exists|index: Option<IndexV>, cs: Seq<Cond>| #[trigger]
            aggregates(c, q, agg, terminals::terminal_sql(c, q)->Ok_0, index, cs),
{
    let r = terminals::terminal_sql(c, q)->Ok_0;
    let w = window::window(c.table, q, c.ctx, c.include_deleted)->Ok_0;
    let env = r.binds;
    assert forall|i: int| 0 <= i < w.binds.len() implies env[1 - 1 + i] == #[trigger] w.binds[i] by {}
    let cs = admission::lemma_window(c.table, q, c.ctx, c.include_deleted, env);
    let from = compiled::table_ref(c.db, q.table);
    let fields = fields_behind(w.index, q);
    let (group, field) = terminals::aggregate_fields(w, c.table, agg)->Ok_0;
    lemma_function(agg.op);
    let expr = terminals::aggregate_expr(agg.op, field);
    assert(expr == aggregate_text(agg.op, field));
    match group {
        Some(g) => {
            lemma_group_text(schema::column(g), expr, from, w.conditions, w.next);
        },
        None => {
            lemma_total_text(expr, from, w.conditions);
        },
    }
    assert(aggregates(c, q, agg, r, w.index, cs));
}

/// The order of a ranked search: by the ranking key, then the newest first.
pub open spec fn ranked_order(rank: Seq<char>, largest_first: bool) -> Seq<Sort> {
    seq![
        Sort { by: rank, largest_first },
        Sort { by: meaning::name_text("created_at"@), largest_first: true },
        Sort { by: meaning::name_text("id"@), largest_first: true },
    ]
}

/// A page of a ranked search goes on behind its cursor in the order that the
/// search ranks in: by the ranking key, then the newest first.
pub proof fn law_ranked_page_goes_on_behind_its_cursor(
    p: PaginateV,
    rank: Seq<char>,
    descending: bool,
    pos: nat,
    lead: Seq<char>,
    env: Seq<BindV>,
)
    requires
        search::ranked_resume(p, rank, descending, pos, lead) is Ok,
        agreement::placed(
            env,
            pos,
            search::ranked_resume(p, rank, descending, pos, lead)->Ok_0.1,
        ),
    ensures
        match p.cursor {
            None => search::ranked_resume(p, rank, descending, pos, lead)->Ok_0.0.len() == 0,
            Some(_) => exists|sql: Seq<char>|
                search::ranked_resume(p, rank, descending, pos, lead)->Ok_0.0 == lead + sql
                    && #[trigger] goes_on_behind(
                    sql,
                    p,
                    ranked_order(rank, descending),
                    env,
                ),
        },
{
    if let Some(cursor) = p.cursor {
        let values = pagination::cursor_values(cursor)->Ok_0;
        let keys = search::ranked_keys(rank, descending);
        let (sql, binds) = keyset::resume_sql(values, keys, pos)->Ok_0;
        resumption::law_resume_text_selects_what_comes_behind(values, keys, pos, env);
        reveal_strlit("\"");
        reveal_strlit("created_at");
        reveal_strlit("id");
        reveal_strlit("\"created_at\"");
        reveal_strlit("\"id\"");
        assert("\"created_at\""@ =~= meaning::name_text("created_at"@));
        assert("\"id\""@ =~= meaning::name_text("id"@));
        let sorts = ranked_order(rank, descending);
        assert(follow(keys, sorts));
        assert(resumption::means_behind(sql, env, keys, values));
        assert(goes_on_behind(sql, p, sorts, env));
    }
}

/// A compiled read of one document reads the row with the id, unless it is
/// deleted and deleted rows are hidden.
pub open spec fn reads_one(c: SearchCtxV, id: Seq<char>, r: CompiledV, cs: Seq<Cond>) -> bool {
    &&& r.sql == read_text(
        documents(),
        compiled::table_ref(c.db, c.table_name),
        meaning::cond_texts(cs),
        Seq::empty(),
    )
    &&& forall|row: Row| #[trigger]
        admission::all_hold(cs, row, r.binds) <==> ((row.cells)("id"@) == Some(BindV::Text(id))
            && !(c.table.soft_delete && !c.include_deleted && admission::is_deleted(row)))
}

/// A read by id reads the row with that id and no other.
pub proof fn law_point_read_reads_the_row_with_the_id(c: SearchCtxV, id: Seq<char>)
    ensures
        exists|cs: Seq<Cond>| #[trigger] reads_one(c, id, terminals::point_sql(c, id), cs),
{
    let r = terminals::point_sql(c, id);
    let hide = c.table.soft_delete && !c.include_deleted;
    let from = compiled::table_ref(c.db, c.table_name);
    let same = Cond::Compare(meaning::Term::Column("id"@), meaning::Op::Equal, 1);
    let there = Cond::Empty("deleted_at"@);
    let none = Seq::<Cond>::empty();
    let one = none.push(same);
    let cs = if hide {
        one.push(there)
    } else {
        one
    };
    admission::lemma_texts_push(none, same);
    admission::lemma_texts_push(one, there);
    lemma_point_texts();
    let a = meaning::cond_text(same);
    let b = meaning::cond_text(there);
    assert(meaning::cond_texts(none) =~= Seq::<Seq<char>>::empty());
    assert(meaning::cond_texts(one) =~= seq![a]);
    lemma_documents(from);
    let source = "SELECT "@ + documents() + " FROM "@ + from;
    let empty = Seq::<char>::empty();
    assert(text::joined(seq![a], " AND "@) == a);
    if hide {
        assert(meaning::cond_texts(cs) =~= seq![a, b]);
        assert(seq![a, b].drop_last() =~= seq![a]);
        assert(text::joined(seq![a, b], " AND "@) == a + " AND "@ + b);
        assert(r.sql =~= source + (" WHERE "@ + (a + " AND "@ + b)) + empty);
    } else {
        assert(r.sql =~= source + (" WHERE "@ + a) + empty);
    }
    assert forall|row: Row| #[trigger] admission::all_hold(cs, row, r.binds) <==> ((row.cells)(
        "id"@,
    ) == Some(BindV::Text(id)) && !(c.table.soft_delete && !c.include_deleted
        && admission::is_deleted(row))) by {
        admission::lemma_one_more(none, same, row, r.binds);
        admission::lemma_one_more(one, there, row, r.binds);
        assert(admission::all_hold(none, row, r.binds));
        assert(meaning::bound(r.binds, 1) == BindV::Text(id));
    }
    assert(reads_one(c, id, r, cs));
}

proof fn lemma_point_texts()
    ensures
        " WHERE \"id\" = $1"@ == " WHERE "@ + meaning::cond_text(
            Cond::Compare(meaning::Term::Column("id"@), meaning::Op::Equal, 1),
        ),
        " AND \"deleted_at\" IS NULL"@ == " AND "@ + meaning::cond_text(
            Cond::Empty("deleted_at"@),
        ),
        ""@ == Seq::<char>::empty(),
{
    reveal_strlit("");
    reveal_strlit(" WHERE \"id\" = $1");
    reveal_strlit(" WHERE ");
    reveal_strlit("id");
    reveal_strlit("\"");
    reveal_strlit(" ");
    reveal_strlit("$");
    reveal_strlit(" AND ");
    reveal_strlit("deleted_at");
    reveal_strlit(" IS NULL");
    reveal_strlit(" AND \"deleted_at\" IS NULL");
    assert(""@ =~= Seq::<char>::empty());
    assert(text::dec(1) =~= seq!['1']);
    assert(" WHERE \"id\" = $1"@ =~= " WHERE "@ + ("\""@ + "id"@ + "\""@ + " "@ + seq!['='] + " "@ + (
    "$"@ + text::dec(1))));
    assert(" AND \"deleted_at\" IS NULL"@ =~= " AND "@ + ("\""@ + "deleted_at"@ + "\""@
        + " IS NULL"@));
}

} // verus!
