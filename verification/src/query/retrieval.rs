//! The rows that a search finds: those that match the text, those that have a
//! vector, or both, as far as the caller may see them.
#[allow(unused_imports)]
use vstd::prelude::*;

use crate::dsl::{BindV, FilterV, HybridSearchV, PaginateV, SearchMode, SearchV, VectorSearchV};
use crate::query::admission;
use crate::query::agreement;
use crate::query::compiled;
use crate::query::compiled::CompiledV;
use crate::query::filter;
use crate::query::filter::FilterUse;
use crate::query::fusion;
use crate::query::meaning;
use crate::query::meaning::{Cond, Row};
use crate::query::search;
use crate::query::search::SearchCtxV;
use crate::schema;
use crate::schema::{IndexV, VectorMetric};
use crate::text;

verus! {

/// The caller of a search may see a row.
pub open spec fn visible(c: SearchCtxV, row: Row) -> bool {
    &&& admission::may_see(c.table, c.ctx.user, row.doc)
    &&& admission::is_authorized(c.table, c.ctx, row)
    &&& !(c.table.soft_delete && !c.include_deleted && admission::is_deleted(row))
}

/// A row matches a text by words, in the language of the index.
pub open spec fn has_words(ix: IndexV, query: Seq<char>, row: Row) -> bool {
    (row.matches)((schema::search_column(ix.name), ix.language, query)) == Some(true)
}

/// Some indexed field of a row holds a text somewhere in it.
pub open spec fn has_substring(ix: IndexV, query: Seq<char>, row: Row) -> bool {
    exists|i: int|
        0 <= i < ix.fields.len() && #[trigger] holds_substring(ix.fields[i], query, row)
}

/// A field of a row holds a text somewhere in it.
pub open spec fn holds_substring(field: Seq<char>, query: Seq<char>, row: Row) -> bool {
    (row.cells)(schema::column(field)) matches Some(BindV::Text(x)) && (row.like)(
        (x, "%"@ + query + "%"@),
    )
}

/// A row has a vector for an index.
pub open spec fn has_vector(ix: IndexV, row: Row) -> bool {
    (row.filled)(schema::vector_column(ix.name))
}

/// A text search finds a row: it matches, meets the filter, and may be seen.
pub open spec fn text_finds(
    c: SearchCtxV,
    ix: IndexV,
    mode: SearchMode,
    query: Seq<char>,
    f: Option<FilterV>,
    row: Row,
) -> bool {
    &&& match mode {
        SearchMode::Tsquery => has_words(ix, query, row),
        SearchMode::Trgm => has_substring(ix, query, row),
    }
    &&& admission::meets_filter(c.table, f, row)
    &&& visible(c, row)
}

/// A vector search considers a row: it has a vector, meets the filter, and may be
/// seen.
pub open spec fn vector_finds(c: SearchCtxV, ix: IndexV, f: Option<FilterV>, row: Row) -> bool {
    &&& has_vector(ix, row)
    &&& admission::meets_filter(c.table, f, row)
    &&& visible(c, row)
}

/// A hybrid search considers a row: it matches the text or has a vector, and may
/// be seen.
pub open spec fn hybrid_finds(
    c: SearchCtxV,
    six: IndexV,
    vix: IndexV,
    query: Seq<char>,
    row: Row,
) -> bool {
    &&& has_words(six, query, row) || has_vector(vix, row)
    &&& visible(c, row)
}

/// The text of a read of a table under conditions.
pub open spec fn clause(
    before: Seq<char>,
    from: Seq<char>,
    cs: Seq<Cond>,
    after: Seq<char>,
) -> Seq<char> {
    before + " FROM "@ + from + " WHERE "@ + text::joined(meaning::cond_texts(cs), " AND "@)
        + after
}

/// No condition goes on in what comes behind the conditions of a read.
pub open spec fn ends_conditions(after: Seq<char>) -> bool {
    " ORDER BY "@.is_prefix_of(after) || " )"@.is_prefix_of(after)
}

/// A statement reads the rows of a table that are wanted, and no others; what it
/// does with them comes behind.
pub open spec fn reads(
    sql: Seq<char>,
    c: SearchCtxV,
    env: Seq<BindV>,
    want: spec_fn(Row) -> bool,
    after: Seq<char>,
) -> bool {
    &&& ends_conditions(after)
    &&& exists|before: Seq<char>, cs: Seq<Cond>|
        sql == #[trigger] clause(
            before,
            compiled::table_ref(c.db, c.table_name),
            cs,
            after,
        ) && forall|row: Row| #[trigger]
            admission::is_row_of(row, c.table) ==> (admission::all_hold(cs, row, env) <==> want(
                row,
            ))
}

/// What rows are sorted by: an expression, and whether what is largest comes
/// first.
pub struct Sort {
    pub by: Seq<char>,
    pub largest_first: bool,
}

/// The text of a sort order.
pub open spec fn sort_text(s: Sort) -> Seq<char> {
    s.by + " "@ + if s.largest_first {
        "DESC"@
    } else {
        "ASC"@
    }
}

/// The texts of sort orders.
pub open spec fn sort_texts(sorts: Seq<Sort>) -> Seq<Seq<char>> {
    Seq::new(sorts.len(), |i: int| sort_text(sorts[i]))
}

/// The text that sorts rows and takes the first of them, as many as the bound
/// value says.
pub open spec fn first_of(sorts: Seq<Sort>, n: nat) -> Seq<char> {
    " ORDER BY "@ + text::joined(sort_texts(sorts), ", "@) + " LIMIT "@ + meaning::bound_text(n)
}

/// How well a row fits a text: by its words, or by the likeness of its fields.
pub open spec fn fitness(ix: IndexV, mode: SearchMode) -> Seq<char> {
    match mode {
        SearchMode::Tsquery => "ts_rank("@ + meaning::name_text(schema::search_column(ix.name))
            + ", "@ + meaning::query_text(ix.language, 1) + ")"@,
        SearchMode::Trgm => "GREATEST("@ + text::joined(
            Seq::new(
                ix.fields.len(),
                |i: int|
                    "similarity("@ + meaning::name_text(schema::column(ix.fields[i])) + ", $1)"@,
            ),
            ", "@,
        ) + ")"@,
    }
}

/// The best first, and of two that fit alike the newer one.
pub open spec fn best_first(rank: Seq<char>) -> Seq<Sort> {
    seq![
        Sort { by: rank, largest_first: true },
        Sort { by: meaning::name_text("created_at"@), largest_first: true },
        Sort { by: meaning::name_text("id"@), largest_first: true },
    ]
}

/// How far apart two vectors are under a metric, by the characters of the
/// operator.
pub open spec fn distance_op(m: VectorMetric) -> Seq<char> {
    match m {
        VectorMetric::Cosine => seq!['<', '=', '>'],
        VectorMetric::L2 => seq!['<', '-', '>'],
        VectorMetric::Ip => seq!['<', '#', '>'],
    }
}

/// The rows that a text search wants.
pub open spec fn text_wanted(
    c: SearchCtxV,
    ix: IndexV,
    mode: SearchMode,
    query: Seq<char>,
    f: Option<FilterV>,
) -> spec_fn(Row) -> bool {
    |row: Row| text_finds(c, ix, mode, query, f, row)
}

/// The rows that a vector search wants.
pub open spec fn vector_wanted(c: SearchCtxV, ix: IndexV, f: Option<FilterV>) -> spec_fn(
    Row,
) -> bool {
    |row: Row| vector_finds(c, ix, f, row)
}

/// The rows that a hybrid search wants.
pub open spec fn hybrid_wanted(
    c: SearchCtxV,
    six: IndexV,
    vix: IndexV,
    query: Seq<char>,
) -> spec_fn(Row) -> bool {
    |row: Row| hybrid_finds(c, six, vix, query, row)
}

proof fn lemma_assoc(a: Seq<char>, b: Seq<char>, c: Seq<char>)
    ensures
        (a + b) + c == a + (b + c),
{
    assert((a + b) + c =~= a + (b + c));
}

/// Conditions led by a conjunction follow conditions joined by it.
proof fn lemma_and_all(a: Seq<Seq<char>>, b: Seq<Seq<char>>)
    requires
        a.len() > 0,
    ensures
        text::joined(a + b, " AND "@) == text::joined(a, " AND "@) + search::and_all(b),
    decreases b.len(),
{
    let and = " AND "@;
    if b.len() == 0 {
        assert(a + b =~= a);
        assert(text::joined(a, and) + search::and_all(b) =~= text::joined(a, and));
    } else {
        lemma_and_all(a, b.drop_last());
        assert((a + b).drop_last() =~= a + b.drop_last());
        assert((a + b).last() == b.last());
        let j = text::joined(a, and);
        let r = search::and_all(b.drop_last());
        assert(j + r + and + b.last() =~= j + (r + and + b.last()));
    }
}

/// The extra conditions of a search behind its own: a row must meet the filter
/// and be the caller's to see.
proof fn lemma_extra(
    c: SearchCtxV,
    f: Option<FilterV>,
    start: nat,
    first: Cond,
    env: Seq<BindV>,
) -> (out: Seq<Cond>)
    requires
        search::extra_conditions(c, f, start) is Ok,
        agreement::placed(env, start, search::extra_conditions(c, f, start)->Ok_0.1),
    ensures
        text::joined(meaning::cond_texts(out), " AND "@) == meaning::cond_text(first)
            + search::extra_conditions(c, f, start)->Ok_0.0,
        forall|row: Row| #[trigger]
            admission::is_row_of(row, c.table) ==> (admission::all_hold(out, row, env)
                <==> meaning::cond_value(first, row, env) == Some(true) && admission::meets_filter(
                c.table,
                f,
                row,
            ) && visible(c, row)),
{
    let (extra, binds) = search::extra_conditions(c, f, start)->Ok_0;
    let hide = c.table.soft_delete && !c.include_deleted;
    let none = Seq::<Cond>::empty();
    let client = match f {
        Some(g) => filter::client_filter_sql(g, c.table, start, None)->Ok_0.1,
        None => Seq::<BindV>::empty(),
    };
    assert(meaning::cond_texts(none) =~= Seq::<Seq<char>>::empty());
    let rules = admission::lemma_row_conditions(
        none,
        client,
        c.table,
        c.ctx,
        c.ctx.user,
        start,
        hide,
        env,
    );
    let rule_texts = meaning::cond_texts(rules);
    let own = match f {
        Some(g) => {
            assert forall|i: int| 0 <= i < client.len() implies env[start + 0 - 1 + i]
                == #[trigger] client[i] by {
                assert(binds[i] == client[i]);
            }
            let d = agreement::lemma_condition(g, c.table, start, 0, FilterUse::Read, env);
            admission::pair(first, Cond::Grouped(Box::new(d)))
        },
        None => seq![first],
    };
    let out = own + rules;
    admission::lemma_concat(own, rules);
    lemma_and_all(meaning::cond_texts(own), rule_texts);
    assert(none.push(first) =~= seq![first]);
    admission::lemma_texts_push(none, first);
    let ft = meaning::cond_text(first);
    match f {
        Some(g) => {
            let sql = filter::client_filter_sql(g, c.table, start, None)->Ok_0.0;
            let grouped = own.last();
            assert(seq![first].push(grouped) =~= own);
            admission::lemma_texts_push(seq![first], grouped);
            let texts = meaning::cond_texts(own);
            assert(texts.drop_last() =~= seq![ft]);
            assert(meaning::cond_text(grouped) == "("@ + sql + ")"@);
            reveal_strlit(" AND (");
            reveal_strlit(" AND ");
            reveal_strlit("(");
            assert(" AND ("@ =~= " AND "@ + "("@);
            assert(ft + " AND "@ + ("("@ + sql + ")"@) =~= ft + (" AND ("@ + sql + ")"@));
            assert(text::joined(seq![ft], " AND "@) == ft);
            assert(text::joined(texts, " AND "@) == ft + " AND "@ + ("("@ + sql + ")"@));
            assert(extra == " AND ("@ + sql + ")"@ + search::and_all(rule_texts));
            lemma_assoc(ft, " AND ("@ + sql + ")"@, search::and_all(rule_texts));
        },
        None => {
            assert(meaning::cond_texts(own) =~= seq![ft]);
            assert(text::joined(meaning::cond_texts(own), " AND "@) == ft);
            assert(extra == Seq::<char>::empty() + search::and_all(rule_texts));
            assert(Seq::<char>::empty() + search::and_all(rule_texts) =~= search::and_all(
                rule_texts,
            ));
        },
    }
    assert forall|row: Row| #[trigger] admission::is_row_of(row, c.table) implies (
    admission::all_hold(out, row, env) <==> meaning::cond_value(first, row, env) == Some(true)
        && admission::meets_filter(c.table, f, row) && visible(c, row)) by {
        assert(meaning::mirrors(row, c.table));
        assert(admission::all_hold(none, row, env));
        admission::lemma_one_more(none, first, row, env);
        if f is Some {
            admission::lemma_one_more(seq![first], own.last(), row, env);
        }
        assert(admission::all_hold(own + rules, row, env) <==> admission::all_hold(own, row, env)
            && admission::all_hold(rules, row, env));
    }
    out
}

proof fn lemma_query_text(ix: IndexV, n: nat)
    ensures
        search::tsquery(ix.language, n) == meaning::query_text(ix.language, n),
{
}

/// The condition of a text search as a condition.
spec fn match_cond(ix: IndexV, mode: SearchMode) -> Cond {
    match mode {
        SearchMode::Tsquery => Cond::Matches(schema::search_column(ix.name), ix.language, 1),
        SearchMode::Trgm => Cond::Any(like_conds(ix.fields)),
    }
}

spec fn like_conds(fields: Seq<Seq<char>>) -> Seq<Cond>
    decreases fields.len(),
{
    if fields.len() == 0 {
        Seq::empty()
    } else {
        like_conds(fields.drop_last()).push(Cond::Like(schema::column(fields.last()), 2))
    }
}

proof fn lemma_like(fields: Seq<Seq<char>>, query: Seq<char>, env: Seq<BindV>)
    requires
        env.len() >= 2,
        env[1] == BindV::Text("%"@ + query + "%"@),
    ensures
        meaning::cond_texts(like_conds(fields)) == search::column_list(
            fields,
            ""@,
            " ILIKE $2"@,
        ),
        forall|row: Row| #[trigger]
            meaning::any_value(like_conds(fields), row, env) == Some(true) <==> exists|i: int|
                0 <= i < fields.len() && #[trigger] holds_substring(fields[i], query, row),
    decreases fields.len(),
{
    let texts = search::column_list(fields, ""@, " ILIKE $2"@);
    if fields.len() == 0 {
        assert(texts =~= Seq::<Seq<char>>::empty());
    } else {
        let init = fields.drop_last();
        lemma_like(init, query, env);
        let head = like_conds(init);
        let c = Cond::Like(schema::column(fields.last()), 2);
        admission::lemma_texts_push(head, c);
        let name = filter::quoted(schema::column(fields.last()));
        reveal_strlit("");
        reveal_strlit(" ILIKE $2");
        reveal_strlit(" ILIKE ");
        reveal_strlit("$");
        assert(text::dec(2) =~= seq!['2']);
        assert(" ILIKE $2"@ =~= " ILIKE "@ + ("$"@ + text::dec(2)));
        assert(""@ + name + " ILIKE $2"@ =~= name + " ILIKE "@ + ("$"@ + text::dec(2)));
        assert(texts =~= search::column_list(init, ""@, " ILIKE $2"@).push(
            meaning::cond_text(c),
        ));
        assert(head.push(c).drop_last() =~= head);
        assert forall|row: Row| #[trigger] meaning::any_value(
            like_conds(fields),
            row,
            env,
        ) == Some(true) <==> exists|i: int|
            0 <= i < fields.len() && #[trigger] holds_substring(fields[i], query, row) by {
            assert(meaning::any_value(like_conds(fields), row, env) == meaning::either(
                meaning::any_value(head, row, env),
                meaning::cond_value(c, row, env),
            ));
            assert(meaning::cond_value(c, row, env) == Some(true) <==> holds_substring(
                fields.last(),
                query,
                row,
            ));
            if exists|i: int|
                0 <= i < fields.len() && #[trigger] holds_substring(fields[i], query, row) {
                let i = choose|i: int|
                    0 <= i < fields.len() && #[trigger] holds_substring(fields[i], query, row);
                if i < init.len() {
                    assert(holds_substring(init[i], query, row));
                }
            }
            if exists|i: int|
                0 <= i < init.len() && #[trigger] holds_substring(init[i], query, row) {
                let i = choose|i: int|
                    0 <= i < init.len() && #[trigger] holds_substring(init[i], query, row);
                assert(holds_substring(fields[i], query, row));
            }
            if holds_substring(fields.last(), query, row) {
                assert(holds_substring(fields[fields.len() - 1], query, row));
            }
        }
    }
}

proof fn lemma_usable(indexes: Seq<IndexV>, name: Option<Seq<char>>, vector: bool)
    ensures
        search::first_usable(indexes, name, vector) matches Some(ix) ==> indexes.contains(ix) && (
        name matches Some(n) ==> ix.name == n) && (if vector {
            ix.vector is Some
        } else {
            ix.search
        }),
    decreases indexes.len(),
{
    if indexes.len() > 0 {
        if search::usable(indexes[0], name, vector) {
            assert(indexes.contains(indexes[0]));
        } else {
            let rest = indexes.drop_first();
            lemma_usable(rest, name, vector);
            if let Some(ix) = search::first_usable(rest, name, vector) {
                assert(indexes[rest.index_of(ix) + 1] == ix);
            }
        }
    }
}

/// The text that takes the best rows first.
pub proof fn lemma_best_first(rank: Seq<char>, n: nat)
    ensures
        first_of(best_first(rank), n) == " ORDER BY "@ + rank
            + " DESC, \"created_at\" DESC, \"id\" DESC"@ + compiled::limit_part(n),
{
    let texts = sort_texts(best_first(rank));
    let created = meaning::name_text("created_at"@);
    let id = meaning::name_text("id"@);
    reveal_strlit("\"");
    reveal_strlit("created_at");
    reveal_strlit("id");
    reveal_strlit(" ");
    reveal_strlit("DESC");
    reveal_strlit(", ");
    reveal_strlit(" DESC, \"created_at\" DESC, \"id\" DESC");
    let a = rank + " "@ + "DESC"@;
    let b = created + " "@ + "DESC"@;
    let d = id + " "@ + "DESC"@;
    assert(texts =~= seq![a, b, d]);
    assert(texts.drop_last() =~= seq![a, b]);
    assert(seq![a, b].drop_last() =~= seq![a]);
    assert(text::joined(seq![a], ", "@) == a);
    assert(text::joined(seq![a, b], ", "@) == a + ", "@ + b);
    assert(text::joined(texts, ", "@) == a + ", "@ + b + ", "@ + d);
    let rest = " DESC, \"created_at\" DESC, \"id\" DESC"@;
    assert(" "@ + "DESC"@ + ", "@ + b + ", "@ + d =~= rest);
    assert(a + ", "@ + b + ", "@ + d =~= rank + (" "@ + "DESC"@ + ", "@ + b + ", "@ + d));
    let limit = compiled::limit_part(n);
    assert(" ORDER BY "@ + (rank + rest) + " LIMIT "@ + meaning::bound_text(n) =~= " ORDER BY "@
        + rank + rest + limit);
}

proof fn lemma_fitness(ix: IndexV, mode: SearchMode)
    ensures
        search::text_rank(ix, mode) == fitness(ix, mode),
{
    lemma_query_text(ix, 1);
    if mode is Trgm {
        assert(search::column_list(ix.fields, "similarity("@, ", $1)"@) =~= Seq::new(
            ix.fields.len(),
            |i: int|
                "similarity("@ + meaning::name_text(schema::column(ix.fields[i])) + ", $1)"@,
        ));
    }
}

proof fn lemma_order_ends(x: Seq<char>)
    ensures
        ends_conditions(" ORDER BY "@ + x),
{
    assert(" ORDER BY "@.is_prefix_of(" ORDER BY "@ + x));
}

/// Sorting ends the conditions.
pub proof fn lemma_first_ends(sorts: Seq<Sort>, n: nat)
    ensures
        ends_conditions(first_of(sorts, n)),
{
    let list = text::joined(sort_texts(sorts), ", "@);
    let p = meaning::bound_text(n);
    lemma_assoc(" ORDER BY "@, list, " LIMIT "@);
    lemma_assoc(" ORDER BY "@, list + " LIMIT "@, p);
    lemma_order_ends(list + " LIMIT "@ + p);
}

/// The parts of a read, put together one by one, make up its text.
proof fn lemma_clause(
    before: Seq<char>,
    from: Seq<char>,
    lead: Seq<char>,
    extra: Seq<char>,
    cs: Seq<Cond>,
    after: Seq<char>,
)
    requires
        text::joined(meaning::cond_texts(cs), " AND "@) == lead + extra,
    ensures
        before + " FROM "@ + from + " WHERE "@ + lead + extra + after == clause(
            before,
            from,
            cs,
            after,
        ),
{
    let head = before + " FROM "@ + from + " WHERE "@;
    lemma_assoc(head, lead, extra);
}

/// A text search reads the rows of the table that match the text, meet its filter
/// and may be seen by the caller, from the index that it names, and takes the
/// best of them, as many as are asked for.
#[verifier::rlimit(40)]
pub proof fn law_text_search_reads_what_matches(c: SearchCtxV, s: SearchV, take: Option<u32>)
    requires
        search::search_sql(c, s, take, None) is Ok,
    ensures
        ({
            let r = search::search_sql(c, s, take, None)->Ok_0;
            let mode = match s.mode {
                Some(m) => m,
                None => SearchMode::Tsquery,
            };
            exists|ix: IndexV| #[trigger]
                c.table.indexes.contains(ix) && ix.search && ix.name == s.index && reads(
                    r.sql,
                    c,
                    r.binds,
                    text_wanted(c, ix, mode, s.query, s.filter),
                    first_of(best_first(fitness(ix, mode)), r.binds.len()),
                )
        }),
        search::search_sql(c, s, take, None)->Ok_0.binds.last() == BindV::I64(
            match take {
                Some(n) => n as i64,
                None => compiled::MAX_TAKE as i64,
            },
        ),
{
    let r = search::search_sql(c, s, take, None)->Ok_0;
    let mode = search::mode_of(s);
    lemma_usable(c.table.indexes, Some(s.index), false);
    let ix = search::first_usable(c.table.indexes, Some(s.index), false)->0;
    let start = search::text_binds(s).len() + 1;
    let (extra, binds) = search::extra_conditions(c, s.filter, start)->Ok_0;
    let env = r.binds;
    assert forall|i: int| 0 <= i < binds.len() implies env[start - 1 + i] == #[trigger] binds[i] by {}
    assert(env[0] == BindV::Text(s.query));
    let first = match_cond(ix, mode);
    if mode is Trgm {
        assert(env[1] == BindV::Text("%"@ + s.query + "%"@));
        lemma_like(ix.fields, s.query, env);
    }
    lemma_query_text(ix, 1);
    let lead = search::match_condition(ix, mode);
    assert(meaning::cond_text(first) == lead);
    let cs = lemma_extra(c, s.filter, start, first, env);
    let from = compiled::table_ref(c.db, c.table_name);
    let rank = search::text_rank(ix, mode);
    let columns = "SELECT \"id\", \"doc\", \"created_at\", \"version\""@ + (if s.snippet == Some(
        true,
    ) {
        search::snippet_column(ix)
    } else {
        Seq::empty()
    }) + Seq::<char>::empty();
    let after = first_of(best_first(rank), env.len());
    lemma_best_first(rank, env.len());
    lemma_fitness(ix, mode);
    let none = Seq::<char>::empty();
    let source = columns + " FROM "@ + from + " WHERE "@ + lead + extra;
    assert(source + none =~= source);
    let rest = " DESC, \"created_at\" DESC, \"id\" DESC"@;
    let limit = compiled::limit_part(env.len());
    lemma_assoc(source, " ORDER BY "@, rank);
    lemma_assoc(source, " ORDER BY "@ + rank, rest);
    lemma_assoc(source, " ORDER BY "@ + rank + rest, limit);
    lemma_clause(columns, from, lead, extra, cs, after);
    assert(r.sql == clause(columns, from, cs, after));
    lemma_first_ends(best_first(rank), env.len());
    let want = text_wanted(c, ix, mode, s.query, s.filter);
    assert forall|row: Row| #[trigger] admission::is_row_of(row, c.table) implies (
    admission::all_hold(cs, row, env) <==> want(row)) by {
        if mode is Trgm {
            assert(meaning::cond_value(first, row, env) == meaning::any_value(
                like_conds(ix.fields),
                row,
                env,
            ));
        }
    }
    assert(reads(r.sql, c, r.binds, want, after));
}

/// How far the vector of a row is from the bound one.
pub open spec fn apart(ix: IndexV, n: nat) -> Seq<char> {
    meaning::name_text(schema::vector_column(ix.name)) + " "@ + distance_op(ix.vector->0.metric)
        + " "@ + meaning::bound_text(n) + "::vector"@
}

/// The text that takes the rows with the nearest vectors first, as many as the
/// bound value says.
pub open spec fn nearest(ix: IndexV, n: nat, limit: nat) -> Seq<char> {
    " ORDER BY "@ + apart(ix, n) + " LIMIT "@ + meaning::bound_text(limit)
}

/// The operator of a metric is that of the distance it measures; different
/// metrics have different ones.
pub proof fn law_metric_has_its_operator(m: VectorMetric)
    ensures
        schema::distance_operator(m) == distance_op(m),
        forall|other: VectorMetric| #[trigger]
            schema::distance_operator(other) == schema::distance_operator(m) ==> other == m,
{
    lemma_distance_op(m);
    assert forall|other: VectorMetric| #[trigger] schema::distance_operator(
        other,
    ) == schema::distance_operator(m) implies other == m by {
        lemma_distance_op(other);
        assert(distance_op(other)[1] == distance_op(m)[1]);
    }
}

proof fn lemma_distance_op(m: VectorMetric)
    ensures
        schema::distance_operator(m) == distance_op(m),
{
    reveal_strlit("<=>");
    reveal_strlit("<->");
    reveal_strlit("<#>");
    assert(schema::distance_operator(m) =~= distance_op(m));
}

/// A vector search reads the rows of the table that have a vector, meet its
/// filter and may be seen by the caller, from the index that it names, and takes
/// those nearest to the vector given, as many as are asked for. A page is a page
/// of these rows.
#[verifier::rlimit(40)]
pub proof fn law_vector_search_reads_what_has_a_vector(
    c: SearchCtxV,
    s: VectorSearchV,
    p: Option<PaginateV>,
)
    requires
        search::vector_search_sql(c, s, p) is Ok,
    ensures
        ({
            let r = search::vector_search_sql(c, s, p)->Ok_0;
            exists|ix: IndexV, n: nat, rest: Seq<char>| #[trigger]
                takes_nearest(c, s, r, ix, n, rest)
        }),
{
    let r = search::vector_search_sql(c, s, p)->Ok_0;
    let env = r.binds;
    lemma_usable(c.table.indexes, Some(s.index), true);
    let ix = search::first_usable(c.table.indexes, Some(s.index), true)->0;
    let (extra, binds) = search::extra_conditions(c, s.filter, 1)->Ok_0;
    let n = 1 + binds.len();
    let column = schema::vector_column(ix.name);
    let op = schema::distance_operator(ix.vector->0.metric);
    lemma_distance_op(ix.vector->0.metric);
    let d = search::distance(column, op, n);
    assert(d == apart(ix, n));
    let first = Cond::Filled(column);
    let lead = filter::quoted(column) + " IS NOT NULL"@;
    assert(meaning::cond_text(first) == lead);
    assert forall|i: int| 0 <= i < binds.len() implies env[1 - 1 + i] == #[trigger] binds[i] by {}
    let cs = lemma_extra(c, s.filter, 1, first, env);
    let from = compiled::table_ref(c.db, c.table_name);
    let near = nearest(ix, n, n + 1);
    let limit = compiled::limit_part(n + 1);
    assert(" ORDER BY "@ + d + limit =~= near);
    let head = " FROM "@;
    let vector = search::vector_text(s.vector)->0;
    assert(env[n - 1] == BindV::Text(vector));
    assert(env[n as int] == BindV::I64(s.limit as i64));
    let want = vector_wanted(c, ix, s.filter);
    assert forall|row: Row| #[trigger] admission::is_row_of(row, c.table) implies (
    admission::all_hold(cs, row, env) <==> want(row)) by {}
    match p {
        None => {
            let cols = "SELECT \"id\", \"doc\", \"created_at\", \"version\""@;
            reveal_strlit("SELECT \"id\", \"doc\", \"created_at\", \"version\" FROM ");
            reveal_strlit("SELECT \"id\", \"doc\", \"created_at\", \"version\"");
            reveal_strlit(" FROM ");
            assert("SELECT \"id\", \"doc\", \"created_at\", \"version\" FROM "@ =~= cols + head);
            lemma_vector_text(cols + head + from + " WHERE "@, filter::quoted(column), extra, d, limit);
            lemma_clause(cols, from, lead, extra, cs, near);
            assert(r.sql == clause(cols, from, cs, near));
            let rest = Seq::<char>::empty();
            assert(near + rest =~= near);
            lemma_near_ends(ix, n, rest);
            assert(reads(r.sql, c, env, want, near + rest));
            assert(takes_nearest(c, s, r, ix, n, rest));
        },
        Some(page) => {
            let (resume, more) = search::ranked_resume(
                page,
                "dist"@,
                false,
                n + 2,
                " WHERE "@,
            )->Ok_0;
            let lit = "WITH cand AS ( SELECT \"id\", \"doc\", \"created_at\", \"version\", ("@;
            let cols = lit + d + ") AS dist"@;
            reveal_strlit(") AS dist FROM ");
            reveal_strlit(") AS dist");
            reveal_strlit(" FROM ");
            assert(") AS dist FROM "@ =~= ") AS dist"@ + head);
            assert(lit + d + ") AS dist FROM "@ =~= cols + head);
            lemma_vector_text(
                cols + head + from + " WHERE "@,
                filter::quoted(column),
                extra,
                d,
                limit,
            );
            let candidates = search::vector_candidates(c, column, op, extra, n);
            let base = cols + head + from + " WHERE "@ + lead + extra;
            assert(candidates == base + near + " )"@);
            let final_part =
                " SELECT \"id\", \"doc\", \"created_at\", \"version\", dist FROM cand"@;
            let order = " ORDER BY dist ASC, \"created_at\" DESC, \"id\" DESC"@;
            let last = compiled::limit_part(n + 2 + more.len());
            let rest = " )"@ + final_part + resume + order + last;
            lemma_tail(base, near, final_part, resume, order, last);
            lemma_clause(cols, from, lead, extra, cs, near + rest);
            assert(r.sql == clause(cols, from, cs, near + rest));
            lemma_near_ends(ix, n, rest);
            assert(reads(r.sql, c, env, want, near + rest));
            assert(takes_nearest(c, s, r, ix, n, rest));
        },
    }
}

proof fn lemma_near_ends(ix: IndexV, n: nat, rest: Seq<char>)
    ensures
        ends_conditions(nearest(ix, n, n + 1) + rest),
{
    let x = apart(ix, n) + " LIMIT "@ + meaning::bound_text(n + 1) + rest;
    assert(nearest(ix, n, n + 1) + rest =~= " ORDER BY "@ + x);
    lemma_order_ends(x);
}

proof fn lemma_vector_text(
    a: Seq<char>,
    column: Seq<char>,
    extra: Seq<char>,
    d: Seq<char>,
    limit: Seq<char>,
)
    ensures
        a + column + " IS NOT NULL"@ + extra + " ORDER BY "@ + d + limit == a + (column
            + " IS NOT NULL"@) + extra + (" ORDER BY "@ + d + limit),
{
    lemma_assoc(a, column, " IS NOT NULL"@);
    let b = a + (column + " IS NOT NULL"@) + extra;
    lemma_assoc(b, " ORDER BY "@, d);
    lemma_assoc(b, " ORDER BY "@ + d, limit);
}

proof fn lemma_tail(
    base: Seq<char>,
    near: Seq<char>,
    a: Seq<char>,
    b: Seq<char>,
    c: Seq<char>,
    d: Seq<char>,
)
    ensures
        base + near + " )"@ + a + b + c + d == base + (near + (" )"@ + a + b + c + d)),
{
    lemma_assoc(base, near, " )"@);
    lemma_assoc(base, near + " )"@, a);
    lemma_assoc(base, near + " )"@ + a, b);
    lemma_assoc(base, near + " )"@ + a + b, c);
    lemma_assoc(base, near + " )"@ + a + b + c, d);
    lemma_assoc(near, " )"@, a);
    lemma_assoc(near, " )"@ + a, b);
    lemma_assoc(near, " )"@ + a + b, c);
    lemma_assoc(near, " )"@ + a + b + c, d);
}

/// A compiled vector search reads the rows that it is to consider from an index of
/// the table, and takes the nearest of them.
pub open spec fn takes_nearest(
    c: SearchCtxV,
    s: VectorSearchV,
    r: CompiledV,
    ix: IndexV,
    n: nat,
    rest: Seq<char>,
) -> bool {
    &&& c.table.indexes.contains(ix) && ix.vector is Some && ix.name == s.index
    &&& 1 <= n < r.binds.len()
    &&& r.binds[n - 1] == BindV::Text(search::vector_text(s.vector)->0)
    &&& r.binds[n as int] == BindV::I64(s.limit as i64)
    &&& reads(
        r.sql,
        c,
        r.binds,
        vector_wanted(c, ix, s.filter),
        nearest(ix, n, n + 1) + rest,
    )
}

/// The text that reads rows with how well they fit the text, and how far their
/// vectors are from the bound one.
pub open spec fn measured(six: IndexV, vix: IndexV, n: nat) -> Seq<char> {
    "WITH matched AS ( SELECT \"id\", \"doc\", \"created_at\", \"version\", "@ + fitness(
        six,
        SearchMode::Tsquery,
    ) + " AS trank, ("@ + apart(vix, n) + ") AS dist"@
}

/// A compiled hybrid search reads the rows that it is to consider from two indexes
/// of the table, measures them against the text and the vector, and ranks them by
/// both.
pub open spec fn considers(
    c: SearchCtxV,
    s: HybridSearchV,
    r: CompiledV,
    six: IndexV,
    vix: IndexV,
    after: Seq<char>,
) -> bool {
    &&& c.table.indexes.contains(six) && six.search
    &&& c.table.indexes.contains(vix) && vix.vector is Some
    &&& s.search_index matches Some(name) ==> six.name == name
    &&& s.vector_index matches Some(name) ==> vix.name == name
    &&& reads(r.sql, c, r.binds, hybrid_wanted(c, six, vix, s.query), after)
    &&& fusion::ranking().is_prefix_of(after)
    &&& exists|n: nat|
        1 <= n <= r.binds.len() && r.binds[n - 1] == BindV::Text(
            search::vector_text(s.vector)->0,
        ) && #[trigger] measured(six, vix, n).is_prefix_of(r.sql)
}

/// A hybrid search reads the rows of the table that match the text or have a
/// vector and may be seen by the caller, from the indexes that it names, on a
/// page as in a whole.
#[verifier::rlimit(60)]
pub proof fn law_hybrid_search_reads_what_matches_or_has_a_vector(
    c: SearchCtxV,
    s: HybridSearchV,
    p: Option<PaginateV>,
)
    requires
        search::hybrid_search_sql(c, s, p) is Ok,
    ensures
        ({
            let r = search::hybrid_search_sql(c, s, p)->Ok_0;
            exists|six: IndexV, vix: IndexV, after: Seq<char>| #[trigger]
                considers(c, s, r, six, vix, after)
        }),
{
    let r = search::hybrid_search_sql(c, s, p)->Ok_0;
    let env = r.binds;
    lemma_usable(c.table.indexes, s.search_index, false);
    lemma_usable(c.table.indexes, s.vector_index, true);
    let six = search::first_usable(c.table.indexes, s.search_index, false)->0;
    let vix = search::first_usable(c.table.indexes, s.vector_index, true)->0;
    let (extra, binds) = search::extra_conditions(c, None, 2)->Ok_0;
    let n = 2 + binds.len();
    let scol = schema::search_column(six.name);
    let vcol = schema::vector_column(vix.name);
    let words = Cond::Matches(scol, six.language, 1);
    let filled = Cond::Filled(vcol);
    let first = Cond::Any(admission::pair(words, filled));
    admission::lemma_pair_texts(words, filled);
    lemma_query_text(six, 1);
    let q = search::tsquery(six.language, 1);
    assert forall|i: int| 0 <= i < binds.len() implies env[2 - 1 + i] == #[trigger] binds[i] by {}
    assert(env[0] == BindV::Text(s.query));
    let cs = lemma_extra(c, None, 2, first, env);
    let from = compiled::table_ref(c.db, c.table_name);
    let d = search::distance(vcol, schema::distance_operator(vix.vector->0.metric), n);
    let lit = "WITH matched AS ( SELECT \"id\", \"doc\", \"created_at\", \"version\", ts_rank("@;
    let cols = lit + filter::quoted(scol) + ", "@ + q + ") AS trank, ("@ + d + ") AS dist"@;
    lemma_dist_from(lit + filter::quoted(scol) + ", "@ + q + ") AS trank, ("@ + d);
    let base = cols + " FROM "@ + from;
    lemma_either_text(base, filter::quoted(scol), q, filter::quoted(vcol), extra);
    let lead = meaning::cond_text(first);
    let numbered =
        " ), ranked AS ( SELECT \"id\", \"doc\", \"created_at\", \"version\", ROW_NUMBER() OVER (ORDER BY trank DESC, \"created_at\" DESC, \"id\" DESC) AS r_text, ROW_NUMBER() OVER (ORDER BY dist ASC NULLS LAST, \"created_at\" DESC, \"id\" DESC) AS r_vec FROM matched )"@;
    let rankings = search::hybrid_rankings(c, six, vix, extra, n);
    let read = base + " WHERE "@ + lead + extra;
    assert(rankings == read + numbered);
    let tail = lemma_after_rankings(r.sql, rankings, c, s, six, vix, p);
    lemma_assoc(read, numbered, tail);
    let after = numbered + tail;
    lemma_clause(cols, from, lead, extra, cs, after);
    assert(r.sql == clause(cols, from, cs, after));
    lemma_numbered_ends(tail);
    let want = hybrid_wanted(c, six, vix, s.query);
    assert forall|row: Row| #[trigger] admission::is_row_of(row, c.table) implies (
    admission::all_hold(cs, row, env) <==> want(row)) by {
        assert(meaning::any_value(admission::pair(words, filled), row, env) == meaning::either(
            meaning::cond_value(words, row, env),
            meaning::cond_value(filled, row, env),
        ));
    }
    assert(reads(r.sql, c, env, want, after));
    assert(fusion::ranking().is_prefix_of(after)) by {
        fusion::lemma_ranking();
        assert(numbered.is_prefix_of(numbered + tail));
    }
    assert(env[n - 1] == BindV::Text(search::vector_text(s.vector)->0));
    assert(measured(six, vix, n).is_prefix_of(r.sql)) by {
        lemma_measured(six, vix, n);
        lemma_starts(cols, from, cs, after);
    }
    assert(considers(c, s, r, six, vix, after));
}

proof fn lemma_dist_from(x: Seq<char>)
    ensures
        x + ") AS dist FROM "@ == x + ") AS dist"@ + " FROM "@,
{
    reveal_strlit(") AS dist FROM ");
    reveal_strlit(") AS dist");
    reveal_strlit(" FROM ");
    assert(") AS dist FROM "@ =~= ") AS dist"@ + " FROM "@);
    lemma_assoc(x, ") AS dist"@, " FROM "@);
}

proof fn lemma_starts(before: Seq<char>, from: Seq<char>, cs: Seq<Cond>, after: Seq<char>)
    ensures
        before.is_prefix_of(clause(before, from, cs, after)),
{
    let s = clause(before, from, cs, after);
    assert(s.take(before.len() as int) =~= before);
}

proof fn lemma_measured(six: IndexV, vix: IndexV, n: nat)
    ensures
        measured(six, vix, n)
            == "WITH matched AS ( SELECT \"id\", \"doc\", \"created_at\", \"version\", ts_rank("@
            + filter::quoted(schema::search_column(six.name)) + ", "@ + search::tsquery(
            six.language,
            1,
        ) + ") AS trank, ("@ + search::distance(
            schema::vector_column(vix.name),
            schema::distance_operator(vix.vector->0.metric),
            n,
        ) + ") AS dist"@,
{
    lemma_query_text(six, 1);
    lemma_distance_op(vix.vector->0.metric);
    let lit = "WITH matched AS ( SELECT \"id\", \"doc\", \"created_at\", \"version\", "@;
    reveal_strlit("WITH matched AS ( SELECT \"id\", \"doc\", \"created_at\", \"version\", ");
    reveal_strlit("WITH matched AS ( SELECT \"id\", \"doc\", \"created_at\", \"version\", ts_rank(");
    reveal_strlit("ts_rank(");
    reveal_strlit(")");
    reveal_strlit(" AS trank, (");
    reveal_strlit(") AS trank, (");
    assert("WITH matched AS ( SELECT \"id\", \"doc\", \"created_at\", \"version\", ts_rank("@ =~= lit
        + "ts_rank("@);
    assert(") AS trank, ("@ =~= ")"@ + " AS trank, ("@);
    let scol = filter::quoted(schema::search_column(six.name));
    let q = search::tsquery(six.language, 1);
    assert(lit + "ts_rank("@ + scol + ", "@ + q + ") AS trank, ("@ =~= lit + ("ts_rank("@ + scol
        + ", "@ + q + ")"@) + " AS trank, ("@);
}

proof fn lemma_numbered_ends(tail: Seq<char>)
    ensures
        ends_conditions(
            " ), ranked AS ( SELECT \"id\", \"doc\", \"created_at\", \"version\", ROW_NUMBER() OVER (ORDER BY trank DESC, \"created_at\" DESC, \"id\" DESC) AS r_text, ROW_NUMBER() OVER (ORDER BY dist ASC NULLS LAST, \"created_at\" DESC, \"id\" DESC) AS r_vec FROM matched )"@
                + tail,
        ),
{
    let numbered =
        " ), ranked AS ( SELECT \"id\", \"doc\", \"created_at\", \"version\", ROW_NUMBER() OVER (ORDER BY trank DESC, \"created_at\" DESC, \"id\" DESC) AS r_text, ROW_NUMBER() OVER (ORDER BY dist ASC NULLS LAST, \"created_at\" DESC, \"id\" DESC) AS r_vec FROM matched )"@;
    reveal_strlit(
        " ), ranked AS ( SELECT \"id\", \"doc\", \"created_at\", \"version\", ROW_NUMBER() OVER (ORDER BY trank DESC, \"created_at\" DESC, \"id\" DESC) AS r_text, ROW_NUMBER() OVER (ORDER BY dist ASC NULLS LAST, \"created_at\" DESC, \"id\" DESC) AS r_vec FROM matched )",
    );
    reveal_strlit(" )");
    assert(numbered.len() >= 2 && numbered[0] == ' ' && numbered[1] == ')');
    assert(" )"@.is_prefix_of(numbered + tail));
}

proof fn lemma_either_text(
    base: Seq<char>,
    scol: Seq<char>,
    q: Seq<char>,
    vcol: Seq<char>,
    extra: Seq<char>,
)
    ensures
        base + " WHERE ("@ + scol + " @@ "@ + q + " OR "@ + vcol + " IS NOT NULL)"@ + extra == base
            + " WHERE "@ + ("("@ + (scol + " @@ "@ + q + " OR "@ + (vcol + " IS NOT NULL"@))
            + ")"@) + extra,
{
    reveal_strlit(" WHERE (");
    reveal_strlit(" WHERE ");
    reveal_strlit("(");
    reveal_strlit(" IS NOT NULL)");
    reveal_strlit(" IS NOT NULL");
    reveal_strlit(")");
    assert(" WHERE ("@ =~= " WHERE "@ + "("@);
    assert(" IS NOT NULL)"@ =~= " IS NOT NULL"@ + ")"@);
    let a = base + " WHERE "@;
    let words = scol + " @@ "@ + q;
    let either = words + " OR "@ + (vcol + " IS NOT NULL"@);
    assert(base + " WHERE ("@ =~= a + "("@);
    assert(a + "("@ + scol + " @@ "@ + q =~= a + "("@ + words);
    assert(a + "("@ + words + " OR "@ + vcol + (" IS NOT NULL"@ + ")"@) =~= a + ("("@ + either
        + ")"@));
}

proof fn lemma_after_rankings(
    sql: Seq<char>,
    rankings: Seq<char>,
    c: SearchCtxV,
    s: HybridSearchV,
    six: IndexV,
    vix: IndexV,
    p: Option<PaginateV>,
) -> (tail: Seq<char>)
    requires
        search::hybrid_search_sql(c, s, p) is Ok,
        sql == search::hybrid_search_sql(c, s, p)->Ok_0.sql,
        Some(six) == search::first_usable(c.table.indexes, s.search_index, false),
        Some(vix) == search::first_usable(c.table.indexes, s.vector_index, true),
        rankings == search::hybrid_rankings(
            c,
            six,
            vix,
            search::extra_conditions(c, None, 2)->Ok_0.0,
            2 + search::extra_conditions(c, None, 2)->Ok_0.1.len(),
        ),
    ensures
        sql == rankings + tail,
{
    let binds = search::extra_conditions(c, None, 2)->Ok_0.1;
    let n = 2 + binds.len();
    match p {
        None => {
            assert(sql == search::hybrid_statement(rankings, n + 1));
            lemma_whole_tail(rankings, n + 1)
        },
        Some(page) => {
            let (resume, more) = search::ranked_resume(
                page,
                "score"@,
                true,
                n + 3,
                " WHERE "@,
            )->Ok_0;
            assert(sql == search::hybrid_page_statement(
                rankings,
                n + 1,
                resume,
                n + 3 + more.len(),
            ));
            lemma_page_tail(rankings, n + 1, resume, n + 3 + more.len())
        },
    }
}

proof fn lemma_whole_tail(rankings: Seq<char>, k: nat) -> (tail: Seq<char>)
    ensures
        search::hybrid_statement(rankings, k) == rankings + tail,
{
    let a = " SELECT \"id\", \"doc\", \"created_at\", \"version\" FROM ranked ORDER BY "@;
    let b = search::fused_score(k);
    let d = " DESC, \"created_at\" DESC, \"id\" DESC"@;
    let e = compiled::limit_part(k + 1);
    lemma_assoc(rankings, a, b);
    lemma_assoc(rankings, a + b, d);
    lemma_assoc(rankings, a + b + d, e);
    a + b + d + e
}

proof fn lemma_page_tail(rankings: Seq<char>, k: nat, resume: Seq<char>, limit: nat) -> (tail: Seq<
    char,
>)
    ensures
        search::hybrid_page_statement(rankings, k, resume, limit) == rankings + tail,
{
    let a = ", scored AS ( SELECT \"id\", \"doc\", \"created_at\", \"version\", "@;
    let b = search::fused_score(k);
    let d =
        "::float8 AS score FROM ranked ), topk AS ( SELECT \"id\", \"doc\", \"created_at\", \"version\", score FROM scored ORDER BY score DESC, \"created_at\" DESC, \"id\" DESC"@;
    let e = compiled::limit_part(k + 1);
    let f = " ) SELECT \"id\", \"doc\", \"created_at\", \"version\", score FROM topk"@;
    let g = " ORDER BY score DESC, \"created_at\" DESC, \"id\" DESC"@;
    let h = compiled::limit_part(limit);
    lemma_assoc(rankings, a, b);
    lemma_assoc(rankings, a + b, d);
    lemma_assoc(rankings, a + b + d, e);
    lemma_assoc(rankings, a + b + d + e, f);
    lemma_assoc(rankings, a + b + d + e + f, resume);
    lemma_assoc(rankings, a + b + d + e + f + resume, g);
    lemma_assoc(rankings, a + b + d + e + f + resume + g, h);
    a + b + d + e + f + resume + g + h
}

/// What a hybrid search considers is what the text search by words finds and what
/// the vector search considers on the same indexes, all of it and nothing else.
pub proof fn law_hybrid_search_joins_both_searches(
    c: SearchCtxV,
    six: IndexV,
    vix: IndexV,
    query: Seq<char>,
    row: Row,
)
    ensures
        hybrid_finds(c, six, vix, query, row) <==> text_finds(
            c,
            six,
            SearchMode::Tsquery,
            query,
            None,
            row,
        ) || vector_finds(c, vix, None, row),
        forall|f: Option<FilterV>|
            (#[trigger] text_finds(c, six, SearchMode::Tsquery, query, f, row)) ==> hybrid_finds(
                c,
                six,
                vix,
                query,
                row,
            ),
        forall|f: Option<FilterV>|
            (#[trigger] vector_finds(c, vix, f, row)) ==> hybrid_finds(c, six, vix, query, row),
{
}

} // verus!
