//! Every bind of a compiled query has its placeholder, and every placeholder its
//! bind.
#[allow(unused_imports)]
use vstd::prelude::*;
#[allow(unused_imports)]
use vstd::string::*;

use crate::dsl;
use crate::dsl::{
    AggregateOp, AggregateSpec, BindV, CtxV, FilterV, HybridSearchV, Order, PaginateV, QueryV, Rel,
    SearchMode, SearchV, VectorSearchV,
};
use crate::json::JsonV;
use crate::pagination;
use crate::query::compiled;
use crate::query::compiled::CompiledV;
use crate::query::filter;
use crate::query::filter::FilterUse;
use crate::query::keyset;
use crate::query::keyset::{SortColV, SortKeyV};
use crate::query::laws;
use crate::query::numbering;
use crate::query::numbering::{
    group_numbering, lemma_all_alike, lemma_all_inert, lemma_append, lemma_column, lemma_inert,
    lemma_joined, lemma_name, lemma_physical, lemma_placeholder, lemma_placeholders, lemma_push,
};
use crate::query::row_auth;
use crate::query::search;
use crate::query::search::SearchCtxV;
use crate::query::terminals;
use crate::query::window;
use crate::query::window::WindowV;
use crate::schema;
use crate::schema::{IndexV, TableV, VectorMetric};
use crate::text;

verus! {

/// Consecutive spans make one.
proof fn lemma_spans(a: nat, b: nat, c: nat)
    requires
        a <= b <= c,
    ensures
        numbering::span(a, b).union(numbering::span(b, c)) == numbering::span(a, c),
        numbering::span(a, a) == Set::<nat>::empty(),
        numbering::span(a, a + 1) == set![a],
{
    assert(numbering::span(a, b).union(numbering::span(b, c)) =~= numbering::span(a, c));
    assert(numbering::span(a, a) =~= Set::<nat>::empty());
    assert(numbering::span(a, a + 1) =~= set![a]);
}

/// The words of a compiled filter are without placeholders.
proof fn lemma_filter_words()
    ensures
        numbering::inert("("@),
        numbering::inert(")"@),
        numbering::inert(" "@),
        numbering::inert(", "@),
        numbering::inert(" AND "@),
        numbering::inert(" OR "@),
        numbering::inert("NOT COALESCE(("@),
        numbering::inert("), FALSE)"@),
        numbering::inert(" IN ("@),
        numbering::inert(" ? "@),
        numbering::inert(" < "@),
        numbering::inert("FALSE"@),
{
    reveal_strlit("(");
    reveal_strlit(")");
    reveal_strlit(" ");
    reveal_strlit(", ");
    reveal_strlit(" AND ");
    reveal_strlit(" OR ");
    reveal_strlit("NOT COALESCE((");
    reveal_strlit("), FALSE)");
    reveal_strlit(" IN (");
    reveal_strlit(" ? ");
    reveal_strlit(" < ");
    reveal_strlit("FALSE");
    lemma_inert("("@);
    lemma_inert(")"@);
    lemma_inert(" "@);
    lemma_inert(", "@);
    lemma_inert(" AND "@);
    lemma_inert(" OR "@);
    lemma_inert("NOT COALESCE(("@);
    lemma_inert("), FALSE)"@);
    lemma_inert(" IN ("@);
    lemma_inert(" ? "@);
    lemma_inert(" < "@);
    lemma_inert("FALSE"@);
}

/// The readings of a field from the document are without placeholders.
proof fn lemma_document_words(field: Seq<char>)
    requires
        numbering::name_ok(field),
    ensures
        numbering::inert("(doc->>'"@ + field + "')"@),
        numbering::inert("(doc->>'"@ + field + "')::float8"@),
        numbering::inert("(doc->>'"@ + field + "')::boolean"@),
        numbering::inert(filter::document_field(field)),
        numbering::inert(filter::presence_test(field)),
{
    broadcast use group_numbering;

    reveal_strlit("(doc->>'");
    reveal_strlit("')");
    reveal_strlit("')::float8");
    reveal_strlit("')::boolean");
    reveal_strlit("(doc->'");
    reveal_strlit("(doc ? '");
    reveal_strlit("' AND doc->>'");
    reveal_strlit("' IS NOT NULL)");
    lemma_name(field);
    lemma_inert("(doc->>'"@);
    lemma_inert("')"@);
    lemma_inert("')::float8"@);
    lemma_inert("')::boolean"@);
    lemma_inert("(doc->'"@);
    lemma_inert("(doc ? '"@);
    lemma_inert("' AND doc->>'"@);
    lemma_inert("' IS NOT NULL)"@);
}

proof fn lemma_operator(rel: Rel)
    ensures
        numbering::inert(filter::operator(rel)),
{
    reveal_strlit("=");
    reveal_strlit("<>");
    reveal_strlit(">");
    reveal_strlit(">=");
    reveal_strlit("<");
    reveal_strlit("<=");
    lemma_inert(filter::operator(rel));
}

/// The left-hand side of a comparison is without placeholders.
proof fn lemma_lhs(field: Seq<char>, v: JsonV, t: TableV)
    requires
        numbering::names_ok(t),
    ensures
        filter::field_term(field, v, t) matches Ok(p) ==> numbering::inert(p.0)
            && numbering::name_ok(field),
{
    if t.fields.contains_key(field) {
        lemma_column(field);
        lemma_document_words(field);
    }
}

proof fn lemma_in_lhs(field: Seq<char>, vs: Seq<JsonV>, t: TableV)
    requires
        numbering::names_ok(t),
    ensures
        filter::in_terms(field, vs, t) matches Ok(p) ==> numbering::inert(p.0),
    decreases vs.len(),
{
    if vs.len() == 1 {
        lemma_lhs(field, vs[0], t);
    } else if vs.len() > 1 {
        lemma_in_lhs(field, vs.drop_last(), t);
    }
}

/// The placeholders of a compiled filter are numbered as its binds are: from the
/// next one on, none left out and none besides.
pub proof fn law_filter_numbers_its_binds(
    f: FilterV,
    t: TableV,
    start: nat,
    used: nat,
    usage: FilterUse,
)
    requires
        numbering::names_ok(t),
    ensures
        filter::node_sql(f, t, start, used, usage) matches Ok(p) ==> numbering::solid(p.0)
            && numbering::numbers(p.0) == numbering::span(
            start + used,
            start + used + p.1.len(),
        ),
    decreases f,
{
    broadcast use group_numbering;

    lemma_filter_words();
    lemma_placeholder(start + used);
    lemma_spans(start + used, start + used, start + used);
    match f {
        FilterV::And(fs) => {
            lemma_filter_list(fs, t, start, used, usage);
            if let Ok((parts, _)) = filter::nodes_sql(fs, t, start, used, usage) {
                lemma_joined(parts, " AND "@);
            }
        },
        FilterV::Or(fs) => {
            lemma_filter_list(fs, t, start, used, usage);
            if let Ok((parts, _)) = filter::nodes_sql(fs, t, start, used, usage) {
                lemma_joined(parts, " OR "@);
            }
        },
        FilterV::Not(g) => {
            law_filter_numbers_its_binds(*g, t, start, used, usage);
        },
        FilterV::Compare(rel, field, v) => {
            lemma_lhs(field, v, t);
            lemma_operator(rel);
        },
        FilterV::In(field, given) => {
            let vs = filter::at_hand(usage, given);
            lemma_in_lhs(field, vs, t);
            if let Ok((_, binds)) = filter::in_terms(field, vs, t) {
                let texts = filter::placeholders(start + used, binds.len());
                lemma_placeholders(start + used, binds.len());
                lemma_joined(texts, ", "@);
            }
        },
        FilterV::Contains(field, v) => {
            lemma_lhs(field, v, t);
            if t.fields.contains_key(field) {
                lemma_document_words(field);
            }
        },
        FilterV::Exists(field) => {
            if t.fields.contains_key(field) {
                lemma_document_words(field);
            }
        },
        FilterV::OlderThan(field, ms) => {
            if t.fields.contains_key(field) {
                lemma_column(field);
                lemma_document_words(field);
            }
        },
    }
}

proof fn lemma_filter_list(fs: Seq<FilterV>, t: TableV, start: nat, used: nat, usage: FilterUse)
    requires
        numbering::names_ok(t),
    ensures
        filter::nodes_sql(fs, t, start, used, usage) matches Ok(p) ==> numbering::all_solid(p.0)
            && numbering::numbers_all(p.0) == numbering::span(
            start + used,
            start + used + p.1.len(),
        ),
    decreases fs,
{
    lemma_spans(start + used, start + used, start + used);
    if fs.len() > 0 {
        lemma_filter_list(fs.drop_last(), t, start, used, usage);
        if let Ok((parts, binds)) = filter::nodes_sql(fs.drop_last(), t, start, used, usage) {
            law_filter_numbers_its_binds(fs.last(), t, start, used + binds.len(), usage);
            if let Ok((sql, more)) = filter::node_sql(
                fs.last(),
                t,
                start,
                used + binds.len(),
                usage,
            ) {
                lemma_push(parts, sql);
                lemma_spans(
                    start + used,
                    start + used + binds.len(),
                    start + used + binds.len() + more.len(),
                );
            }
        }
    }
}

proof fn lemma_row_auth(owner: Option<Seq<char>>, collab: Option<Seq<char>>, ph: nat)
    requires
        numbering::opt_name_ok(owner),
        numbering::opt_name_ok(collab),
        owner is Some || collab is Some,
    ensures
        numbering::solid(row_auth::row_auth_sql(owner, collab, ph)),
        numbering::numbers(row_auth::row_auth_sql(owner, collab, ph)) == set![ph],
{
    broadcast use group_numbering;

    reveal_strlit("((doc->>'");
    reveal_strlit("') = ");
    reveal_strlit(" OR (doc->'");
    reveal_strlit("') ? ");
    reveal_strlit(")");
    reveal_strlit("(doc->>'");
    reveal_strlit("(doc->'");
    lemma_inert("((doc->>'"@);
    lemma_inert("') = "@);
    lemma_inert(" OR (doc->'"@);
    lemma_inert("') ? "@);
    lemma_inert(")"@);
    lemma_inert("(doc->>'"@);
    lemma_inert("(doc->'"@);
    lemma_placeholder(ph);
    assert(set![ph].union(set![ph]) =~= set![ph]);
    if let Some(f) = owner {
        lemma_name(f);
    }
    if let Some(f) = collab {
        lemma_name(f);
    }
}

/// The per-row predicates of a scan number their binds behind those before them.
proof fn lemma_row_conditions(
    conditions: Seq<Seq<char>>,
    binds: Seq<BindV>,
    t: TableV,
    ctx: CtxV,
    owner: Option<Seq<char>>,
    start: nat,
    hide_deleted: bool,
)
    requires
        numbering::names_ok(t),
        numbering::all_solid(conditions),
    ensures
        filter::with_row_conditions(conditions, binds, t, ctx, owner, start, hide_deleted)
            matches Ok(p) ==> numbering::all_solid(p.0) && binds.len() <= p.1.len()
            && numbering::numbers_all(p.0) == numbering::numbers_all(conditions).union(
            numbering::span(start + binds.len(), start + p.1.len()),
        ),
{
    broadcast use group_numbering;

    let base = numbering::numbers_all(conditions);
    let first = start + binds.len();
    let uid = row_auth::enforced_uid(t.owner_field, t.collaborators_field, owner);
    let own = row_auth::row_auth_sql(t.owner_field, t.collaborators_field, first);
    let c1 = if uid is Some {
        conditions.push(own)
    } else {
        conditions
    };
    let n1: nat = if uid is Some {
        binds.len() + 1
    } else {
        binds.len()
    };
    lemma_spans(first, first, first);
    if uid is Some {
        lemma_row_auth(t.owner_field, t.collaborators_field, first);
        lemma_push(conditions, own);
    }
    assert(numbering::numbers_all(c1) == base.union(numbering::span(first, start + n1)));
    reveal_strlit("\"deleted_at\" IS NULL");
    lemma_inert("\"deleted_at\" IS NULL"@);
    if let Ok(fragment) = row_auth::authorize_sql(t, ctx, start, n1) {
        let c2 = match fragment {
            Some((sql, _)) => c1.push(sql),
            None => c1,
        };
        let n2: nat = match fragment {
            Some((_, more)) => n1 + more.len(),
            None => n1,
        };
        if let Some((sql, more)) = fragment {
            law_filter_numbers_its_binds(
                row_auth::resolved_filter(t.authorize->0, ctx),
                t,
                start,
                n1,
                row_auth::predicate_use(t.authorize->0),
            );
            lemma_push(c1, sql);
            lemma_spans(first, start + n1, start + n2);
        }
        assert(numbering::numbers_all(c2) =~= base.union(numbering::span(first, start + n2)));
        lemma_push(c2, "\"deleted_at\" IS NULL"@);
    }
}

/// The conditions of a window's equality prefix.
proof fn lemma_prefix(fields: Seq<Seq<char>>, n: nat)
    requires
        n <= fields.len(),
        forall|i: int| 0 <= i < fields.len() ==> numbering::name_ok(#[trigger] fields[i]),
    ensures
        numbering::all_solid(window::prefix_conditions(fields, n)),
        numbering::numbers_all(window::prefix_conditions(fields, n)) == numbering::span(1, n + 1),
    decreases n,
{
    let parts = window::prefix_conditions(fields, n);
    lemma_spans(1, 1, 1);
    if n > 0 {
        let m = (n - 1) as nat;
        lemma_prefix(fields, m);
        assert(parts =~= window::prefix_conditions(fields, m).push(
            window::column_condition(fields[m as int], " = "@, n),
        ));
        reveal_strlit(" = ");
        lemma_inert(" = "@);
        lemma_condition(fields[m as int], " = "@, n);
        lemma_push(
            window::prefix_conditions(fields, m),
            window::column_condition(fields[m as int], " = "@, n),
        );
        lemma_spans(1, n, n + 1);
        lemma_spans(n, n, n);
    }
}

proof fn lemma_condition(field: Seq<char>, op: Seq<char>, n: nat)
    requires
        numbering::name_ok(field),
        numbering::inert(op),
    ensures
        numbering::solid(window::column_condition(field, op, n)),
        numbering::numbers(window::column_condition(field, op, n)) == set![n],
{
    broadcast use group_numbering;

    lemma_column(field);
    lemma_placeholder(n);
}

/// The range bounds number their binds behind the equality prefix.
proof fn lemma_range(t: TableV, ix: Option<IndexV>, q: QueryV, eq_len: nat)
    requires
        ix matches Some(x) ==> numbering::index_names_ok(x),
    ensures
        window::range_terms(t, ix, q, eq_len) matches Ok(p) ==> numbering::all_solid(p.0)
            && numbering::numbers_all(p.0) == numbering::span(
            eq_len + 1,
            eq_len + 1 + p.1.len(),
        ),
{
    broadcast use group_numbering;

    lemma_spans(eq_len + 1, eq_len + 1, eq_len + 2);
    lemma_spans(eq_len + 1, eq_len + 2, eq_len + 3);
    lemma_spans(eq_len + 2, eq_len + 2, eq_len + 2);
    reveal_strlit(" > ");
    reveal_strlit(" >= ");
    reveal_strlit(" < ");
    reveal_strlit(" <= ");
    lemma_inert(" > "@);
    lemma_inert(" >= "@);
    lemma_inert(" < "@);
    lemma_inert(" <= "@);
    if let Some(x) = ix {
        if eq_len < x.fields.len() {
            let field = x.fields[eq_len as int];
            let none = Seq::<Seq<char>>::empty();
            let lower = window::lower_bound(q);
            let upper = window::upper_bound(q);
            if let Some((op, _)) = lower {
                let c = window::column_condition(field, op, eq_len + 1);
                lemma_condition(field, op, eq_len + 1);
                lemma_push(none, c);
                if let Some((op2, _)) = upper {
                    lemma_condition(field, op2, eq_len + 2);
                    lemma_push(none.push(c), window::column_condition(field, op2, eq_len + 2));
                }
            } else if let Some((op2, _)) = upper {
                lemma_condition(field, op2, eq_len + 1);
                lemma_push(none, window::column_condition(field, op2, eq_len + 1));
            }
        }
    }
}

proof fn lemma_index_names(indexes: Seq<IndexV>, name: Seq<char>)
    requires
        forall|i: int| 0 <= i < indexes.len() ==> numbering::index_names_ok(#[trigger] indexes[i]),
    ensures
        schema::find_index(indexes, name) matches Some(ix) ==> numbering::index_names_ok(ix),
    decreases indexes.len(),
{
    if indexes.len() > 0 {
        assert(numbering::index_names_ok(indexes[0]));
        let rest = indexes.drop_first();
        assert forall|i: int| 0 <= i < rest.len() implies numbering::index_names_ok(
            #[trigger] rest[i],
        ) by {
            assert(rest[i] == indexes[i + 1]);
        }
        lemma_index_names(rest, name);
    }
}

/// The conditions of a window hold the placeholders of its binds, none left out
/// and none besides.
pub proof fn law_window_numbers_its_binds(
    t: TableV,
    q: QueryV,
    ctx: CtxV,
    include_deleted: bool,
)
    requires
        numbering::names_ok(t),
    ensures
        window::window(t, q, ctx, include_deleted) matches Ok(w) ==> {
            &&& numbering::all_solid(w.conditions)
            &&& numbering::numbers_all(w.conditions) == numbering::span(1, w.binds.len() + 1)
            &&& w.next == w.binds.len() + 1
            &&& (w.index matches Some(ix) ==> numbering::index_names_ok(ix) && w.eq_len
                <= ix.fields.len())
        },
{
    broadcast use group_numbering;

    if let Some(name) = q.index {
        lemma_index_names(t.indexes, name);
    }
    if let Ok(w) = window::window(t, q, ctx, include_deleted) {
        let index = match q.index {
            Some(name) => schema::find_index(t.indexes, name),
            None => None,
        };
        let eq = match index {
            Some(ix) => window::eq_prefix(t, ix, q.eq)->Ok_0,
            None => Seq::empty(),
        };
        if let Some(ix) = index {
            window::lemma_prefix_len(t, ix.fields, q.eq);
            lemma_prefix(ix.fields, eq.len());
        }
        lemma_range(t, index, q, eq.len());
        let range = window::range_terms(t, index, q, eq.len())->Ok_0;
        let start = eq.len() + range.1.len() + 1;
        let prefix = match index {
            Some(ix) => window::prefix_conditions(ix.fields, eq.len()),
            None => Seq::empty(),
        };
        let seek = prefix + range.0;
        lemma_append(prefix, range.0);
        lemma_spans(1, eq.len() + 1, start);
        lemma_spans(1, 1, 1);
        assert(numbering::numbers_all(seek) == numbering::span(1, start));
        match window::effective_filter(t, q, ctx) {
            Some(f) => {
                law_filter_numbers_its_binds(f, t, start, 0, FilterUse::Read);
                let (sql, binds) = filter::client_filter_sql(f, t, start, None)->Ok_0;
                lemma_push(seek, sql);
                lemma_spans(1, start, start + binds.len());
                lemma_row_conditions(
                    seek.push(sql),
                    binds,
                    t,
                    ctx,
                    window::separate_owner(t, ctx),
                    start,
                    t.soft_delete && !include_deleted,
                );
                let all = w.binds.len() - eq.len() - range.1.len();
                lemma_spans(1, start + binds.len(), start + all as nat);
            },
            None => {
                lemma_row_conditions(
                    seek,
                    Seq::empty(),
                    t,
                    ctx,
                    window::separate_owner(t, ctx),
                    start,
                    t.soft_delete && !include_deleted,
                );
                let all = w.binds.len() - eq.len() - range.1.len();
                lemma_spans(1, start, start + all as nat);
            },
        }
    }
}

/// A table of a database is without placeholders.
proof fn lemma_table(db: Seq<char>, table: Seq<char>)
    requires
        schema::db_name_ok(db),
        numbering::name_ok(table),
    ensures
        numbering::inert(compiled::table_ref(db, table)),
{
    broadcast use group_numbering;

    reveal_strlit("db_");
    reveal_strlit("t_");
    reveal_strlit(".");
    lemma_inert("."@);
    assert(laws::free_of(db, '$')) by {
        assert forall|i: int| 0 <= i < db.len() implies #[trigger] db[i] != '$' by {
            assert(text::ident_part(db[i]) || db[i] == '-');
        }
    }
    lemma_physical("db_"@, db);
    lemma_name(table);
    lemma_physical("t_"@, table);
}

/// The condition part of a statement holds the placeholders of its conditions.
proof fn lemma_where(conditions: Seq<Seq<char>>)
    requires
        numbering::all_solid(conditions),
    ensures
        numbering::solid(compiled::where_part(conditions)),
        numbering::numbers(compiled::where_part(conditions)) == numbering::numbers_all(conditions),
{
    broadcast use group_numbering;

    reveal_strlit(" WHERE ");
    reveal_strlit(" AND ");
    lemma_inert(" WHERE "@);
    lemma_inert(" AND "@);
    lemma_inert(Seq::<char>::empty());
    lemma_joined(conditions, " AND "@);
}

/// The limit part of a statement holds its placeholder.
proof fn lemma_limit(n: nat)
    ensures
        numbering::solid(compiled::limit_part(n)),
        numbering::numbers(compiled::limit_part(n)) == set![n],
{
    broadcast use group_numbering;

    reveal_strlit(" LIMIT ");
    lemma_inert(" LIMIT "@);
    lemma_placeholder(n);
}

/// The columns of fields between texts that hold the same placeholders.
proof fn lemma_columns(
    fields: Seq<Seq<char>>,
    pre: Seq<char>,
    post: Seq<char>,
    x: Set<nat>,
)
    requires
        forall|i: int| 0 <= i < fields.len() ==> numbering::name_ok(#[trigger] fields[i]),
        numbering::inert(pre),
        numbering::solid(post),
        numbering::numbers(post) == x,
    ensures
        numbering::all_solid(search::column_list(fields, pre, post)),
        numbering::numbers_all(search::column_list(fields, pre, post)) == (if fields.len() == 0 {
            Set::<nat>::empty()
        } else {
            x
        }),
{
    broadcast use group_numbering;

    let parts = search::column_list(fields, pre, post);
    assert forall|i: int| 0 <= i < parts.len() implies numbering::solid(#[trigger] parts[i])
        && numbering::numbers(parts[i]) == x by {
        lemma_column(fields[i]);
    }
    if fields.len() > 0 {
        lemma_all_alike(parts, x);
    }
}

proof fn lemma_remaining(w: WindowV)
    requires
        w.index matches Some(ix) ==> numbering::index_names_ok(ix) && w.eq_len <= ix.fields.len(),
    ensures
        forall|i: int|
            0 <= i < terminals::remaining_fields(w).len() ==> numbering::name_ok(
                #[trigger] terminals::remaining_fields(w)[i],
            ),
{
    let rest = terminals::remaining_fields(w);
    if let Some(ix) = w.index {
        assert forall|i: int| 0 <= i < rest.len() implies numbering::name_ok(#[trigger] rest[i]) by {
            assert(rest[i] == ix.fields[i + w.eq_len]);
        }
    }
}

/// The sort columns of a window are without placeholders, and so is the sort part
/// of its statement.
proof fn lemma_order(w: WindowV, descending: bool)
    requires
        w.index matches Some(ix) ==> numbering::index_names_ok(ix) && w.eq_len <= ix.fields.len(),
    ensures
        forall|i: int|
            0 <= i < terminals::sort_columns(w).len() ==> numbering::inert(
                #[trigger] terminals::sort_columns(w)[i],
            ),
        numbering::inert(terminals::order_part(terminals::sort_columns(w), descending)),
{
    broadcast use group_numbering;

    reveal_strlit("");
    reveal_strlit("\"created_at\"");
    reveal_strlit("\"id\"");
    reveal_strlit(" ORDER BY ");
    reveal_strlit(", ");
    reveal_strlit(" ");
    reveal_strlit("DESC");
    reveal_strlit("ASC");
    lemma_inert(""@);
    lemma_inert("\"created_at\""@);
    lemma_inert("\"id\""@);
    lemma_inert(" ORDER BY "@);
    lemma_inert(", "@);
    lemma_inert(" "@);
    lemma_inert("DESC"@);
    lemma_inert("ASC"@);
    lemma_remaining(w);
    let rest = terminals::remaining_fields(w);
    let columns = terminals::sort_columns(w);
    assert forall|i: int| 0 <= i < columns.len() implies numbering::inert(#[trigger] columns[i]) by {
        if i < rest.len() {
            lemma_column(rest[i]);
        }
    }
    let dir = terminals::direction(descending);
    let parts = Seq::new(columns.len(), |i: int| columns[i] + " "@ + dir);
    assert forall|i: int| 0 <= i < parts.len() implies numbering::inert(#[trigger] parts[i]) by {
        assert(numbering::inert(columns[i]));
    }
    lemma_all_inert(parts);
    lemma_joined(parts, ", "@);
}

proof fn lemma_term(kind: SortColV, v: JsonV, pos: nat)
    ensures
        keyset::cursor_term(kind, v, pos) matches Ok(p) ==> numbering::solid(p.0)
            && numbering::numbers(p.0) == set![pos],
{
    broadcast use group_numbering;

    reveal_strlit("::bigint");
    lemma_inert("::bigint"@);
    lemma_placeholder(pos);
}

proof fn lemma_branch(values: Seq<JsonV>, keys: Seq<SortKeyV>, i: int, n: nat, pos: nat)
    requires
        n <= keys.len(),
        forall|k: int| 0 <= k < keys.len() ==> numbering::inert((#[trigger] keys[k]).column),
    ensures
        keyset::branch_terms(values, keys, i, n, pos) matches Ok(p) ==> numbering::all_solid(p.0)
            && numbering::numbers_all(p.0) == numbering::span(pos, pos + p.1.len()),
    decreases n,
{
    broadcast use group_numbering;

    lemma_spans(pos, pos, pos);
    if n > 0 {
        let j = n - 1;
        lemma_branch(values, keys, i, j as nat, pos);
        reveal_strlit("=");
        reveal_strlit("<");
        reveal_strlit(">");
        reveal_strlit(" ");
        lemma_inert("="@);
        lemma_inert("<"@);
        lemma_inert(">"@);
        lemma_inert(" "@);
        if let Ok((conjuncts, binds)) = keyset::branch_terms(values, keys, i, j as nat, pos) {
            lemma_term(keys[j].kind, values[j], pos + binds.len());
            if let Ok((ph, _)) = keyset::cursor_term(keys[j].kind, values[j], pos + binds.len()) {
                let op = keyset::op_text(keyset::term_op(i, j), keys[j].descending);
                assert(numbering::inert(keys[j].column));
                lemma_push(conjuncts, keys[j].column + " "@ + op + " "@ + ph);
                lemma_spans(pos, pos + binds.len(), pos + binds.len() + 1);
                lemma_spans(pos + binds.len(), pos + binds.len(), pos + binds.len());
            }
        }
    }
}

proof fn lemma_branches(values: Seq<JsonV>, keys: Seq<SortKeyV>, n: nat, pos: nat)
    requires
        n <= keys.len(),
        forall|k: int| 0 <= k < keys.len() ==> numbering::inert((#[trigger] keys[k]).column),
    ensures
        keyset::branches(values, keys, n, pos) matches Ok(p) ==> numbering::all_solid(p.0)
            && numbering::numbers_all(p.0) == numbering::span(pos, pos + p.1.len()),
    decreases n,
{
    lemma_spans(pos, pos, pos);
    if n > 0 {
        lemma_branches(values, keys, (n - 1) as nat, pos);
        if let Ok((parts, binds)) = keyset::branches(values, keys, (n - 1) as nat, pos) {
            lemma_branch(values, keys, n - 1, n, pos + binds.len());
            if let Ok((conjuncts, more)) = keyset::branch_terms(
                values,
                keys,
                n - 1,
                n,
                pos + binds.len(),
            ) {
                reveal_strlit(" AND ");
                lemma_inert(" AND "@);
                lemma_joined(conjuncts, " AND "@);
                lemma_push(parts, text::joined(conjuncts, " AND "@));
                lemma_spans(pos, pos + binds.len(), pos + binds.len() + more.len());
            }
        }
    }
}

/// A resume predicate holds the placeholders of its binds, none left out and none
/// besides.
pub proof fn law_resume_numbers_its_binds(values: Seq<JsonV>, keys: Seq<SortKeyV>, pos: nat)
    requires
        forall|k: int| 0 <= k < keys.len() ==> numbering::inert((#[trigger] keys[k]).column),
    ensures
        keyset::resume_sql(values, keys, pos) matches Ok(p) ==> numbering::solid(p.0)
            && numbering::numbers(p.0) == numbering::span(pos, pos + p.1.len()),
{
    broadcast use group_numbering;

    reveal_strlit("(");
    reveal_strlit(")");
    reveal_strlit(" OR ");
    lemma_inert("("@);
    lemma_inert(")"@);
    lemma_inert(" OR "@);
    lemma_branches(values, keys, keys.len(), pos);
    if let Ok((parts, _)) = keyset::branches(values, keys, keys.len(), pos) {
        lemma_joined(parts, " OR "@);
    }
}

/// The statement holds the placeholders of its binds, none left out and none
/// besides.
pub open spec fn matched(c: CompiledV) -> bool {
    numbering::numbers(c.sql) == numbering::span(1, c.binds.len() + 1)
}

/// What the window of a compiled query is known to be.
spec fn numbered(w: WindowV) -> bool {
    &&& numbering::all_solid(w.conditions)
    &&& numbering::numbers_all(w.conditions) == numbering::span(1, w.binds.len() + 1)
    &&& w.next == w.binds.len() + 1
    &&& (w.index matches Some(ix) ==> numbering::index_names_ok(ix) && w.eq_len <= ix.fields.len())
}

proof fn lemma_documents(
    w: WindowV,
    conditions: Seq<Seq<char>>,
    descending: bool,
    limit: nat,
    db: Seq<char>,
    table: Seq<char>,
)
    requires
        numbered(w),
        numbering::all_solid(conditions),
        schema::db_name_ok(db),
        numbering::name_ok(table),
    ensures
        numbering::numbers(terminals::documents_sql(w, conditions, descending, limit, db, table))
            == numbering::numbers_all(conditions).union(set![limit]),
{
    broadcast use group_numbering;

    reveal_strlit("SELECT \"id\", \"doc\", \"created_at\", \"version\" FROM ");
    lemma_inert("SELECT \"id\", \"doc\", \"created_at\", \"version\" FROM "@);
    lemma_table(db, table);
    lemma_where(conditions);
    lemma_order(w, descending);
    lemma_limit(limit);
}

proof fn lemma_collect(
    w: WindowV,
    unique: bool,
    first: bool,
    take: Option<u32>,
    descending: bool,
    db: Seq<char>,
    table: Seq<char>,
)
    requires
        numbered(w),
        schema::db_name_ok(db),
        numbering::name_ok(table),
    ensures
        matched(terminals::collect_sql(w, unique, first, take, descending, db, table)),
{
    lemma_documents(w, w.conditions, descending, w.next, db, table);
    lemma_spans(1, w.next, w.next + 1);
    lemma_spans(w.next, w.next, w.next);
}

proof fn lemma_keys(t: TableV, w: WindowV, descending: bool)
    requires
        numbered(w),
    ensures
        terminals::window_keys(t, w, descending) matches Ok(keys) ==> forall|k: int|
            0 <= k < keys.len() ==> numbering::inert((#[trigger] keys[k]).column),
{
    lemma_order(w, descending);
    terminals::law_page_resumes_as_it_sorts(t, w, descending);
}

proof fn lemma_paginate(
    w: WindowV,
    t: TableV,
    p: PaginateV,
    descending: bool,
    db: Seq<char>,
    table: Seq<char>,
)
    requires
        numbered(w),
        schema::db_name_ok(db),
        numbering::name_ok(table),
    ensures
        terminals::paginate_sql(w, t, p, descending, db, table) matches Ok(c) ==> matched(c),
{
    if let Ok(keys) = terminals::window_keys(t, w, descending) {
        lemma_keys(t, w, descending);
        let start = w.binds.len() + 1;
        lemma_spans(start, start, start);
        lemma_spans(1, start, start + 1);
        if let Some(cursor) = p.cursor {
            if let Ok(values) = pagination::cursor_values(cursor) {
                law_resume_numbers_its_binds(values, keys, start);
                if let Ok((sql, binds)) = keyset::resume_sql(values, keys, start) {
                    let limit = start + binds.len();
                    lemma_push(w.conditions, sql);
                    lemma_spans(1, start, limit);
                    lemma_spans(1, limit, limit + 1);
                    lemma_spans(limit, limit, limit);
                    lemma_documents(w, w.conditions.push(sql), descending, limit, db, table);
                }
            }
        } else {
            lemma_documents(w, w.conditions, descending, start, db, table);
        }
    }
}

proof fn lemma_count(w: WindowV, db: Seq<char>, table: Seq<char>)
    requires
        numbered(w),
        schema::db_name_ok(db),
        numbering::name_ok(table),
    ensures
        matched(terminals::count_sql(w, db, table)),
{
    broadcast use group_numbering;

    reveal_strlit("SELECT COUNT(*) FROM ");
    lemma_inert("SELECT COUNT(*) FROM "@);
    lemma_table(db, table);
    lemma_where(w.conditions);
    let c = terminals::count_sql(w, db, table);
    assert(numbering::numbers(c.sql) == numbering::numbers_all(w.conditions));
}

proof fn lemma_distinct(w: WindowV, db: Seq<char>, table: Seq<char>)
    requires
        numbered(w),
        schema::db_name_ok(db),
        numbering::name_ok(table),
    ensures
        terminals::distinct_sql(w, db, table) matches Ok(c) ==> matched(c),
{
    broadcast use group_numbering;

    if let Some(ix) = w.index {
        if w.eq_len < ix.fields.len() {
            reveal_strlit("SELECT DISTINCT to_jsonb(");
            reveal_strlit(") AS v FROM ");
            reveal_strlit(" ORDER BY v");
            lemma_inert("SELECT DISTINCT to_jsonb("@);
            lemma_inert(") AS v FROM "@);
            lemma_inert(" ORDER BY v"@);
            lemma_column(ix.fields[w.eq_len as int]);
            lemma_table(db, table);
            lemma_where(w.conditions);
            lemma_limit(w.next);
            lemma_spans(1, w.next, w.next + 1);
            lemma_spans(w.next, w.next, w.next);
            let c = terminals::distinct_sql(w, db, table)->Ok_0;
            assert(numbering::numbers(c.sql) == numbering::numbers_all(w.conditions).union(
                set![w.next],
            ));
        }
    }
}

proof fn lemma_aggregate_expr(op: AggregateOp, field: Option<Seq<char>>)
    requires
        numbering::opt_name_ok(field),
    ensures
        numbering::inert(terminals::aggregate_expr(op, field)),
{
    broadcast use group_numbering;

    reveal_strlit("COUNT");
    reveal_strlit("SUM");
    reveal_strlit("AVG");
    reveal_strlit("MIN");
    reveal_strlit("MAX");
    reveal_strlit("(");
    reveal_strlit(")");
    reveal_strlit("COUNT(*)");
    lemma_inert(dsl::aggregate_name(op));
    lemma_inert("("@);
    lemma_inert(")"@);
    lemma_inert("COUNT(*)"@);
    if let Some(f) = field {
        lemma_column(f);
    }
}

proof fn lemma_aggregate(
    w: WindowV,
    t: TableV,
    agg: AggregateSpec,
    db: Seq<char>,
    table: Seq<char>,
)
    requires
        numbered(w),
        schema::db_name_ok(db),
        numbering::name_ok(table),
    ensures
        terminals::aggregate_sql(w, t, agg, db, table) matches Ok(c) ==> matched(c),
{
    broadcast use group_numbering;

    if let Ok((group, field)) = terminals::aggregate_fields(w, t, agg) {
        reveal_strlit("COALESCE(to_jsonb(");
        reveal_strlit("), 'null'::jsonb) AS v FROM ");
        reveal_strlit("SELECT to_jsonb(");
        reveal_strlit(") AS k, ");
        reveal_strlit(" GROUP BY ");
        reveal_strlit(" ORDER BY k");
        reveal_strlit("SELECT ");
        lemma_inert("COALESCE(to_jsonb("@);
        lemma_inert("), 'null'::jsonb) AS v FROM "@);
        lemma_inert("SELECT to_jsonb("@);
        lemma_inert(") AS k, "@);
        lemma_inert(" GROUP BY "@);
        lemma_inert(" ORDER BY k"@);
        lemma_inert("SELECT "@);
        lemma_aggregate_expr(agg.op, field);
        lemma_table(db, table);
        lemma_where(w.conditions);
        lemma_limit(w.next);
        lemma_spans(1, w.next, w.next + 1);
        lemma_spans(w.next, w.next, w.next);
        let c = terminals::aggregate_sql(w, t, agg, db, table)->Ok_0;
        if let Some(g) = group {
            lemma_column(g);
            assert(numbering::numbers(c.sql) == numbering::numbers_all(w.conditions).union(
                set![w.next],
            ));
        } else {
            assert(numbering::numbers(c.sql) == numbering::numbers_all(w.conditions));
        }
    }
}

proof fn lemma_point(c: SearchCtxV, id: Seq<char>)
    requires
        schema::db_name_ok(c.db),
        numbering::name_ok(c.table_name),
    ensures
        matched(terminals::point_sql(c, id)),
{
    broadcast use group_numbering;

    reveal_strlit("SELECT \"id\", \"doc\", \"created_at\", \"version\" FROM ");
    reveal_strlit(" WHERE \"id\" = ");
    reveal_strlit(" WHERE \"id\" = $1");
    reveal_strlit("$");
    reveal_strlit(" AND \"deleted_at\" IS NULL");
    reveal_strlit("");
    lemma_inert("SELECT \"id\", \"doc\", \"created_at\", \"version\" FROM "@);
    lemma_inert(" WHERE \"id\" = "@);
    lemma_inert(" AND \"deleted_at\" IS NULL"@);
    lemma_inert(""@);
    lemma_table(c.db, c.table_name);
    lemma_placeholder(1);
    assert(text::dec(1) =~= seq!['1']);
    assert(" WHERE \"id\" = $1"@ =~= " WHERE \"id\" = "@ + filter::placeholder(1));
    lemma_spans(1, 1, 1);
    let p = terminals::point_sql(c, id);
    assert(numbering::numbers(p.sql) == set![1nat]);
}

proof fn lemma_usable_names(indexes: Seq<IndexV>, name: Option<Seq<char>>, vector: bool)
    requires
        forall|i: int| 0 <= i < indexes.len() ==> numbering::index_names_ok(#[trigger] indexes[i]),
    ensures
        search::first_usable(indexes, name, vector) matches Some(ix) ==> numbering::index_names_ok(
            ix,
        ),
    decreases indexes.len(),
{
    if indexes.len() > 0 {
        assert(numbering::index_names_ok(indexes[0]));
        let rest = indexes.drop_first();
        assert forall|i: int| 0 <= i < rest.len() implies numbering::index_names_ok(
            #[trigger] rest[i],
        ) by {
            assert(rest[i] == indexes[i + 1]);
        }
        lemma_usable_names(rest, name, vector);
    }
}

proof fn lemma_and_all(conditions: Seq<Seq<char>>)
    requires
        numbering::all_solid(conditions),
    ensures
        numbering::solid(search::and_all(conditions)),
        numbering::numbers(search::and_all(conditions)) == numbering::numbers_all(conditions),
    decreases conditions.len(),
{
    broadcast use group_numbering;

    reveal_strlit(" AND ");
    lemma_inert(" AND "@);
    lemma_inert(Seq::<char>::empty());
    if conditions.len() > 0 {
        let head = conditions.drop_last();
        assert(numbering::all_solid(head)) by {
            assert forall|i: int| 0 <= i < head.len() implies numbering::solid(
                #[trigger] head[i],
            ) by {
                assert(head[i] == conditions[i]);
            }
        }
        lemma_and_all(head);
        assert(numbering::solid(conditions[conditions.len() - 1]));
    }
}

/// The extra conditions of a search hold the placeholders of their binds.
proof fn lemma_extra(c: SearchCtxV, f: Option<FilterV>, start: nat)
    requires
        numbering::names_ok(c.table),
    ensures
        search::extra_conditions(c, f, start) matches Ok(p) ==> numbering::solid(p.0)
            && numbering::numbers(p.0) == numbering::span(start, start + p.1.len()),
{
    broadcast use group_numbering;

    reveal_strlit(" AND (");
    reveal_strlit(")");
    lemma_inert(" AND ("@);
    lemma_inert(")"@);
    lemma_inert(Seq::<char>::empty());
    lemma_spans(start, start, start);
    let hide = c.table.soft_delete && !c.include_deleted;
    let none = Seq::<Seq<char>>::empty();
    if let Ok((text_, all)) = search::extra_conditions(c, f, start) {
        let binds = match f {
            Some(g) => filter::client_filter_sql(g, c.table, start, None)->Ok_0.1,
            None => Seq::empty(),
        };
        if let Some(g) = f {
            law_filter_numbers_its_binds(g, c.table, start, 0, FilterUse::Read);
        }
        lemma_row_conditions(none, binds, c.table, c.ctx, c.ctx.user, start, hide);
        let conditions = filter::with_row_conditions(
            none,
            binds,
            c.table,
            c.ctx,
            c.ctx.user,
            start,
            hide,
        )->Ok_0.0;
        lemma_and_all(conditions);
        lemma_spans(start, start + binds.len(), start + all.len());
    }
}

proof fn lemma_tsquery(language: Option<Seq<char>>, ph: nat)
    requires
        numbering::opt_name_ok(language),
    ensures
        numbering::solid(search::tsquery(language, ph)),
        numbering::numbers(search::tsquery(language, ph)) == set![ph],
{
    broadcast use group_numbering;

    reveal_strlit("websearch_to_tsquery('");
    reveal_strlit("'::regconfig, ");
    reveal_strlit(")");
    reveal_strlit("websearch_to_tsquery(");
    lemma_inert("websearch_to_tsquery('"@);
    lemma_inert("'::regconfig, "@);
    lemma_inert(")"@);
    lemma_inert("websearch_to_tsquery("@);
    lemma_placeholder(ph);
    if let Some(lang) = language {
        lemma_name(lang);
    }
}

proof fn lemma_snippet(ix: IndexV)
    requires
        numbering::index_names_ok(ix),
    ensures
        numbering::solid(search::snippet_column(ix)),
        numbering::numbers(search::snippet_column(ix)) == set![1nat],
{
    broadcast use group_numbering;

    reveal_strlit("'");
    reveal_strlit("'::regconfig, ");
    reveal_strlit(", ts_headline(");
    reveal_strlit("concat_ws(' ', ");
    reveal_strlit("");
    reveal_strlit(", ");
    reveal_strlit("), ");
    reveal_strlit(", 'StartSel=<mark>, StopSel=</mark>, MaxWords=35, MinWords=15')");
    lemma_inert("'"@);
    lemma_inert("'::regconfig, "@);
    lemma_inert(", ts_headline("@);
    lemma_inert("concat_ws(' ', "@);
    lemma_inert(""@);
    lemma_inert(", "@);
    lemma_inert("), "@);
    lemma_inert(", 'StartSel=<mark>, StopSel=</mark>, MaxWords=35, MinWords=15')"@);
    lemma_inert(Seq::<char>::empty());
    lemma_columns(ix.fields, ""@, ""@, Set::<nat>::empty());
    lemma_joined(search::column_list(ix.fields, ""@, ""@), ", "@);
    lemma_tsquery(ix.language, 1);
    if let Some(lang) = ix.language {
        lemma_name(lang);
    }
}

proof fn lemma_index_columns(name: Seq<char>)
    requires
        numbering::name_ok(name),
    ensures
        numbering::inert(filter::quoted(schema::search_column(name))),
        numbering::inert(filter::quoted(schema::vector_column(name))),
{
    reveal_strlit("s_");
    reveal_strlit("v_");
    lemma_name(name);
    lemma_physical("s_"@, name);
    lemma_physical("v_"@, name);
}

proof fn lemma_match(ix: IndexV, mode: SearchMode)
    requires
        numbering::index_names_ok(ix),
        mode == SearchMode::Trgm ==> ix.fields.len() > 0,
    ensures
        numbering::solid(search::match_condition(ix, mode)),
        numbering::numbers(search::match_condition(ix, mode)) == set![
            if mode == SearchMode::Trgm {
                2nat
            } else {
                1nat
            },
        ],
        numbering::solid(search::text_rank(ix, mode)),
        numbering::numbers(search::text_rank(ix, mode)) == set![1nat],
{
    broadcast use group_numbering;

    lemma_index_columns(ix.name);
    lemma_tsquery(ix.language, 1);
    match mode {
        SearchMode::Tsquery => {
            reveal_strlit(" @@ ");
            reveal_strlit("ts_rank(");
            reveal_strlit(", ");
            reveal_strlit(")");
            lemma_inert(" @@ "@);
            lemma_inert("ts_rank("@);
            lemma_inert(", "@);
            lemma_inert(")"@);
        },
        SearchMode::Trgm => {
            reveal_strlit("$");
            reveal_strlit("(");
            reveal_strlit(")");
            reveal_strlit("");
            reveal_strlit(" OR ");
            reveal_strlit(", ");
            reveal_strlit(" ILIKE ");
            reveal_strlit(" ILIKE $2");
            reveal_strlit("similarity(");
            reveal_strlit(", $1)");
            reveal_strlit("GREATEST(");
            lemma_inert("("@);
            lemma_inert(")"@);
            lemma_inert(""@);
            lemma_inert(" OR "@);
            lemma_inert(", "@);
            lemma_inert(" ILIKE "@);
            lemma_inert("similarity("@);
            lemma_inert("GREATEST("@);
            lemma_placeholder(1);
            lemma_placeholder(2);
            assert(text::dec(1) =~= seq!['1']);
            assert(text::dec(2) =~= seq!['2']);
            assert(" ILIKE $2"@ =~= " ILIKE "@ + filter::placeholder(2));
            assert(numbering::numbers(" ILIKE "@ + filter::placeholder(2)) == set![2nat]);
            assert(", $1)"@ =~= ", "@ + filter::placeholder(1) + ")"@);
            assert(numbering::numbers(", "@ + filter::placeholder(1) + ")"@) == set![1nat]);
            lemma_columns(ix.fields, ""@, " ILIKE $2"@, set![2nat]);
            lemma_columns(ix.fields, "similarity("@, ", $1)"@, set![1nat]);
            lemma_joined(search::column_list(ix.fields, ""@, " ILIKE $2"@), " OR "@);
            lemma_joined(search::column_list(ix.fields, "similarity("@, ", $1)"@), ", "@);
        },
    }
}

proof fn lemma_search_statement(
    c: SearchCtxV,
    ix: IndexV,
    mode: SearchMode,
    snippet: bool,
    extra: Seq<char>,
    limit: nat,
)
    requires
        numbering::index_names_ok(ix),
        mode == SearchMode::Trgm ==> ix.fields.len() > 0,
        schema::db_name_ok(c.db),
        numbering::name_ok(c.table_name),
        numbering::solid(extra),
    ensures
        numbering::numbers(
            search::search_statement(
                c,
                ix,
                mode,
                snippet,
                false,
                extra,
                Seq::empty(),
                limit,
            ),
        ) == set![1nat].union(
            set![
                if mode == SearchMode::Trgm {
                    2nat
                } else {
                    1nat
                },
            ],
        ).union(numbering::numbers(extra)).union(set![limit]),
{
    broadcast use group_numbering;

    reveal_strlit("SELECT \"id\", \"doc\", \"created_at\", \"version\"");
    reveal_strlit(" FROM ");
    reveal_strlit(" WHERE ");
    reveal_strlit(" ORDER BY ");
    reveal_strlit(" DESC, \"created_at\" DESC, \"id\" DESC");
    lemma_inert("SELECT \"id\", \"doc\", \"created_at\", \"version\""@);
    lemma_inert(" FROM "@);
    lemma_inert(" WHERE "@);
    lemma_inert(" ORDER BY "@);
    lemma_inert(" DESC, \"created_at\" DESC, \"id\" DESC"@);
    lemma_inert(Seq::<char>::empty());
    lemma_table(c.db, c.table_name);
    lemma_match(ix, mode);
    lemma_snippet(ix);
    lemma_limit(limit);
    let x = numbering::numbers(
        search::search_statement(c, ix, mode, snippet, false, extra, Seq::empty(), limit),
    );
    let m = numbering::numbers(search::match_condition(ix, mode));
    let e = numbering::numbers(extra);
    assert(x =~= set![1nat].union(m).union(e).union(set![limit]));
}

proof fn lemma_search(c: SearchCtxV, s: SearchV, take: Option<u32>)
    requires
        numbering::names_ok(c.table),
        schema::db_name_ok(c.db),
        numbering::name_ok(c.table_name),
        !searches_nothing(c.table, s),
    ensures
        search::search_sql(c, s, take, None) matches Ok(r) ==> matched(r),
{
    if let Ok(r) = search::search_sql(c, s, take, None) {
        let ix = search::first_usable(c.table.indexes, Some(s.index), false)->0;
        let mode = search::mode_of(s);
        let start = search::text_binds(s).len() + 1;
        lemma_usable_names(c.table.indexes, Some(s.index), false);
        lemma_extra(c, s.filter, start);
        let (extra, binds) = search::extra_conditions(c, s.filter, start)->Ok_0;
        let limit = start + binds.len();
        lemma_search_statement(c, ix, mode, s.snippet == Some(true), extra, limit);
        assert(numbering::numbers(r.sql) =~= numbering::span(1, limit + 1));
    }
}

/// A substring search on an index without fields, which compares nothing with the
/// text.
pub open spec fn searches_nothing(t: TableV, s: SearchV) -> bool {
    search::mode_of(s) == SearchMode::Trgm && (search::first_usable(
        t.indexes,
        Some(s.index),
        false,
    ) matches Some(ix) && ix.fields.len() == 0)
}

proof fn lemma_distance(name: Seq<char>, metric: VectorMetric, ph: nat)
    requires
        numbering::name_ok(name),
    ensures
        numbering::solid(
            search::distance(schema::vector_column(name), schema::distance_operator(metric), ph),
        ),
        numbering::numbers(
            search::distance(schema::vector_column(name), schema::distance_operator(metric), ph),
        ) == set![ph],
{
    broadcast use group_numbering;

    reveal_strlit("<=>");
    reveal_strlit("<->");
    reveal_strlit("<#>");
    reveal_strlit(" ");
    reveal_strlit("::vector");
    lemma_inert(schema::distance_operator(metric));
    lemma_inert(" "@);
    lemma_inert("::vector"@);
    lemma_index_columns(name);
    lemma_placeholder(ph);
}

proof fn lemma_vector_statement(c: SearchCtxV, ix: IndexV, extra: Seq<char>, ph: nat)
    requires
        numbering::index_names_ok(ix),
        schema::db_name_ok(c.db),
        numbering::name_ok(c.table_name),
        numbering::solid(extra),
    ensures
        numbering::numbers(
            search::vector_statement(
                c,
                schema::vector_column(ix.name),
                schema::distance_operator(ix.vector->0.metric),
                extra,
                ph,
            ),
        ) == numbering::numbers(extra).union(set![ph]).union(set![ph + 1]),
{
    broadcast use group_numbering;

    reveal_strlit("SELECT \"id\", \"doc\", \"created_at\", \"version\" FROM ");
    reveal_strlit(" WHERE ");
    reveal_strlit(" IS NOT NULL");
    reveal_strlit(" ORDER BY ");
    lemma_inert("SELECT \"id\", \"doc\", \"created_at\", \"version\" FROM "@);
    lemma_inert(" WHERE "@);
    lemma_inert(" IS NOT NULL"@);
    lemma_inert(" ORDER BY "@);
    lemma_table(c.db, c.table_name);
    lemma_index_columns(ix.name);
    lemma_distance(ix.name, ix.vector->0.metric, ph);
    lemma_limit(ph + 1);
}

proof fn lemma_vector(c: SearchCtxV, s: VectorSearchV)
    requires
        numbering::names_ok(c.table),
        schema::db_name_ok(c.db),
        numbering::name_ok(c.table_name),
    ensures
        search::vector_search_sql(c, s, None) matches Ok(r) ==> matched(r),
{
    if let Ok(r) = search::vector_search_sql(c, s, None) {
        let ix = search::first_usable(c.table.indexes, Some(s.index), true)->0;
        lemma_usable_names(c.table.indexes, Some(s.index), true);
        lemma_extra(c, s.filter, 1);
        let (extra, binds) = search::extra_conditions(c, s.filter, 1)->Ok_0;
        let ph = 1 + binds.len();
        lemma_vector_statement(c, ix, extra, ph);
        assert(numbering::numbers(r.sql) =~= numbering::span(1, ph + 2));
    }
}

/// The long words of a hybrid search are without placeholders.
proof fn lemma_hybrid_words()
    ensures
        numbering::inert(
            "WITH matched AS ( SELECT \"id\", \"doc\", \"created_at\", \"version\", ts_rank("@,
        ),
        numbering::inert(
            " ), ranked AS ( SELECT \"id\", \"doc\", \"created_at\", \"version\", ROW_NUMBER() OVER (ORDER BY trank DESC, \"created_at\" DESC, \"id\" DESC) AS r_text, ROW_NUMBER() OVER (ORDER BY dist ASC NULLS LAST, \"created_at\" DESC, \"id\" DESC) AS r_vec FROM matched )"@,
        ),
        numbering::inert(
            " SELECT \"id\", \"doc\", \"created_at\", \"version\" FROM ranked ORDER BY "@,
        ),
{
    reveal_strlit(
        "WITH matched AS ( SELECT \"id\", \"doc\", \"created_at\", \"version\", ts_rank(",
    );
    reveal_strlit(
        " ), ranked AS ( SELECT \"id\", \"doc\", \"created_at\", \"version\", ROW_NUMBER() OVER (ORDER BY trank DESC, \"created_at\" DESC, \"id\" DESC) AS r_text, ROW_NUMBER() OVER (ORDER BY dist ASC NULLS LAST, \"created_at\" DESC, \"id\" DESC) AS r_vec FROM matched )",
    );
    reveal_strlit(" SELECT \"id\", \"doc\", \"created_at\", \"version\" FROM ranked ORDER BY ");
    lemma_inert("WITH matched AS ( SELECT \"id\", \"doc\", \"created_at\", \"version\", ts_rank("@);
    lemma_inert(
        " ), ranked AS ( SELECT \"id\", \"doc\", \"created_at\", \"version\", ROW_NUMBER() OVER (ORDER BY trank DESC, \"created_at\" DESC, \"id\" DESC) AS r_text, ROW_NUMBER() OVER (ORDER BY dist ASC NULLS LAST, \"created_at\" DESC, \"id\" DESC) AS r_vec FROM matched )"@,
    );
    lemma_inert(" SELECT \"id\", \"doc\", \"created_at\", \"version\" FROM ranked ORDER BY "@);
}

proof fn lemma_rankings(
    c: SearchCtxV,
    six: IndexV,
    vix: IndexV,
    extra: Seq<char>,
    ph: nat,
)
    requires
        numbering::index_names_ok(six),
        numbering::index_names_ok(vix),
        schema::db_name_ok(c.db),
        numbering::name_ok(c.table_name),
        numbering::solid(extra),
    ensures
        numbering::numbers(search::hybrid_rankings(c, six, vix, extra, ph)) == set![1nat, ph].union(
            numbering::numbers(extra),
        ),
{
    broadcast use group_numbering;

    reveal_strlit(", ");
    reveal_strlit(") AS trank, (");
    reveal_strlit(") AS dist FROM ");
    reveal_strlit(" WHERE (");
    reveal_strlit(" @@ ");
    reveal_strlit(" OR ");
    reveal_strlit(" IS NOT NULL)");
    lemma_inert(", "@);
    lemma_inert(") AS trank, ("@);
    lemma_inert(") AS dist FROM "@);
    lemma_inert(" WHERE ("@);
    lemma_inert(" @@ "@);
    lemma_inert(" OR "@);
    lemma_inert(" IS NOT NULL)"@);
    lemma_hybrid_words();
    lemma_table(c.db, c.table_name);
    lemma_index_columns(six.name);
    lemma_index_columns(vix.name);
    lemma_tsquery(six.language, 1);
    lemma_distance(vix.name, vix.vector->0.metric, ph);
    let x = numbering::numbers(search::hybrid_rankings(c, six, vix, extra, ph));
    assert(x =~= set![1nat, ph].union(numbering::numbers(extra)));
}

proof fn lemma_fused(k_ph: nat)
    ensures
        numbering::solid(search::fused_score(k_ph)),
        numbering::numbers(search::fused_score(k_ph)) == set![k_ph],
{
    broadcast use group_numbering;

    reveal_strlit("(1.0/(");
    reveal_strlit(" + r_text) + 1.0/(");
    reveal_strlit(" + r_vec))");
    lemma_inert("(1.0/("@);
    lemma_inert(" + r_text) + 1.0/("@);
    lemma_inert(" + r_vec))"@);
    lemma_placeholder(k_ph);
    assert(set![k_ph].union(set![k_ph]) =~= set![k_ph]);
}

proof fn lemma_hybrid_statement(rankings: Seq<char>, k_ph: nat)
    ensures
        numbering::numbers(search::hybrid_statement(rankings, k_ph)) == numbering::numbers(
            rankings,
        ).union(set![k_ph]).union(set![k_ph + 1]),
{
    broadcast use group_numbering;

    lemma_hybrid_words();
    reveal_strlit(" DESC, \"created_at\" DESC, \"id\" DESC");
    lemma_inert(" DESC, \"created_at\" DESC, \"id\" DESC"@);
    lemma_fused(k_ph);
    lemma_limit(k_ph + 1);
}

proof fn lemma_hybrid(c: SearchCtxV, s: HybridSearchV)
    requires
        numbering::names_ok(c.table),
        schema::db_name_ok(c.db),
        numbering::name_ok(c.table_name),
    ensures
        search::hybrid_search_sql(c, s, None) matches Ok(r) ==> matched(r),
{
    if let Ok(r) = search::hybrid_search_sql(c, s, None) {
        let six = search::first_usable(c.table.indexes, s.search_index, false)->0;
        let vix = search::first_usable(c.table.indexes, s.vector_index, true)->0;
        lemma_usable_names(c.table.indexes, s.search_index, false);
        lemma_usable_names(c.table.indexes, s.vector_index, true);
        lemma_extra(c, None, 2);
        let (extra, binds) = search::extra_conditions(c, None, 2)->Ok_0;
        let ph = 2 + binds.len();
        lemma_rankings(c, six, vix, extra, ph);
        lemma_hybrid_statement(search::hybrid_rankings(c, six, vix, extra, ph), ph + 1);
        assert(numbering::numbers(r.sql) =~= numbering::span(1, ph + 3));
    }
}

/// A compiled query holds exactly the placeholders of its binds: every bind is
/// used, and no placeholder lacks a bind, whatever the terminal, the filter, the
/// per-row predicates and the cursor. The names of the schema are identifiers,
/// and a substring search has a field to search in.
pub proof fn law_placeholders_are_the_binds(
    db: Seq<char>,
    schema: Map<Seq<char>, TableV>,
    q: QueryV,
    ctx: CtxV,
    include_deleted: bool,
)
    requires
        schema.contains_key(q.table) ==> numbering::name_ok(q.table) && numbering::names_ok(
            schema[q.table],
        ),
        q.search matches Some(s) ==> !searches_nothing(schema[q.table], s),
    ensures
        terminals::query_sql(db, schema, q, ctx, include_deleted) matches Ok(c)
            ==> numbering::numbers(c.sql) == numbering::span(1, c.binds.len() + 1),
{
    if terminals::request_fault(db, schema, q, ctx) is None {
        let t = schema[q.table];
        let c = SearchCtxV { db, table_name: q.table, table: t, ctx, include_deleted };
        match (q.get, q.vector_search, q.hybrid_search, q.search) {
            (Some(id), _, _, _) => lemma_point(c, id),
            (None, Some(vs), _, _) => lemma_vector(c, vs),
            (None, None, Some(hs), _) => lemma_hybrid(c, hs),
            (None, None, None, Some(s)) => lemma_search(c, s, q.take),
            (None, None, None, None) => {
                law_window_numbers_its_binds(t, q, ctx, include_deleted);
                if let Ok(w) = window::window(t, q, ctx, include_deleted) {
                    let descending = q.order == Some(Order::Desc);
                    lemma_count(w, db, q.table);
                    lemma_distinct(w, db, q.table);
                    if let Some(agg) = q.aggregate {
                        lemma_aggregate(w, t, agg, db, q.table);
                    }
                    if let Some(p) = q.paginate {
                        lemma_paginate(w, t, p, descending, db, q.table);
                    }
                    lemma_collect(w, q.unique, q.first, q.take, descending, db, q.table);
                }
            },
        }
    }
}

} // verus!
