//! Laws of filter compilation and row authorization.
#[allow(unused_imports)]
use vstd::prelude::*;
#[allow(unused_imports)]
use vstd::string::*;

use crate::dsl::{BindV, CtxV, FilterV, Rel};
use crate::json;
use crate::json::JsonV;
use crate::query::filter;
use crate::query::filter::FilterUse;
use crate::query::row_auth;
use crate::schema::TableV;
use crate::text;

verus! {

/// Where a compilation starts numbering and how many placeholders are taken
/// matters only through their sum.
pub proof fn law_numbering_depends_on_position_only(
    f: FilterV,
    t: TableV,
    start: nat,
    used: nat,
    usage: FilterUse,
)
    ensures
        filter::node_sql(f, t, start, used, usage) == filter::node_sql(f, t, start + used, 0, usage),
    decreases f,
{
    match f {
        FilterV::And(fs) => {
            lemma_list_numbering(fs, t, start, used, usage);
        },
        FilterV::Or(fs) => {
            lemma_list_numbering(fs, t, start, used, usage);
        },
        FilterV::Not(g) => {
            law_numbering_depends_on_position_only(*g, t, start, used, usage);
        },
        _ => {},
    }
}

proof fn lemma_list_numbering(
    fs: Seq<FilterV>,
    t: TableV,
    start: nat,
    used: nat,
    usage: FilterUse,
)
    ensures
        filter::nodes_sql(fs, t, start, used, usage) == filter::nodes_sql(
            fs,
            t,
            start + used,
            0,
            usage,
        ),
    decreases fs,
{
    if fs.len() > 0 {
        lemma_list_numbering(fs.drop_last(), t, start, used, usage);
        match filter::nodes_sql(fs.drop_last(), t, start, used, usage) {
            Ok((parts, binds)) => {
                law_numbering_depends_on_position_only(
                    fs.last(),
                    t,
                    start,
                    used + binds.len(),
                    usage,
                );
                law_numbering_depends_on_position_only(
                    fs.last(),
                    t,
                    start + used,
                    binds.len(),
                    usage,
                );
            },
            Err(_) => {},
        }
    }
}

/// The binds of a filter, and whether and how it fails, do not depend on where
/// its placeholders are numbered from.
pub proof fn law_binds_do_not_depend_on_position(
    f: FilterV,
    t: TableV,
    start: nat,
    used: nat,
    other: nat,
    taken: nat,
    usage: FilterUse,
)
    ensures
        match (filter::node_sql(f, t, start, used, usage), filter::node_sql(f, t, other, taken, usage)) {
            (Ok(a), Ok(b)) => a.1 == b.1,
            (Err(a), Err(b)) => a == b,
            _ => false,
        },
    decreases f,
{
    match f {
        FilterV::And(fs) => {
            lemma_list_binds(fs, t, start, used, other, taken, usage);
        },
        FilterV::Or(fs) => {
            lemma_list_binds(fs, t, start, used, other, taken, usage);
        },
        FilterV::Not(g) => {
            law_binds_do_not_depend_on_position(*g, t, start, used, other, taken, usage);
        },
        _ => {},
    }
}

proof fn lemma_list_binds(
    fs: Seq<FilterV>,
    t: TableV,
    start: nat,
    used: nat,
    other: nat,
    taken: nat,
    usage: FilterUse,
)
    ensures
        match (
            filter::nodes_sql(fs, t, start, used, usage),
            filter::nodes_sql(fs, t, other, taken, usage),
        ) {
            (Ok(a), Ok(b)) => a.1 == b.1,
            (Err(a), Err(b)) => a == b,
            _ => false,
        },
    decreases fs,
{
    if fs.len() > 0 {
        lemma_list_binds(fs.drop_last(), t, start, used, other, taken, usage);
        match filter::nodes_sql(fs.drop_last(), t, start, used, usage) {
            Ok((_, binds)) => {
                law_binds_do_not_depend_on_position(
                    fs.last(),
                    t,
                    start,
                    used + binds.len(),
                    other,
                    taken + binds.len(),
                    usage,
                );
            },
            Err(_) => {},
        }
    }
}

/// How often a character occurs in a text.
pub open spec fn occurrences(s: Seq<char>, c: char) -> nat
    decreases s.len(),
{
    if s.len() == 0 {
        0
    } else {
        occurrences(s.drop_last(), c) + if s.last() == c {
            1nat
        } else {
            0nat
        }
    }
}

/// A character does not occur in a text.
pub open spec fn free_of(s: Seq<char>, c: char) -> bool {
    forall|i: int| 0 <= i < s.len() ==> #[trigger] s[i] != c
}

proof fn lemma_occurrences_concat(a: Seq<char>, b: Seq<char>, c: char)
    ensures
        occurrences(a + b, c) == occurrences(a, c) + occurrences(b, c),
    decreases b.len(),
{
    if b.len() == 0 {
        assert(a + b =~= a);
    } else {
        assert((a + b).drop_last() =~= a + b.drop_last());
        assert((a + b).last() == b.last());
        lemma_occurrences_concat(a, b.drop_last(), c);
    }
}

proof fn lemma_free(s: Seq<char>, c: char)
    requires
        free_of(s, c),
    ensures
        occurrences(s, c) == 0,
    decreases s.len(),
{
    if s.len() > 0 {
        assert(s.last() == s[s.len() - 1]);
        assert(free_of(s.drop_last(), c)) by {
            assert forall|i: int| 0 <= i < s.drop_last().len() implies #[trigger] s.drop_last()[i]
                != c by {
                assert(s.drop_last()[i] == s[i]);
            }
        }
        lemma_free(s.drop_last(), c);
    }
}

proof fn lemma_digits_free(n: nat)
    ensures
        free_of(text::dec(n), '$'),
    decreases n,
{
    if n >= 10 {
        lemma_digits_free(n / 10);
    }
}

proof fn lemma_placeholder_once(n: nat)
    ensures
        occurrences(filter::placeholder(n), '$') == 1,
{
    reveal_strlit("$");
    lemma_occurrences_concat("$"@, text::dec(n), '$');
    lemma_digits_free(n);
    lemma_free(text::dec(n), '$');
    assert("$"@ =~= seq!['$']);
    assert(seq!['$'].drop_last() =~= Seq::<char>::empty());
    assert(occurrences(seq!['$'], '$') == 1) by {
        reveal_with_fuel(occurrences, 2);
    }
}

proof fn lemma_joined_occurrences(parts: Seq<Seq<char>>, sep: Seq<char>, counts: Seq<nat>)
    requires
        free_of(sep, '$'),
        counts.len() == parts.len(),
        forall|i: int| 0 <= i < parts.len() ==> occurrences(#[trigger] parts[i], '$') == counts[i],
    ensures
        occurrences(text::joined(parts, sep), '$') == total(counts),
    decreases parts.len(),
{
    if parts.len() == 1 {
        assert(counts.drop_last() =~= Seq::<nat>::empty());
        assert(total(counts.drop_last()) == 0);
        assert(occurrences(parts[0], '$') == counts[0]);
    } else if parts.len() > 1 {
        let init = parts.drop_last();
        assert forall|i: int| 0 <= i < init.len() implies occurrences(#[trigger] init[i], '$')
            == counts.drop_last()[i] by {
            assert(init[i] == parts[i]);
        }
        lemma_joined_occurrences(init, sep, counts.drop_last());
        lemma_occurrences_concat(text::joined(init, sep), sep, '$');
        lemma_occurrences_concat(text::joined(init, sep) + sep, parts.last(), '$');
        lemma_free(sep, '$');
        assert(occurrences(parts[parts.len() - 1], '$') == counts[parts.len() - 1]);
    }
}

/// The sum of a sequence of numbers.
pub open spec fn total(counts: Seq<nat>) -> nat
    decreases counts.len(),
{
    if counts.len() == 0 {
        0
    } else {
        total(counts.drop_last()) + counts.last()
    }
}

proof fn lemma_total_ones(n: nat)
    ensures
        total(Seq::new(n, |i: int| 1nat)) == n,
    decreases n,
{
    let s = Seq::new(n, |i: int| 1nat);
    if n > 0 {
        lemma_total_ones((n - 1) as nat);
        assert(s.drop_last() =~= Seq::new((n - 1) as nat, |i: int| 1nat));
    }
}

/// The names of the declared fields hold no dollar sign.
pub open spec fn plain_names(t: TableV) -> bool {
    forall|k: Seq<char>| #[trigger] t.fields.contains_key(k) ==> free_of(k, '$')
}

proof fn lemma_lowered_free(s: Seq<char>)
    requires
        free_of(s, '$'),
    ensures
        free_of(text::lowered(s), '$'),
{
    assert forall|i: int| 0 <= i < text::lowered(s).len() implies #[trigger] text::lowered(s)[i]
        != '$' by {
        assert(s[i] != '$');
    }
}

/// The left-hand side of a comparison holds no placeholder.
proof fn lemma_lhs_free(field: Seq<char>, v: JsonV, t: TableV)
    requires
        plain_names(t),
        filter::field_term(field, v, t) is Ok,
    ensures
        occurrences(filter::field_term(field, v, t)->Ok_0.0, '$') == 0,
{
    let lhs = filter::field_term(field, v, t)->Ok_0.0;
    reveal_strlit("\"");
    reveal_strlit("f_");
    reveal_strlit("(doc->>'");
    reveal_strlit("')");
    reveal_strlit("')::float8");
    reveal_strlit("')::boolean");
    lemma_lowered_free(field);
    assert(free_of(lhs, '$'));
    lemma_free(lhs, '$');
}

proof fn lemma_in_lhs(field: Seq<char>, vs: Seq<JsonV>, t: TableV)
    requires
        filter::in_terms(field, vs, t) is Ok,
    ensures
        vs.len() > 0,
        filter::field_term(field, vs[0], t) is Ok,
        filter::in_terms(field, vs, t)->Ok_0.0 == filter::field_term(field, vs[0], t)->Ok_0.0,
    decreases vs.len(),
{
    if vs.len() > 1 {
        lemma_in_lhs(field, vs.drop_last(), t);
        assert(vs.drop_last()[0] == vs[0]);
    }
}

/// A compiled filter holds exactly one placeholder for each of its binds: no
/// value is written into the statement text.
#[verifier::rlimit(40)]
pub proof fn law_one_placeholder_per_bind(
    f: FilterV,
    t: TableV,
    start: nat,
    used: nat,
    usage: FilterUse,
)
    requires
        plain_names(t),
    ensures
        filter::node_sql(f, t, start, used, usage) matches Ok(p) ==> occurrences(p.0, '$')
            == p.1.len(),
    decreases f, 0nat,
{
    let p = filter::placeholder(start + used);
    lemma_placeholder_once(start + used);
    match filter::node_sql(f, t, start, used, usage) {
        Err(_) => {},
        Ok((sql, binds)) => match f {
            FilterV::And(fs) => {
                lemma_list_placeholders(fs, t, start, used, usage, " AND "@);
                lemma_connected(fs, t, start, used, usage, " AND "@);
            },
            FilterV::Or(fs) => {
                lemma_list_placeholders(fs, t, start, used, usage, " OR "@);
                lemma_connected(fs, t, start, used, usage, " OR "@);
            },
            FilterV::Not(g) => {
                law_one_placeholder_per_bind(*g, t, start, used, usage);
                let inner = filter::node_sql(*g, t, start, used, usage)->Ok_0.0;
                reveal_strlit("NOT COALESCE((");
                reveal_strlit("), FALSE)");
                lemma_occurrences_concat("NOT COALESCE(("@, inner, '$');
                lemma_occurrences_concat("NOT COALESCE(("@ + inner, "), FALSE)"@, '$');
                lemma_free("NOT COALESCE(("@, '$');
                lemma_free("), FALSE)"@, '$');
            },
            FilterV::Compare(_, _, v) if filter::lacking(usage, v) => lemma_never_free(),
            FilterV::In(_, vs) if filter::all_lacking(usage, vs) => lemma_never_free(),
            FilterV::Contains(_, v) if filter::lacking(usage, v) => lemma_never_free(),
            FilterV::Compare(rel, field, v) => {
                lemma_lhs_free(field, v, t);
                let lhs = filter::field_term(field, v, t)->Ok_0.0;
                lemma_operator_free(rel);
                reveal_strlit(" ");
                lemma_free(" "@, '$');
                lemma_occurrences_concat(lhs, " "@, '$');
                lemma_occurrences_concat(lhs + " "@, filter::operator(rel), '$');
                lemma_occurrences_concat(lhs + " "@ + filter::operator(rel), " "@, '$');
                lemma_occurrences_concat(lhs + " "@ + filter::operator(rel) + " "@, p, '$');
            },
            FilterV::In(field, given) => {
                let vs = filter::at_hand(usage, given);
                lemma_in_lhs(field, vs, t);
                lemma_lhs_free(field, vs[0], t);
                let lhs = filter::in_terms(field, vs, t)->Ok_0.0;
                let texts = filter::placeholders(start + used, binds.len());
                let ones = Seq::new(binds.len(), |i: int| 1nat);
                assert forall|i: int| 0 <= i < texts.len() implies occurrences(
                    #[trigger] texts[i],
                    '$',
                ) == ones[i] by {
                    lemma_placeholder_once((start + used + i) as nat);
                }
                reveal_strlit(", ");
                reveal_strlit(" IN (");
                reveal_strlit(")");
                lemma_joined_occurrences(texts, ", "@, ones);
                lemma_total_ones(binds.len());
                let list = text::joined(texts, ", "@);
                lemma_free(" IN ("@, '$');
                lemma_free(")"@, '$');
                lemma_occurrences_concat(lhs, " IN ("@, '$');
                lemma_occurrences_concat(lhs + " IN ("@, list, '$');
                lemma_occurrences_concat(lhs + " IN ("@ + list, ")"@, '$');
            },
            FilterV::Contains(field, v) => {
                reveal_strlit("(doc->'");
                reveal_strlit("')");
                reveal_strlit(" ? ");
                let lhs = filter::document_field(field);
                assert(free_of(lhs, '$'));
                lemma_free(lhs, '$');
                lemma_free(" ? "@, '$');
                lemma_occurrences_concat(lhs, " ? "@, '$');
                lemma_occurrences_concat(lhs + " ? "@, p, '$');
            },
            FilterV::Exists(field) => {
                reveal_strlit("(doc ? '");
                reveal_strlit("' AND doc->>'");
                reveal_strlit("' IS NOT NULL)");
                assert(free_of(sql, '$'));
                lemma_free(sql, '$');
            },
            FilterV::OlderThan(field, ms) => {
                let lhs = filter::older_than_term(field, ms, t, usage->Scan_0)->Ok_0.0;
                reveal_strlit("\"");
                reveal_strlit("f_");
                reveal_strlit("(doc->>'");
                reveal_strlit("')::float8");
                reveal_strlit(" < ");
                lemma_lowered_free(field);
                assert(free_of(lhs, '$'));
                lemma_free(lhs, '$');
                lemma_free(" < "@, '$');
                lemma_occurrences_concat(lhs, " < "@, '$');
                lemma_occurrences_concat(lhs + " < "@, p, '$');
            },
        },
    }
}

proof fn lemma_never_free()
    ensures
        occurrences("FALSE"@, '$') == 0,
{
    reveal_strlit("FALSE");
    lemma_free("FALSE"@, '$');
}

proof fn lemma_operator_free(rel: Rel)
    ensures
        occurrences(filter::operator(rel), '$') == 0,
{
    reveal_strlit("=");
    reveal_strlit("<>");
    reveal_strlit(">");
    reveal_strlit(">=");
    reveal_strlit("<");
    reveal_strlit("<=");
    assert(free_of(filter::operator(rel), '$'));
    lemma_free(filter::operator(rel), '$');
}

proof fn lemma_connected(
    fs: Seq<FilterV>,
    t: TableV,
    start: nat,
    used: nat,
    usage: FilterUse,
    joiner: Seq<char>,
)
    requires
        filter::nodes_sql(fs, t, start, used, usage) matches Ok(p) && occurrences(
            text::joined(p.0, joiner),
            '$',
        ) == p.1.len(),
    ensures
        filter::nodes_sql(fs, t, start, used, usage) matches Ok(p) && occurrences(
            filter::connected(p.0, joiner),
            '$',
        ) == p.1.len(),
{
    let parts = filter::nodes_sql(fs, t, start, used, usage)->Ok_0.0;
    let list = text::joined(parts, joiner);
    reveal_strlit("(");
    reveal_strlit(")");
    lemma_free("("@, '$');
    lemma_free(")"@, '$');
    lemma_occurrences_concat("("@, list, '$');
    lemma_occurrences_concat("("@ + list, ")"@, '$');
}

/// How many binds each of several filters has.
spec fn bind_counts(fs: Seq<FilterV>, t: TableV, start: nat, used: nat, usage: FilterUse) -> Seq<
    nat,
>
    decreases fs.len(),
{
    if fs.len() == 0 {
        Seq::empty()
    } else {
        match filter::nodes_sql(fs.drop_last(), t, start, used, usage) {
            Ok((_, binds)) => match filter::node_sql(
                fs.last(),
                t,
                start,
                used + binds.len(),
                usage,
            ) {
                Ok((_, more)) => bind_counts(fs.drop_last(), t, start, used, usage).push(more.len()),
                Err(_) => Seq::empty(),
            },
            Err(_) => Seq::empty(),
        }
    }
}

proof fn lemma_list_counts(fs: Seq<FilterV>, t: TableV, start: nat, used: nat, usage: FilterUse)
    requires
        plain_names(t),
    ensures
        filter::nodes_sql(fs, t, start, used, usage) matches Ok(p) ==> {
            let counts = bind_counts(fs, t, start, used, usage);
            &&& counts.len() == p.0.len()
            &&& total(counts) == p.1.len()
            &&& forall|i: int|
                0 <= i < p.0.len() ==> occurrences(#[trigger] p.0[i], '$') == counts[i]
        },
    decreases fs, 0nat,
{
    if fs.len() > 0 {
        lemma_list_counts(fs.drop_last(), t, start, used, usage);
        match filter::nodes_sql(fs.drop_last(), t, start, used, usage) {
            Ok((parts, binds)) => {
                law_one_placeholder_per_bind(fs.last(), t, start, used + binds.len(), usage);
                let counts = bind_counts(fs, t, start, used, usage);
                let before = bind_counts(fs.drop_last(), t, start, used, usage);
                match filter::node_sql(fs.last(), t, start, used + binds.len(), usage) {
                    Ok((sql, more)) => {
                        assert(counts =~= before.push(more.len()));
                        assert(counts.drop_last() =~= before);
                    },
                    Err(_) => {},
                }
            },
            Err(_) => {},
        }
    }
}

proof fn lemma_list_placeholders(
    fs: Seq<FilterV>,
    t: TableV,
    start: nat,
    used: nat,
    usage: FilterUse,
    joiner: Seq<char>,
)
    requires
        plain_names(t),
        joiner == " AND "@ || joiner == " OR "@,
    ensures
        filter::nodes_sql(fs, t, start, used, usage) matches Ok(p) ==> occurrences(
            text::joined(p.0, joiner),
            '$',
        ) == p.1.len(),
    decreases fs, 1nat,
{
    reveal_strlit(" AND ");
    reveal_strlit(" OR ");
    lemma_list_counts(fs, t, start, used, usage);
    match filter::nodes_sql(fs, t, start, used, usage) {
        Ok((parts, binds)) => {
            lemma_joined_occurrences(parts, joiner, bind_counts(fs, t, start, used, usage));
        },
        Err(_) => {},
    }
}

/// Some value position of a filter holds a principal marker.
pub open spec fn filter_has_marker(f: FilterV) -> bool
    decreases f,
{
    match f {
        FilterV::And(fs) => filters_have_marker(fs),
        FilterV::Or(fs) => filters_have_marker(fs),
        FilterV::Not(g) => filter_has_marker(*g),
        FilterV::Compare(_, _, v) => filter::has_marker(seq![v]),
        FilterV::In(_, vs) => filter::has_marker(vs),
        FilterV::Contains(_, v) => filter::has_marker(seq![v]),
        _ => false,
    }
}

/// Some value position of some of the filters holds a principal marker.
pub open spec fn filters_have_marker(fs: Seq<FilterV>) -> bool
    decreases fs,
{
    fs.len() > 0 && (filters_have_marker(fs.drop_last()) || filter_has_marker(fs.last()))
}

/// Resolving a predicate for a caller leaves no principal marker in it.
pub proof fn law_resolution_leaves_no_marker(f: FilterV, ctx: CtxV)
    ensures
        !filter_has_marker(row_auth::resolved_filter(f, ctx)),
    decreases f,
{
    match f {
        FilterV::And(fs) => {
            let g = row_auth::resolved_filter(f, ctx);
            assert(g->And_0 =~= row_auth::resolved_filters(fs, ctx));
            lemma_list_resolution(fs, ctx);
        },
        FilterV::Or(fs) => {
            let g = row_auth::resolved_filter(f, ctx);
            assert(g->Or_0 =~= row_auth::resolved_filters(fs, ctx));
            lemma_list_resolution(fs, ctx);
        },
        FilterV::Not(g) => {
            law_resolution_leaves_no_marker(*g, ctx);
        },
        _ => {},
    }
}

proof fn lemma_list_resolution(fs: Seq<FilterV>, ctx: CtxV)
    ensures
        !filters_have_marker(row_auth::resolved_filters(fs, ctx)),
    decreases fs,
{
    let out = row_auth::resolved_filters(fs, ctx);
    if fs.len() > 0 {
        lemma_list_resolution(fs.drop_last(), ctx);
        assert(out.drop_last() =~= row_auth::resolved_filters(fs.drop_last(), ctx));
        law_resolution_leaves_no_marker(fs.last(), ctx);
        assert(out.last() == row_auth::resolved_filter(fs.last(), ctx));
    }
}

/// A document meets a predicate for a caller exactly if it meets the predicate
/// resolved for that caller: the compiled scan and the document test judge the
/// same predicate.
pub proof fn law_resolution_keeps_meaning(doc: JsonV, f: FilterV, ctx: CtxV)
    ensures
        row_auth::doc_matches(doc, row_auth::resolved_filter(f, ctx), ctx)
            == row_auth::doc_matches(doc, f, ctx),
    decreases f,
{
    match f {
        FilterV::And(fs) => {
            let g = row_auth::resolved_filter(f, ctx);
            assert(g->And_0 =~= row_auth::resolved_filters(fs, ctx));
            lemma_list_meaning(doc, fs, ctx);
        },
        FilterV::Or(fs) => {
            let g = row_auth::resolved_filter(f, ctx);
            assert(g->Or_0 =~= row_auth::resolved_filters(fs, ctx));
            lemma_list_meaning(doc, fs, ctx);
        },
        FilterV::Not(g) => {
            law_resolution_keeps_meaning(doc, *g, ctx);
        },
        FilterV::In(field, vs) => {
            assert(row_auth::resolved_values(row_auth::resolved_values(vs, ctx), ctx)
                =~= row_auth::resolved_values(vs, ctx));
        },
        _ => {},
    }
}

proof fn lemma_list_meaning(doc: JsonV, fs: Seq<FilterV>, ctx: CtxV)
    ensures
        row_auth::doc_matches_all(doc, row_auth::resolved_filters(fs, ctx), ctx)
            == row_auth::doc_matches_all(doc, fs, ctx),
        row_auth::doc_matches_any(doc, row_auth::resolved_filters(fs, ctx), ctx)
            == row_auth::doc_matches_any(doc, fs, ctx),
    decreases fs,
{
    let out = row_auth::resolved_filters(fs, ctx);
    if fs.len() > 0 {
        lemma_list_meaning(doc, fs.drop_last(), ctx);
        assert(out.drop_last() =~= row_auth::resolved_filters(fs.drop_last(), ctx));
        law_resolution_keeps_meaning(doc, fs.last(), ctx);
        assert(out.last() == row_auth::resolved_filter(fs.last(), ctx));
    }
}

/// A document that lacks a field meets no test on that field: neither a
/// comparison, inequality included, nor a membership or presence test.
pub proof fn law_missing_field_meets_nothing(
    doc: JsonV,
    field: Seq<char>,
    rel: Rel,
    v: JsonV,
    vs: Seq<JsonV>,
    ctx: CtxV,
)
    requires
        json::field_of(doc, field) is None,
    ensures
        !row_auth::doc_matches(doc, FilterV::Compare(rel, field, v), ctx),
        !row_auth::doc_matches(doc, FilterV::In(field, vs), ctx),
        !row_auth::doc_matches(doc, FilterV::Contains(field, v), ctx),
        !row_auth::doc_matches(doc, FilterV::Exists(field), ctx),
        row_auth::doc_matches(
            doc,
            FilterV::Not(Box::new(FilterV::Compare(rel, field, v))),
            ctx,
        ),
{
}

/// A test of the `authorize` predicate of a table against a property that the
/// user lacks is compiled to one that never holds, and no document meets it: a
/// missing identity is no error, and it never matches.
pub proof fn law_lacking_property_never_matches(
    t: TableV,
    ctx: CtxV,
    rel: Rel,
    field: Seq<char>,
    marker: JsonV,
    start: nat,
    used: nat,
    doc: JsonV,
)
    requires
        ctx.user is Some,
        ctx.email is None,
        filter::is_marker(marker, "$email"@),
        t.fields.contains_key(field),
    ensures
        ({
            let never = Ok::<Option<(Seq<char>, Seq<BindV>)>, crate::error::ErrorV>(
                Some(("FALSE"@, Seq::empty())),
            );
            forall|f: FilterV|
                f == FilterV::Compare(rel, field, marker) || f == FilterV::In(field, seq![marker])
                    || f == FilterV::Contains(field, marker) ==> (
                #[trigger] row_auth::authorize_sql(
                    (TableV { authorize: Some(f), ..t }),
                    ctx,
                    start,
                    used,
                )) == never && !row_auth::doc_matches(doc, f, ctx)
        }),
{
    reveal_strlit("$user");
    reveal_strlit("$email");
    assert("$user"@.len() != "$email"@.len());
    assert(row_auth::resolved_value(marker, ctx) == JsonV::Null);
    let one = row_auth::resolved_values(seq![marker], ctx);
    assert(one =~= seq![JsonV::Null]);
    assert(one.drop_last() =~= Seq::<JsonV>::empty());
    assert(filter::at_hand(FilterUse::Authorize, one.drop_last()).len() == 0);
    assert(filter::all_lacking(FilterUse::Authorize, one));
}

/// Where no value stands for a lacking property, all values are at hand.
proof fn lemma_all_at_hand(values: Seq<JsonV>)
    ensures
        filter::at_hand(FilterUse::Read, values) == values,
    decreases values.len(),
{
    if values.len() > 0 {
        lemma_all_at_hand(values.drop_last());
        assert(values.drop_last().push(values.last()) =~= values);
    }
}

proof fn lemma_null_is_no_member(field: Seq<char>, values: Seq<JsonV>, t: TableV)
    requires
        values.contains(JsonV::Null),
    ensures
        filter::in_terms(field, values, t) is Err,
    decreases values.len(),
{
    if values.last() != JsonV::Null {
        let i = values.index_of(JsonV::Null);
        assert(values.drop_last()[i] == JsonV::Null);
        lemma_null_is_no_member(field, values.drop_last(), t);
    }
}

proof fn lemma_null_is_refused(f: FilterV, ctx: CtxV, t: TableV, start: nat, used: nat)
    requires
        row_auth::writes_null(f),
    ensures
        filter::node_sql(row_auth::resolved_filter(f, ctx), t, start, used, FilterUse::Read) is Err,
    decreases f, 0nat,
{
    let g = row_auth::resolved_filter(f, ctx);
    match f {
        FilterV::And(fs) => {
            assert(g->And_0 =~= row_auth::resolved_filters(fs, ctx));
            lemma_null_in_list_is_refused(fs, ctx, t, start, used);
        },
        FilterV::Or(fs) => {
            assert(g->Or_0 =~= row_auth::resolved_filters(fs, ctx));
            lemma_null_in_list_is_refused(fs, ctx, t, start, used);
        },
        FilterV::Not(h) => lemma_null_is_refused(*h, ctx, t, start, used),
        FilterV::In(field, vs) => {
            let given = row_auth::resolved_values(vs, ctx);
            assert(given[vs.index_of(JsonV::Null)] == JsonV::Null);
            lemma_all_at_hand(given);
            lemma_null_is_no_member(field, given, t);
        },
        _ => {},
    }
}

proof fn lemma_null_in_list_is_refused(
    fs: Seq<FilterV>,
    ctx: CtxV,
    t: TableV,
    start: nat,
    used: nat,
)
    requires
        row_auth::some_writes_null(fs),
    ensures
        filter::nodes_sql(
            row_auth::resolved_filters(fs, ctx),
            t,
            start,
            used,
            FilterUse::Read,
        ) is Err,
    decreases fs, 1nat,
{
    let out = row_auth::resolved_filters(fs, ctx);
    assert(out.drop_last() =~= row_auth::resolved_filters(fs.drop_last(), ctx));
    assert(out.last() == row_auth::resolved_filter(fs.last(), ctx));
    if row_auth::some_writes_null(fs.drop_last()) {
        lemma_null_in_list_is_refused(fs.drop_last(), ctx, t, start, used);
    } else if let Ok((_, binds)) = filter::nodes_sql(
        out.drop_last(),
        t,
        start,
        used,
        FilterUse::Read,
    ) {
        lemma_null_is_refused(fs.last(), ctx, t, start, used + binds.len());
    }
}

/// An `authorize` predicate that tests against a written null is refused for
/// every user.
pub proof fn law_written_null_is_refused(
    t: TableV,
    f: FilterV,
    ctx: CtxV,
    start: nat,
    used: nat,
)
    requires
        t.authorize == Some(f),
        row_auth::writes_null(f),
        ctx.user is Some,
    ensures
        row_auth::authorize_sql(t, ctx, start, used) is Err,
{
    lemma_null_is_refused(f, ctx, t, start, used);
}

/// Values of different kinds are not ordered: no ordering test holds between
/// them.
pub proof fn law_kind_mismatch_is_not_ordered(stored: JsonV, given: JsonV)
    requires
        stored is Number != given is Number || stored is String != given is String,
    ensures
        !row_auth::rel_holds(Rel::Gt, stored, given),
        !row_auth::rel_holds(Rel::Gte, stored, given),
        !row_auth::rel_holds(Rel::Lt, stored, given),
        !row_auth::rel_holds(Rel::Lte, stored, given),
{
}

/// A caller that is no user has no per-row predicate added to its scans.
pub proof fn law_no_user_no_row_predicate(
    conditions: Seq<Seq<char>>,
    binds: Seq<BindV>,
    t: TableV,
    ctx: CtxV,
    start: nat,
)
    requires
        ctx.user is None,
    ensures
        filter::with_row_conditions(conditions, binds, t, ctx, ctx.user, start, false)
            == Ok::<(Seq<Seq<char>>, Seq<BindV>), crate::error::ErrorV>((conditions, binds)),
{
}

/// A user's scan of a table that names an owner or collaborators field carries
/// the owner predicate, with the user bound at the placeholder it names.
pub proof fn law_user_scan_carries_row_predicate(
    conditions: Seq<Seq<char>>,
    binds: Seq<BindV>,
    t: TableV,
    ctx: CtxV,
    uid: Seq<char>,
    start: nat,
    hide_deleted: bool,
)
    requires
        t.owner_field is Some || t.collaborators_field is Some,
    ensures
        filter::with_row_conditions(conditions, binds, t, ctx, Some(uid), start, hide_deleted)
            matches Ok(p) ==> {
            &&& p.0.len() > conditions.len()
            &&& p.0[conditions.len() as int] == row_auth::row_auth_sql(
                t.owner_field,
                t.collaborators_field,
                start + binds.len(),
            )
            &&& p.1.len() > binds.len()
            &&& p.1[binds.len() as int] == BindV::Text(uid)
        },
{
}

/// Deleted rows of a table that keeps them are excluded by the last condition
/// of a scan that hides them.
pub proof fn law_hidden_rows_are_excluded(
    conditions: Seq<Seq<char>>,
    binds: Seq<BindV>,
    t: TableV,
    ctx: CtxV,
    owner: Option<Seq<char>>,
    start: nat,
)
    ensures
        filter::with_row_conditions(conditions, binds, t, ctx, owner, start, true) matches Ok(p)
            ==> p.0.len() > 0 && p.0.last() == "\"deleted_at\" IS NULL"@,
{
}

/// The value that a scan gives a compiled filter, from the values that it gives
/// the tests in it. None stands for the unknown, which a test on a missing field
/// yields; a negation takes the unknown for false before it negates.
pub open spec fn scan_value(f: FilterV, tests: spec_fn(FilterV) -> Option<bool>) -> Option<bool>
    decreases f,
{
    match f {
        FilterV::And(fs) => scan_all(fs, tests),
        FilterV::Or(fs) => scan_any(fs, tests),
        FilterV::Not(g) => Some(scan_value(*g, tests) != Some(true)),
        _ => tests(f),
    }
}

/// The value of a conjunction: false beats the unknown.
pub open spec fn scan_all(fs: Seq<FilterV>, tests: spec_fn(FilterV) -> Option<bool>) -> Option<bool>
    decreases fs,
{
    if fs.len() == 0 {
        Some(true)
    } else {
        match (scan_all(fs.drop_last(), tests), scan_value(fs.last(), tests)) {
            (Some(true), b) => b,
            (Some(false), _) => Some(false),
            (None, Some(false)) => Some(false),
            (None, _) => None,
        }
    }
}

/// The value of a disjunction: true beats the unknown.
pub open spec fn scan_any(fs: Seq<FilterV>, tests: spec_fn(FilterV) -> Option<bool>) -> Option<bool>
    decreases fs,
{
    if fs.len() == 0 {
        Some(false)
    } else {
        match (scan_any(fs.drop_last(), tests), scan_value(fs.last(), tests)) {
            (Some(false), b) => b,
            (Some(true), _) => Some(true),
            (None, Some(true)) => Some(true),
            (None, _) => None,
        }
    }
}

/// A filter that combines no others.
pub open spec fn is_test(f: FilterV) -> bool {
    !(f is And) && !(f is Or) && !(f is Not)
}

/// A scan and the document test agree on a whole filter where they agree on the
/// tests in it, whatever a scan finds unknown.
pub proof fn law_scan_agrees_with_document_test(
    doc: JsonV,
    f: FilterV,
    ctx: CtxV,
    tests: spec_fn(FilterV) -> Option<bool>,
)
    requires
        forall|g: FilterV|
            is_test(g) ==> ((#[trigger] tests(g)) == Some(true) <==> row_auth::doc_matches(
                doc,
                g,
                ctx,
            )),
    ensures
        scan_value(f, tests) == Some(true) <==> row_auth::doc_matches(doc, f, ctx),
    decreases f,
{
    match f {
        FilterV::And(fs) => lemma_list_agreement(doc, fs, ctx, tests),
        FilterV::Or(fs) => lemma_list_agreement(doc, fs, ctx, tests),
        FilterV::Not(g) => law_scan_agrees_with_document_test(doc, *g, ctx, tests),
        _ => {
            assert(is_test(f));
        },
    }
}

proof fn lemma_list_agreement(
    doc: JsonV,
    fs: Seq<FilterV>,
    ctx: CtxV,
    tests: spec_fn(FilterV) -> Option<bool>,
)
    requires
        forall|g: FilterV|
            is_test(g) ==> ((#[trigger] tests(g)) == Some(true) <==> row_auth::doc_matches(
                doc,
                g,
                ctx,
            )),
    ensures
        scan_all(fs, tests) == Some(true) <==> row_auth::doc_matches_all(doc, fs, ctx),
        scan_any(fs, tests) == Some(true) <==> row_auth::doc_matches_any(doc, fs, ctx),
    decreases fs,
{
    if fs.len() > 0 {
        lemma_list_agreement(doc, fs.drop_last(), ctx, tests);
        law_scan_agrees_with_document_test(doc, fs.last(), ctx, tests);
    }
}

} // verus!
