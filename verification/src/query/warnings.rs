//! Warnings about the shape of a query's filters, and the check of a projection.
#[allow(unused_imports)]
use vstd::prelude::*;
#[allow(unused_imports)]
use vstd::string::*;

use crate::dsl;
use crate::dsl::{FilterExpr, FilterV, Query, QueryV};
use crate::error;
use crate::error::{ErrorV, RtDbError};
use crate::schema;
use crate::schema::{has_string, SchemaDef, TableDef, TableV};
use crate::text;
use crate::text::{before, cat3, same};

verus! {

/// A filter tests the field somewhere.
pub open spec fn mentions(f: FilterV, field: Seq<char>) -> bool
    decreases f,
{
    match f {
        FilterV::And(fs) => any_mentions(fs, field),
        FilterV::Or(fs) => any_mentions(fs, field),
        FilterV::Not(g) => mentions(*g, field),
        FilterV::Compare(_, name, _) => name == field,
        FilterV::In(name, _) => name == field,
        FilterV::Contains(name, _) => name == field,
        FilterV::Exists(name) => name == field,
        FilterV::OlderThan(name, _) => name == field,
    }
}

/// One of the filters tests the field somewhere.
pub open spec fn any_mentions(fs: Seq<FilterV>, field: Seq<char>) -> bool
    decreases fs,
{
    fs.len() > 0 && (any_mentions(fs.drop_last(), field) || mentions(fs.last(), field))
}

/// Some index covers the field, as a key or as a filter field of a vector index.
pub open spec fn covered(t: TableV, field: Seq<char>) -> bool {
    ||| schema::is_index_field(t, field)
    ||| exists|i: int|
        0 <= i < t.indexes.len() && ((#[trigger] t.indexes[i]).vector matches Some(v)
            && v.filter_fields.contains(field))
}

/// A test on the field reads whole documents: it is declared, and no index
/// covers it.
pub open spec fn scans(t: TableV, field: Seq<char>) -> bool {
    t.fields.contains_key(field) && !covered(t, field)
}

/// The warning about a field.
pub open spec fn scan_warning(field: Seq<char>) -> Seq<char> {
    "filter on field '"@ + field
        + "' has no index; compiles to a jsonb extraction (sequential scan)"@
}

/// The warning about one test on a field, where it reads whole documents.
pub open spec fn test_warning(t: TableV, field: Seq<char>) -> Seq<Seq<char>> {
    if scans(t, field) {
        seq![scan_warning(field)]
    } else {
        Seq::empty()
    }
}

/// The warnings about a filter: one for each test that reads whole documents, in
/// reading order.
pub open spec fn filter_warnings(t: TableV, f: FilterV) -> Seq<Seq<char>>
    decreases f,
{
    match f {
        FilterV::And(fs) => filters_warnings(t, fs),
        FilterV::Or(fs) => filters_warnings(t, fs),
        FilterV::Not(g) => filter_warnings(t, *g),
        FilterV::Compare(_, field, _) => test_warning(t, field),
        FilterV::In(field, _) => test_warning(t, field),
        FilterV::Contains(field, _) => test_warning(t, field),
        FilterV::Exists(field) => test_warning(t, field),
        FilterV::OlderThan(field, _) => test_warning(t, field),
    }
}

/// The warnings about several filters, in reading order.
pub open spec fn filters_warnings(t: TableV, fs: Seq<FilterV>) -> Seq<Seq<char>>
    decreases fs,
{
    if fs.len() == 0 {
        Seq::empty()
    } else {
        filters_warnings(t, fs.drop_last()) + filter_warnings(t, fs.last())
    }
}

/// The warnings about an optional filter.
pub open spec fn opt_warnings(t: TableV, f: Option<FilterV>) -> Seq<Seq<char>> {
    match f {
        Some(g) => filter_warnings(t, g),
        None => Seq::empty(),
    }
}

/// Whether some index covers the field.
fn field_is_indexed(t: &TableDef, field: &str) -> (r: bool)
    ensures
        r == covered(t@, field@),
{
    if t.is_indexed(field) {
        return true;
    }
    let mut i: usize = 0;
    while i < t.indexes.len()
        invariant
            i <= t.indexes@.len(),
            forall|k: int|
                0 <= k < i ==> !((#[trigger] t@.indexes[k]).vector matches Some(v)
                    && v.filter_fields.contains(field@)),
        decreases t.indexes@.len() - i,
    {
        assert(t@.indexes[i as int] == t.indexes@[i as int]@);
        if let Some(spec_) = &t.indexes[i].vector {
            if has_string(&spec_.filter_fields, field) {
                assert(t@.indexes[i as int].vector matches Some(v) && v.filter_fields.contains(
                    field@,
                ));
                return true;
            }
        }
        i = i + 1;
    }
    false
}

fn collect_field(t: &TableDef, field: &str, out: &mut Vec<String>)
    ensures
        text::strs(final(out)@) == text::strs(old(out)@) + test_warning(t@, field@),
{
    let ghost before = text::strs(out@);
    if t.fields.contains_key(field) && !field_is_indexed(t, field) {
        out.push(
            cat3(
                "filter on field '",
                field,
                "' has no index; compiles to a jsonb extraction (sequential scan)",
            ),
        );
    }
    assert(text::strs(out@) =~= before + test_warning(t@, field@));
}

fn collect_list(exprs: &Vec<FilterExpr>, t: &TableDef, out: &mut Vec<String>)
    ensures
        text::strs(final(out)@) == text::strs(old(out)@) + filters_warnings(
            t@,
            dsl::filter_views(exprs@),
        ),
    decreases exprs,
{
    let ghost fs = dsl::filter_views(exprs@);
    let ghost before = text::strs(out@);
    let mut i: usize = 0;
    assert(fs.take(0) =~= Seq::<FilterV>::empty());
    assert(before + filters_warnings(t@, fs.take(0)) =~= before);
    while i < exprs.len()
        invariant
            i <= exprs@.len(),
            fs == dsl::filter_views(exprs@),
            text::strs(out@) == before + filters_warnings(t@, fs.take(i as int)),
        decreases exprs@.len() - i,
    {
        assert(decreases_to!(*exprs => exprs[i as int]));
        let ghost next = fs.take(i as int + 1);
        assert(next.drop_last() =~= fs.take(i as int));
        assert(next.last() == exprs@[i as int]@);
        collect_unindexed_filter_fields(&exprs[i], t, out);
        assert(text::strs(out@) =~= before + filters_warnings(t@, next));
        i = i + 1;
    }
    assert(fs.take(exprs@.len() as int) =~= fs);
}

/// Adds a warning for each test of the filter on a declared field that no index
/// covers.
fn collect_unindexed_filter_fields(filter: &FilterExpr, t: &TableDef, out: &mut Vec<String>)
    ensures
        text::strs(final(out)@) == text::strs(old(out)@) + filter_warnings(t@, filter@),
    decreases filter,
{
    broadcast use dsl::lemma_filter_view;

    let field: &String = match filter {
        FilterExpr::And { exprs } => {
            collect_list(exprs, t, out);
            return ;
        },
        FilterExpr::Or { exprs } => {
            collect_list(exprs, t, out);
            return ;
        },
        FilterExpr::Not { expr } => {
            collect_unindexed_filter_fields(expr, t, out);
            return ;
        },
        FilterExpr::Eq { field, .. } => field,
        FilterExpr::Neq { field, .. } => field,
        FilterExpr::Gt { field, .. } => field,
        FilterExpr::Gte { field, .. } => field,
        FilterExpr::Lt { field, .. } => field,
        FilterExpr::Lte { field, .. } => field,
        FilterExpr::In { field, .. } => field,
        FilterExpr::Contains { field, .. } => field,
        FilterExpr::Exists { field } => field,
        FilterExpr::OlderThan { field, .. } => field,
    };
    collect_field(t, field.as_str(), out);
}

/// A text put in its place among ascending ones, behind its equals.
pub open spec fn placed(v: Seq<Seq<char>>, s: Seq<char>) -> Seq<Seq<char>>
    decreases v.len(),
{
    if v.len() > 0 && text::chars_lt(s, v.last()) {
        placed(v.drop_last(), s).push(v.last())
    } else {
        v.push(s)
    }
}

/// Texts in ascending order.
pub open spec fn sorted(v: Seq<Seq<char>>) -> Seq<Seq<char>>
    decreases v.len(),
{
    if v.len() == 0 {
        Seq::empty()
    } else {
        placed(sorted(v.drop_last()), v.last())
    }
}

/// Puts a text in its place.
fn place(v: &mut Vec<String>, s: String)
    ensures
        text::strs(final(v)@) == placed(text::strs(old(v)@), s@),
{
    let ghost start = text::strs(v@);
    let ghost sv = s@;
    let ghost none = Seq::<Seq<char>>::empty();
    let mut p: usize = v.len();
    assert(start.take(start.len() as int) =~= start);
    assert(start.skip(start.len() as int) =~= none);
    assert(placed(start, sv) =~= placed(start, sv) + none);
    while p > 0 && before(s.as_str(), v[p - 1].as_str())
        invariant
            p <= v@.len(),
            s@ == sv,
            start == text::strs(v@),
            v@ == old(v)@,
            placed(start, sv) == placed(start.take(p as int), sv) + start.skip(p as int),
        decreases p,
    {
        proof {
            let head = start.take(p as int);
            assert(head.last() == v@[p - 1]@);
            assert(head.drop_last() =~= start.take(p - 1));
            assert(placed(head.drop_last(), sv).push(head.last()) + start.skip(p as int)
                =~= placed(head.drop_last(), sv) + start.skip(p - 1));
        }
        p = p - 1;
    }
    proof {
        let head = start.take(p as int);
        if p > 0 {
            assert(head.last() == v@[p - 1]@);
        }
        assert(placed(head, sv) == head.push(sv));
    }
    v.insert(p, s);
    assert(text::strs(v@) =~= start.take(p as int).push(sv) + start.skip(p as int));
}

fn sort(v: &Vec<String>) -> (r: Vec<String>)
    ensures
        text::strs(r@) == sorted(text::strs(v@)),
{
    let ghost all = text::strs(v@);
    let mut out: Vec<String> = Vec::new();
    let mut i: usize = 0;
    assert(all.take(0) =~= Seq::<Seq<char>>::empty());
    assert(text::strs(out@) =~= Seq::<Seq<char>>::empty());
    while i < v.len()
        invariant
            i <= v@.len(),
            all == text::strs(v@),
            text::strs(out@) == sorted(all.take(i as int)),
        decreases v@.len() - i,
    {
        assert(all.take(i as int + 1).drop_last() =~= all.take(i as int));
        assert(all.take(i as int + 1).last() == v@[i as int]@);
        place(&mut out, v[i].clone());
        i = i + 1;
    }
    assert(all.take(v@.len() as int) =~= all);
    out
}

/// The warnings about the tests in the filters of a query on a table, in reading
/// order: its own filter, that of its text search, that of its vector search.
pub open spec fn tests_warnings(t: TableV, q: QueryV) -> Seq<Seq<char>> {
    opt_warnings(t, q.filter) + (match q.search {
        Some(s) => opt_warnings(t, s.filter),
        None => Seq::empty(),
    }) + (match q.vector_search {
        Some(s) => opt_warnings(t, s.filter),
        None => Seq::empty(),
    })
}

/// The warnings about a query, in ascending order: one for each test in its
/// filters on a declared field that no index covers. A query on an unknown table
/// has none.
pub open spec fn query_warnings(schema: Map<Seq<char>, TableV>, q: QueryV) -> Seq<Seq<char>> {
    if schema.contains_key(q.table) {
        sorted(tests_warnings(schema[q.table], q))
    } else {
        Seq::empty()
    }
}

/// The warnings about the filters of a query.
pub fn collect_filter_warnings(schema: &SchemaDef, q: &Query) -> (r: Vec<String>)
    ensures
        text::strs(r@) == query_warnings(schema@, q@),
{
    let mut found: Vec<String> = Vec::new();
    assert(text::strs(found@) =~= Seq::<Seq<char>>::empty());
    let t = match schema.table(q.table.as_str()) {
        Ok(t) => t,
        Err(_) => {
            return found;
        },
    };
    if let Some(f) = &q.filter {
        collect_unindexed_filter_fields(f, t, &mut found);
    }
    assert(text::strs(found@) =~= opt_warnings(t@, q@.filter));
    let ghost own = text::strs(found@);
    let ghost none = Seq::<Seq<char>>::empty();
    assert(own + none =~= own);
    if let Some(s) = &q.search {
        if let Some(f) = &s.filter {
            collect_unindexed_filter_fields(f, t, &mut found);
        }
    }
    let ghost more = text::strs(found@);
    assert(more + none =~= more);
    if let Some(s) = &q.vector_search {
        if let Some(f) = &s.filter {
            collect_unindexed_filter_fields(f, t, &mut found);
        }
    }
    assert(text::strs(found@) == tests_warnings(t@, q@));
    sort(&found)
}

/// The texts ascend.
pub open spec fn ascends(v: Seq<Seq<char>>) -> bool {
    forall|i: int, j: int|
        0 <= i < j < v.len() ==> !text::chars_lt(#[trigger] v[j], #[trigger] v[i])
}

proof fn lemma_placed(v: Seq<Seq<char>>, s: Seq<char>)
    requires
        ascends(v),
    ensures
        ascends(placed(v, s)),
        placed(v, s).to_multiset() == v.to_multiset().insert(s),
        forall|i: int|
            0 <= i < placed(v, s).len() ==> (#[trigger] placed(v, s)[i]) == s || v.contains(
                placed(v, s)[i],
            ),
    decreases v.len(),
{
    broadcast use vstd::seq_lib::group_to_multiset_ensures;

    let r = placed(v, s);
    if v.len() > 0 && text::chars_lt(s, v.last()) {
        let head = v.drop_last();
        assert(ascends(head));
        lemma_placed(head, s);
        let ph = placed(head, s);
        assert(head.push(v.last()) =~= v);
        assert(r.to_multiset() =~= v.to_multiset().insert(s));
        assert forall|i: int| 0 <= i < r.len() implies (#[trigger] r[i]) == s || v.contains(
            r[i],
        ) by {
            if i < ph.len() {
                if ph[i] != s {
                    assert(head.contains(ph[i]));
                    let k = head.index_of(ph[i]);
                    assert(v[k] == ph[i]);
                }
            } else {
                assert(v[v.len() - 1] == r[i]);
            }
        }
        assert forall|i: int, j: int| 0 <= i < j < r.len() implies !text::chars_lt(
            #[trigger] r[j],
            #[trigger] r[i],
        ) by {
            if j < ph.len() {
                assert(r[i] == ph[i] && r[j] == ph[j]);
            } else {
                assert(r[i] == ph[i]);
                if ph[i] == s {
                    if text::chars_lt(r[j], s) {
                        text::lemma_chars_lt_transitive(r[j], s, r[j]);
                        text::lemma_chars_lt_irreflexive(r[j]);
                    }
                } else {
                    assert(head.contains(ph[i]));
                    let k = head.index_of(ph[i]);
                    assert(v[k] == ph[i]);
                }
            }
        }
    } else {
        assert forall|i: int, j: int| 0 <= i < j < r.len() implies !text::chars_lt(
            #[trigger] r[j],
            #[trigger] r[i],
        ) by {
            if j == v.len() && i < v.len() - 1 {
                let last = v[v.len() - 1];
                assert(!text::chars_lt(last, v[i]));
                if text::chars_lt(s, v[i]) {
                    text::lemma_chars_lt_total(v[i], last);
                    if v[i] != last {
                        text::lemma_chars_lt_transitive(s, v[i], last);
                    }
                }
            }
        }
    }
}

proof fn lemma_sorted(v: Seq<Seq<char>>)
    ensures
        ascends(sorted(v)),
        sorted(v).to_multiset() == v.to_multiset(),
        sorted(v).len() == v.len(),
    decreases v.len(),
{
    broadcast use vstd::seq_lib::group_to_multiset_ensures;

    if v.len() > 0 {
        lemma_sorted(v.drop_last());
        lemma_placed(sorted(v.drop_last()), v.last());
        assert(v.drop_last().push(v.last()) =~= v);
        assert(sorted(v).to_multiset().len() == v.to_multiset().len());
    } else {
        assert(sorted(v) =~= v);
    }
}

/// The warnings about a query ascend, and there is one for each test in its
/// filters on a declared field that no index covers, no more and no fewer.
pub proof fn law_one_warning_per_test(schema: Map<Seq<char>, TableV>, q: QueryV)
    requires
        schema.contains_key(q.table),
    ensures
        ascends(query_warnings(schema, q)),
        query_warnings(schema, q).to_multiset() == tests_warnings(
            schema[q.table],
            q,
        ).to_multiset(),
        query_warnings(schema, q).len() == tests_warnings(schema[q.table], q).len(),
{
    lemma_sorted(tests_warnings(schema[q.table], q));
}

/// The name is a declared field or one that every document has.
pub open spec fn projectable(t: TableV, name: Seq<char>) -> bool {
    t.fields.contains_key(name) || name == "_id"@ || name == "_creationTime"@ || name
        == "_version"@
}

/// What is wrong with a projection, if anything: the first name that no
/// document has.
pub open spec fn projection_fault(t: TableV, names: Seq<Seq<char>>) -> Option<ErrorV>
    decreases names.len(),
{
    if names.len() == 0 {
        None
    } else if !projectable(t, names[0]) {
        Some(error::bad("unknown projection field '"@ + names[0] + "'"@))
    } else {
        projection_fault(t, names.drop_first())
    }
}

/// Rejects a projection that names a field no document has.
pub fn validate_projection(table_def: &TableDef, fields: &Vec<String>) -> (r: Result<(), RtDbError>)
    ensures
        match projection_fault(table_def@, text::strs(fields@)) {
            Some(e) => r matches Err(x) && x@ == e,
            None => r is Ok,
        },
{
    let ghost names = text::strs(fields@);
    let mut i: usize = 0;
    assert(names.skip(0) =~= names);
    while i < fields.len()
        invariant
            i <= fields@.len(),
            names == text::strs(fields@),
            projection_fault(table_def@, names) == projection_fault(
                table_def@,
                names.skip(i as int),
            ),
        decreases fields@.len() - i,
    {
        let name = fields[i].as_str();
        assert(names.skip(i as int)[0] == name@);
        assert(names.skip(i as int).drop_first() =~= names.skip(i as int + 1));
        let known = same(name, "_id") || same(name, "_creationTime") || same(name, "_version")
            || table_def.fields.contains_key(name);
        if !known {
            return Err(RtDbError::bad_request(cat3("unknown projection field '", name, "'")));
        }
        i = i + 1;
    }
    Ok(())
}

} // verus!
