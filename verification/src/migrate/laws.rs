//! What holds of every migration plan.
#[allow(unused_imports)]
use vstd::prelude::*;

use crate::error::ErrorV;
use crate::migrate::ids;
use crate::migrate::plan;
use crate::migrate::plan::DirectiveV;
use crate::migrate::refs;
use crate::query::warnings;
use crate::schema::{IndexV, TableV};

verus! {

/// A plan is sequential: planning two lists of directives one after the other
/// is planning their concatenation.
pub proof fn law_plan_is_sequential(
    s: Map<Seq<char>, TableV>,
    a: Seq<DirectiveV>,
    b: Seq<DirectiveV>,
)
    ensures
        plan::folded(s, a + b) == (match plan::folded(s, a) {
            Ok(m) => plan::folded(m, b),
            Err(e) => Err(e),
        }),
    decreases b.len(),
{
    if b.len() == 0 {
        assert(a + b =~= a);
    } else {
        assert((a + b).drop_last() =~= a + b.drop_last());
        assert((a + b).last() == b.last());
        law_plan_is_sequential(s, a, b.drop_last());
    }
}

/// Every prefix of directives that can be planned can be planned, so that each
/// directive meets the schema that those before it leave.
pub proof fn law_prefix_of_plan_is_planned(
    s: Map<Seq<char>, TableV>,
    ds: Seq<DirectiveV>,
    n: int,
)
    requires
        0 <= n <= ds.len(),
        plan::folded(s, ds) is Ok,
    ensures
        plan::folded(s, ds.take(n)) is Ok,
        n < ds.len() ==> plan::folded(s, ds.take(n + 1)) == plan::step(
            plan::folded(s, ds.take(n))->Ok_0,
            ds[n],
        ),
{
    assert(ds.take(n) + ds.skip(n) =~= ds);
    law_plan_is_sequential(s, ds.take(n), ds.skip(n));
    if n < ds.len() {
        assert(ds.take(n + 1).drop_last() =~= ds.take(n));
        assert(ds.take(n + 1).last() == ds[n]);
    }
}

/// A directive that works within a table leaves every other table as it was,
/// and adds and removes none.
pub proof fn law_other_tables_stay(
    s: Map<Seq<char>, TableV>,
    d: DirectiveV,
    other: Seq<char>,
)
    requires
        plan::table_of(d) is Some,
        plan::table_of(d) != Some(other),
        plan::step(s, d) is Ok,
    ensures
        plan::step(s, d)->Ok_0.dom() == s.dom(),
        plan::step(s, d)->Ok_0[other] == s[other],
{
    assert(plan::step(s, d)->Ok_0.dom() =~= s.dom());
}

/// Directives that only rewrite documents leave the schema as it was.
pub proof fn law_data_directives_keep_schema(s: Map<Seq<char>, TableV>, d: DirectiveV)
    requires
        d is SetDefault || d is EvalExpr,
        plan::step(s, d) is Ok,
    ensures
        plan::step(s, d)->Ok_0 == s,
{
    assert(plan::step(s, d)->Ok_0 =~= s);
}

/// The field is no field of the table, has no default and no expression, is not
/// read by one, and is neither the owner, the collaborators nor the counter, nor
/// in the `authorize` predicate or among the columns of an index. Of the predicate
/// and the filter fields of an index, the expiry and the stamp of the last write
/// this says nothing.
pub open spec fn unnamed(t: TableV, field: Seq<char>) -> bool {
    &&& !t.fields.contains_key(field)
    &&& !t.defaults.contains_key(field)
    &&& !t.computed.contains_key(field)
    &&& t.owner_field != Some(field)
    &&& t.collaborators_field != Some(field)
    &&& t.auto_increment_field != Some(field)
    &&& (t.authorize matches Some(f) ==> !warnings::mentions(f, field))
    &&& forall|i: int| 0 <= i < t.indexes.len() ==> !(#[trigger] t.indexes[i]).fields.contains(field)
    &&& forall|k: Seq<char>| !(#[trigger] plan::reads(t.computed, field, k))
}

/// After a field was renamed the table has the field under its new name and
/// type, and neither its fields, defaults, expressions, roles and `authorize`
/// predicate nor the columns of its indexes name the old one.
pub proof fn law_rename_leaves_no_old_name(
    t: TableV,
    table: Seq<char>,
    from: Seq<char>,
    to: Seq<char>,
)
    requires
        plan::rename_field_step(t, table, from, to) is Ok,
    ensures
        ({
            let r = plan::rename_field_step(t, table, from, to)->Ok_0;
            &&& unnamed(r, from)
            &&& r.fields.contains_key(to)
            &&& r.fields[to] == t.fields[from]
        }),
{
    let r = plan::field_renamed(t, from, to);
    assert(from != to);
    assert forall|i: int| 0 <= i < r.indexes.len() implies !(
    #[trigger] r.indexes[i]).fields.contains(from) by {
        let fs = r.indexes[i].fields;
        if fs.contains(from) {
            let p = fs.index_of(from);
            assert(fs[p] == from);
        }
    }
    if let Some(f) = t.authorize {
        refs::law_filter_rename_moves_references(f, from, to, from);
    }
    let moved = plan::rekeyed(t.computed, from, to);
    assert forall|k: Seq<char>| !(#[trigger] plan::reads(r.computed, from, k)) by {
        if r.computed.contains_key(k) {
            refs::law_value_rename_moves_references(moved[k], from, to, from);
        }
    }
}

/// Renaming a field and renaming it back restores the table, where nothing in
/// it named the new name before.
pub proof fn law_rename_is_undone(t: TableV, table: Seq<char>, from: Seq<char>, to: Seq<char>)
    requires
        t.fields.contains_key(from),
        unnamed(t, to),
    ensures
        ({
            let there = plan::rename_field_step(t, table, from, to);
            &&& there is Ok
            &&& plan::rename_field_step(there->Ok_0, table, to, from) == Ok::<TableV, ErrorV>(t)
        }),
{
    let r = plan::field_renamed(t, from, to);
    assert(from != to);
    let b = plan::field_renamed(r, to, from);
    assert(b.fields =~= t.fields);
    assert(b.defaults =~= t.defaults);
    assert forall|i: int| 0 <= i < t.indexes.len() implies b.indexes[i] == #[trigger] t.indexes[i] by {
        let fs = t.indexes[i].fields;
        assert forall|j: int| 0 <= j < fs.len() implies b.indexes[i].fields[j] == fs[j] by {
            assert(fs.contains(fs[j]));
        }
        assert(b.indexes[i].fields =~= fs);
    }
    assert(b.indexes =~= t.indexes);
    if let Some(f) = t.authorize {
        refs::law_filter_rename_is_undone(f, from, to);
    }
    let moved = plan::rekeyed(t.computed, from, to);
    let back = plan::rekeyed(r.computed, to, from);
    assert(b.computed.dom() =~= t.computed.dom());
    assert forall|k: Seq<char>| #[trigger] t.computed.contains_key(k) implies b.computed[k]
        == t.computed[k] by {
        assert(!plan::reads(t.computed, to, k));
        refs::law_value_rename_is_undone(t.computed[k], from, to);
        if k == from {
            assert(moved[to] == t.computed[from]);
            assert(back[from] == r.computed[to]);
        } else {
            assert(moved[k] == t.computed[k]);
            assert(back[k] == r.computed[k]);
        }
    }
    assert(b.computed =~= t.computed);
}

proof fn lemma_names_without(v: Seq<Seq<char>>, name: Seq<char>)
    ensures
        !plan::names_without(v, name).contains(name),
    decreases v.len(),
{
    if v.len() > 0 {
        lemma_names_without(v.drop_last(), name);
        let head = plan::names_without(v.drop_last(), name);
        if v.last() != name {
            let all = head.push(v.last());
            if all.contains(name) {
                let p = all.index_of(name);
                assert(all[p] == name);
                assert(head[p] == name);
            }
        }
    }
}

/// After a field was dropped neither the fields, defaults, expressions, roles and
/// `authorize` predicate of the table nor the columns of its indexes name it.
pub proof fn law_drop_leaves_no_name(t: TableV, table: Seq<char>, field: Seq<char>)
    requires
        plan::drop_field_step(t, table, field) is Ok,
    ensures
        unnamed(plan::drop_field_step(t, table, field)->Ok_0, field),
{
    let r = plan::drop_field_step(t, table, field)->Ok_0;
    assert forall|i: int| 0 <= i < r.indexes.len() implies !(
    #[trigger] r.indexes[i]).fields.contains(field) by {
        lemma_names_without(t.indexes[i].fields, field);
    }
    assert forall|k: Seq<char>| !(#[trigger] plan::reads(r.computed, field, k)) by {
        assert(!plan::reads(t.computed, field, k));
    }
}

/// A dropped field that an authorization predicate tests is refused, so that
/// no predicate is ever widened by a drop.
pub proof fn law_drop_keeps_authorization(t: TableV, table: Seq<char>, field: Seq<char>)
    ensures
        plan::drop_field_step(t, table, field) matches Ok(r) ==> r.authorize == t.authorize,
        (t.authorize matches Some(f) && warnings::mentions(f, field)) ==> plan::drop_field_step(
            t,
            table,
            field,
        ) is Err,
{
}

/// After a table was renamed no field holds an id of the old name, at any depth,
/// and every field that held one holds one of the new name.
pub proof fn law_rename_table_retargets_ids(
    s: Map<Seq<char>, TableV>,
    from: Seq<char>,
    to: Seq<char>,
    table: Seq<char>,
    field: Seq<char>,
)
    requires
        plan::rename_table_step(s, from, to) is Ok,
        s.contains_key(table),
        s[table].fields.contains_key(field),
    ensures
        ({
            let r = plan::rename_table_step(s, from, to)->Ok_0;
            let at = refs::renamed(table, from, to);
            let old = s[table].fields[field];
            &&& !r.contains_key(from)
            &&& r.contains_key(at)
            &&& r[at].fields.contains_key(field)
            &&& r[at].fields[field] == ids::retargeted(old, from, to)
            &&& !ids::names_table(r[at].fields[field], from)
            &&& ids::names_table(old, from) ==> ids::names_table(r[at].fields[field], to)
        }),
{
    assert(from != to);
    ids::law_retargeting_leaves_no_old_id(s[table].fields[field], from, to, from);
    ids::law_retargeting_leaves_no_old_id(s[table].fields[field], from, to, to);
}

/// Dropping an index leaves no index of its name, and leaves the fields.
pub proof fn law_dropping_index_keeps_fields(t: TableV, table: Seq<char>, name: Seq<char>)
    requires
        plan::drop_index_step(t, table, name) is Ok,
    ensures
        plan::drop_index_step(t, table, name)->Ok_0.fields == t.fields,
        forall|i: int|
            0 <= i < plan::drop_index_step(t, table, name)->Ok_0.indexes.len() ==> (
            #[trigger] plan::drop_index_step(t, table, name)->Ok_0.indexes[i]).name != name,
{
    lemma_without_index(t.indexes, name);
}

proof fn lemma_without_index(v: Seq<IndexV>, name: Seq<char>)
    ensures
        forall|i: int|
            0 <= i < plan::without_index(v, name).len() ==> (#[trigger] plan::without_index(
                v,
                name,
            )[i]).name != name,
    decreases v.len(),
{
    if v.len() > 0 {
        lemma_without_index(v.drop_last(), name);
    }
}

} // verus!
