//! What a directive makes of a schema: the change it names, and no other.
#[allow(unused_imports)]
use vstd::prelude::*;

use crate::dsl::Cast;
use crate::migrate::plan;
use crate::migrate::plan::DirectiveV;
use crate::schema::{IndexV, TableV, TypeV};

verus! {

/// The type of a field; none where the table has no such field.
pub open spec fn type_at(t: TableV, field: Seq<char>) -> Option<TypeV> {
    if t.fields.contains_key(field) {
        Some(t.fields[field])
    } else {
        None
    }
}

/// What becomes of the type of a field under a directive on its table.
pub open spec fn type_after(t: TableV, d: DirectiveV, field: Seq<char>) -> Option<TypeV> {
    match d {
        DirectiveV::RenameField(_, from, to) => if field == to {
            type_at(t, from)
        } else if field == from {
            None
        } else {
            type_at(t, field)
        },
        DirectiveV::ChangeType(_, changed, to, _, _) => if field == changed {
            Some(to)
        } else {
            type_at(t, field)
        },
        DirectiveV::DropField(_, dropped) => if field == dropped {
            None
        } else {
            type_at(t, field)
        },
        _ => type_at(t, field),
    }
}

/// A directive that works within a table gives a renamed field the type that it
/// had, a changed field the type asked for, takes a dropped field away, and leaves
/// the type of every other field. It works within the table, and touches no
/// other.
pub proof fn law_directive_changes_the_field_it_names(
    s: Map<Seq<char>, TableV>,
    d: DirectiveV,
    field: Seq<char>,
    other: Seq<char>,
)
    requires
        plan::table_of(d) is Some,
        plan::step(s, d) is Ok,
    ensures
        ({
            let table = plan::table_of(d)->0;
            let r = plan::step(s, d)->Ok_0;
            &&& s.contains_key(table) && r.contains_key(table)
            &&& type_at(r[table], field) == type_after(s[table], d, field)
            &&& other != table ==> (r.contains_key(other) <==> s.contains_key(other)) && (
            s.contains_key(other) ==> r[other] == s[other])
        }),
{
}

/// A field is renamed exactly if it is there and nothing has its new name.
pub proof fn law_rename_needs_a_free_name(
    t: TableV,
    table: Seq<char>,
    from: Seq<char>,
    to: Seq<char>,
)
    ensures
        plan::rename_field_step(t, table, from, to) is Ok <==> type_at(t, from) is Some && type_at(
            t,
            to,
        ) is None,
{
}

/// The type of a field is changed exactly if the field is there and the cast leads
/// from its type to the new one; a default of the old type goes with it.
pub proof fn law_type_changes_along_a_cast(
    t: TableV,
    table: Seq<char>,
    field: Seq<char>,
    to: TypeV,
    cast: Cast,
)
    ensures
        plan::change_type_step(t, table, field, to, cast) is Ok <==> (type_at(
            t,
            field,
        ) matches Some(ty) && plan::castable(cast, ty) && plan::target_fits(cast, to)),
        plan::change_type_step(t, table, field, to, cast) matches Ok(r)
            ==> !r.defaults.contains_key(field) && r.indexes == t.indexes && r.authorize
            == t.authorize && r.computed == t.computed && r.owner_field == t.owner_field,
{
}

proof fn lemma_without_index(v: Seq<IndexV>, name: Seq<char>, x: IndexV)
    ensures
        plan::without_index(v, name).contains(x) <==> v.contains(x) && x.name != name,
    decreases v.len(),
{
    if v.len() > 0 {
        let init = v.drop_last();
        lemma_without_index(init, name, x);
        let head = plan::without_index(init, name);
        if v.contains(x) {
            let i = v.index_of(x);
            if i < init.len() {
                assert(init[i] == x);
            }
        }
        if init.contains(x) {
            assert(v[init.index_of(x)] == x);
        }
        assert(v[v.len() - 1] == v.last());
        if v.last().name != name {
            let all = head.push(v.last());
            assert(all[head.len() as int] == v.last());
            if head.contains(x) {
                assert(all[head.index_of(x)] == x);
            }
            if all.contains(x) {
                let i = all.index_of(x);
                if i < head.len() {
                    assert(head[i] == x);
                }
            }
        }
    }
}

/// Dropping an index drops those with its name, and keeps every other.
pub proof fn law_drop_index_keeps_the_others(
    t: TableV,
    table: Seq<char>,
    name: Seq<char>,
    x: IndexV,
)
    requires
        plan::drop_index_step(t, table, name) is Ok,
    ensures
        plan::drop_index_step(t, table, name)->Ok_0.indexes.contains(x) <==> t.indexes.contains(x)
            && x.name != name,
{
    lemma_without_index(t.indexes, name, x);
}

/// A table is dropped exactly if it is there, and no other goes with it. A table
/// is renamed exactly if it is there and nothing has its new name; every other
/// table stays where it is.
pub proof fn law_tables_come_and_go_alone(
    s: Map<Seq<char>, TableV>,
    from: Seq<char>,
    to: Seq<char>,
    other: Seq<char>,
)
    ensures
        plan::step(s, DirectiveV::DropTable(from)) is Ok <==> s.contains_key(from),
        plan::step(s, DirectiveV::DropTable(from)) matches Ok(r) ==> (r.contains_key(other)
            <==> s.contains_key(other) && other != from) && (r.contains_key(other) ==> r[other]
            == s[other]),
        plan::step(s, DirectiveV::RenameTable(from, to)) is Ok <==> s.contains_key(from)
            && !s.contains_key(to),
        plan::step(s, DirectiveV::RenameTable(from, to)) matches Ok(r) ==> (r.contains_key(other)
            <==> other == to || (s.contains_key(other) && other != from)),
{
}

} // verus!
