//! Ids inside field types: finding the tables they name, and following a table
//! under its new name.
#[allow(unused_imports)]
use vstd::prelude::*;

use crate::migrate::refs;
use crate::migrate::refs::rename;
use crate::schema;
use crate::schema::{FieldType, TypeV};

verus! {

/// A field type after a rename of a table: every id of the table follows it, at
/// any depth.
pub open spec fn retargeted(ty: TypeV, from: Seq<char>, to: Seq<char>) -> TypeV
    decreases ty,
{
    match ty {
        TypeV::Id(table, on_delete) => TypeV::Id(refs::renamed(table, from, to), on_delete),
        TypeV::Union(vs) => TypeV::Union(
            Seq::new(
                vs.len(),
                |i: int|
                    if 0 <= i < vs.len() {
                        retargeted(vs[i], from, to)
                    } else {
                        TypeV::Null
                    },
            ),
        ),
        TypeV::Array(element) => TypeV::Array(Box::new(retargeted(*element, from, to))),
        TypeV::Object(fs) => TypeV::Object(
            Seq::new(
                fs.len(),
                |i: int|
                    if 0 <= i < fs.len() {
                        (fs[i].0, retargeted(fs[i].1, from, to))
                    } else {
                        (Seq::empty(), TypeV::Null)
                    },
            ),
        ),
        TypeV::Record(value) => TypeV::Record(Box::new(retargeted(*value, from, to))),
        TypeV::Optional(inner) => TypeV::Optional(Box::new(retargeted(*inner, from, to))),
        _ => ty,
    }
}

/// The type holds an id of the table, at any depth.
pub open spec fn names_table(ty: TypeV, table: Seq<char>) -> bool
    decreases ty,
{
    match ty {
        TypeV::Id(target, _) => target == table,
        TypeV::Union(vs) => exists|i: int| 0 <= i < vs.len() && names_table(#[trigger] vs[i], table),
        TypeV::Array(element) => names_table(*element, table),
        TypeV::Object(fs) => exists|i: int|
            0 <= i < fs.len() && names_table((#[trigger] fs[i]).1, table),
        TypeV::Record(value) => names_table(*value, table),
        TypeV::Optional(inner) => names_table(*inner, table),
        _ => false,
    }
}

/// After a table was renamed, a type holds ids of the new name where it held
/// ids of either name, none of the old one, and the same others as before.
pub proof fn law_retargeting_leaves_no_old_id(
    ty: TypeV,
    from: Seq<char>,
    to: Seq<char>,
    table: Seq<char>,
)
    requires
        from != to,
    ensures
        names_table(retargeted(ty, from, to), table) <==> if table == from {
            false
        } else if table == to {
            names_table(ty, from) || names_table(ty, to)
        } else {
            names_table(ty, table)
        },
    decreases ty,
{
    let r = retargeted(ty, from, to);
    match ty {
        TypeV::Union(vs) => {
            let rs = r->Union_0;
            assert forall|i: int| 0 <= i < vs.len() implies (names_table(#[trigger] rs[i], table)
                <==> if table == from {
                false
            } else if table == to {
                names_table(vs[i], from) || names_table(vs[i], to)
            } else {
                names_table(vs[i], table)
            }) by {
                law_retargeting_leaves_no_old_id(vs[i], from, to, table);
            }
            if names_table(r, table) {
                let i = choose|i: int| 0 <= i < rs.len() && names_table(#[trigger] rs[i], table);
                assert(names_table(rs[i], table));
                assert(names_table(vs[i], from) || names_table(vs[i], table));
            }
            if names_table(ty, from) && table == to {
                let i = choose|i: int| 0 <= i < vs.len() && names_table(#[trigger] vs[i], from);
                assert(names_table(rs[i], table));
            }
            if names_table(ty, table) && table != from {
                let i = choose|i: int| 0 <= i < vs.len() && names_table(#[trigger] vs[i], table);
                assert(names_table(rs[i], table));
            }
        },
        TypeV::Object(fs) => {
            let rs = r->Object_0;
            assert forall|i: int| 0 <= i < fs.len() implies (names_table(
                (#[trigger] rs[i]).1,
                table,
            ) <==> if table == from {
                false
            } else if table == to {
                names_table(fs[i].1, from) || names_table(fs[i].1, to)
            } else {
                names_table(fs[i].1, table)
            }) by {
                law_retargeting_leaves_no_old_id(fs[i].1, from, to, table);
            }
            if names_table(r, table) {
                let i = choose|i: int| 0 <= i < rs.len() && names_table((#[trigger] rs[i]).1, table);
                assert(names_table(rs[i].1, table));
                assert(names_table(fs[i].1, from) || names_table(fs[i].1, table));
            }
            if names_table(ty, from) && table == to {
                let i = choose|i: int| 0 <= i < fs.len() && names_table((#[trigger] fs[i]).1, from);
                assert(names_table(rs[i].1, table));
            }
            if names_table(ty, table) && table != from {
                let i = choose|i: int| 0 <= i < fs.len() && names_table((#[trigger] fs[i]).1, table);
                assert(names_table(rs[i].1, table));
            }
        },
        TypeV::Array(element) => law_retargeting_leaves_no_old_id(*element, from, to, table),
        TypeV::Record(value) => law_retargeting_leaves_no_old_id(*value, from, to, table),
        TypeV::Optional(inner) => law_retargeting_leaves_no_old_id(*inner, from, to, table),
        _ => {},
    }
}

/// The field type after a rename of a table.
pub fn retarget(t: &FieldType, from: &str, to: &str) -> (r: FieldType)
    ensures
        r@ == retargeted(t@, from@, to@),
    decreases t,
{
    broadcast use schema::lemma_type_view;

    match t {
        FieldType::Id { table, on_delete } => FieldType::Id {
            table: rename(table, from, to),
            on_delete: on_delete.clone(),
        },
        FieldType::Union { variants } => {
            let mut out: Vec<FieldType> = Vec::new();
            let mut i: usize = 0;
            while i < variants.len()
                invariant
                    i <= variants@.len(),
                    *t == (FieldType::Union { variants: *variants }),
                    out@.len() == i,
                    forall|k: int|
                        0 <= k < i ==> (#[trigger] out@[k])@ == retargeted(
                            variants@[k]@,
                            from@,
                            to@,
                        ),
                decreases variants@.len() - i,
            {
                assert(decreases_to!(*variants => variants[i as int]));
                assert(decreases_to!(*t => t->Union_variants));
                let item = retarget(&variants[i], from, to);
                out.push(item);
                i = i + 1;
            }
            assert(schema::type_views(out@) =~= retargeted(t@, from@, to@)->Union_0);
            FieldType::Union { variants: out }
        },
        FieldType::Array { element } => FieldType::Array {
            element: Box::new(retarget(element, from, to)),
        },
        FieldType::Object { fields } => {
            let mut out: Vec<(String, FieldType)> = Vec::new();
            let mut i: usize = 0;
            while i < fields.len()
                invariant
                    i <= fields@.len(),
                    *t == (FieldType::Object { fields: *fields }),
                    out@.len() == i,
                    forall|k: int|
                        0 <= k < i ==> (#[trigger] out@[k]).0@ == fields@[k].0@ && out@[k].1@
                            == retargeted(fields@[k].1@, from@, to@),
                decreases fields@.len() - i,
            {
                assert(decreases_to!(*fields => fields[i as int]));
                assert(decreases_to!(fields[i as int] => fields[i as int].1));
                assert(decreases_to!(*t => t->Object_fields));
                let item = retarget(&fields[i].1, from, to);
                out.push((fields[i].0.clone(), item));
                i = i + 1;
            }
            assert(schema::typed_field_views(out@) =~= retargeted(t@, from@, to@)->Object_0);
            FieldType::Object { fields: out }
        },
        FieldType::Record { value } => FieldType::Record {
            value: Box::new(retarget(value, from, to)),
        },
        FieldType::Optional { inner } => FieldType::Optional {
            inner: Box::new(retarget(inner, from, to)),
        },
        _ => t.copy(),
    }
}

} // verus!
