//! What the statements of a migration do to documents.
//!
//! A document is the map of its fields here.
#[allow(unused_imports)]
use vstd::prelude::*;

use crate::dsl::{BindV, Cast, FilterV};
use crate::error::ErrorV;
use crate::json::JsonV;
use crate::migrate::apply;
use crate::migrate::apply::{CompiledExprV, StatementV};
use crate::migrate::coerce;
use crate::migrate::effects;
use crate::migrate::effects::MigrateBindV;
use crate::migrate::plan;
use crate::migrate::plan::CondV;
use crate::query::agreement;
use crate::query::filter;
use crate::query::filter::FilterUse;
use crate::schema;
use crate::schema::{TableV, TypeV};

verus! {

/// A change of a document.
pub enum Edit {
    /// The field goes.
    Drop(Seq<char>),
    /// The field is set to the bound value.
    Put(Seq<char>),
    /// The field goes by another name.
    Move(Seq<char>, Seq<char>),
}

/// Which documents are changed.
pub enum Choice {
    /// Those with the field.
    Having(Seq<char>),
    /// Those without the field.
    Lacking(Seq<char>),
}

/// The text of the path of a field.
pub open spec fn path_text(field: Seq<char>) -> Seq<char> {
    "'{\""@ + field + "\"}'"@
}

/// The text of a choice.
pub open spec fn choice_text(c: Choice) -> Seq<char> {
    match c {
        Choice::Having(field) => "doc ? '"@ + field + "'"@,
        Choice::Lacking(field) => "NOT "@ + ("doc ? '"@ + field + "'"@),
    }
}

/// The text of a change.
pub open spec fn edit_text(target: Seq<char>, e: Edit, c: Choice) -> Seq<char> {
    match e {
        Edit::Drop(field) => "UPDATE "@ + target + " SET doc = doc - '"@ + field + "' WHERE "@
            + choice_text(c),
        Edit::Put(field) => "UPDATE "@ + target + " SET doc = jsonb_set(doc, "@ + path_text(field)
            + ", $1::jsonb, true) WHERE "@ + choice_text(c),
        Edit::Move(from, to) => "UPDATE "@ + target + " SET doc = jsonb_set(doc - '"@ + from
            + "', "@ + path_text(to) + ", doc->'"@ + from + "', true) WHERE "@ + choice_text(c),
    }
}

/// The text that finds the documents of a choice.
pub open spec fn find_text(target: Seq<char>, c: Choice) -> Seq<char> {
    "SELECT id FROM "@ + target + " WHERE "@ + choice_text(c)
}

/// A document is one of a choice.
pub open spec fn chosen(c: Choice, doc: Map<Seq<char>, JsonV>) -> bool {
    match c {
        Choice::Having(field) => doc.contains_key(field),
        Choice::Lacking(field) => !doc.contains_key(field),
    }
}

/// A document after a change of the documents of a choice, with the bound value.
pub open spec fn edited(
    e: Edit,
    c: Choice,
    value: JsonV,
    doc: Map<Seq<char>, JsonV>,
) -> Map<Seq<char>, JsonV> {
    if !chosen(c, doc) {
        doc
    } else {
        match e {
            Edit::Drop(field) => doc.remove(field),
            Edit::Put(field) => doc.insert(field, value),
            Edit::Move(from, to) => doc.remove(from).insert(to, doc[from]),
        }
    }
}

/// A field of a document; none where it is not there.
pub open spec fn field_at(doc: Map<Seq<char>, JsonV>, field: Seq<char>) -> Option<JsonV> {
    if doc.contains_key(field) {
        Some(doc[field])
    } else {
        None
    }
}

/// The physical table of a table.
pub open spec fn target_of(schema_name: Seq<char>, table: Seq<char>) -> Seq<char> {
    "\""@ + schema_name + "\".\""@ + schema::table_name(table) + "\""@
}

/// A statement makes an edit that has an effect on every document.
pub open spec fn edits(
    s: StatementV,
    target: Seq<char>,
    value: JsonV,
    effect: spec_fn((Map<Seq<char>, JsonV>, Seq<char>)) -> Option<JsonV>,
) -> bool {
    exists|e: Edit, c: Choice|
        s.sql == #[trigger] edit_text(target, e, c) && forall|
            doc: Map<Seq<char>, JsonV>,
            field: Seq<char>,
        |
            field_at(#[trigger] edited(e, c, value, doc), field) == #[trigger] effect((doc, field))
}

/// A statement finds exactly the documents of a choice.
pub open spec fn finds(
    s: Option<StatementV>,
    target: Seq<char>,
    want: spec_fn(Map<Seq<char>, JsonV>) -> bool,
) -> bool {
    exists|c: Choice|
        s is Some && s->0.sql == #[trigger] find_text(target, c) && forall|
            doc: Map<Seq<char>, JsonV>,
        |
            chosen(c, doc) <==> #[trigger] want(doc)
}

/// What becomes of a field when another is renamed: what was under the old name
/// is under the new one, and nothing is under the old one.
pub open spec fn renamed_field(from: Seq<char>, to: Seq<char>) -> spec_fn(
    (Map<Seq<char>, JsonV>, Seq<char>),
) -> Option<JsonV> {
    |p: (Map<Seq<char>, JsonV>, Seq<char>)|
        if p.1 == to && field_at(p.0, from) is Some {
            field_at(p.0, from)
        } else if p.1 == from {
            None
        } else {
            field_at(p.0, p.1)
        }
}

/// What becomes of a field when another is dropped.
pub open spec fn dropped_field(field: Seq<char>) -> spec_fn(
    (Map<Seq<char>, JsonV>, Seq<char>),
) -> Option<JsonV> {
    |p: (Map<Seq<char>, JsonV>, Seq<char>)|
        if p.1 == field {
            None
        } else {
            field_at(p.0, p.1)
        }
}

/// What becomes of a field when another gets a default: a document that has the
/// field keeps what it has.
pub open spec fn defaulted_field(field: Seq<char>, value: JsonV) -> spec_fn(
    (Map<Seq<char>, JsonV>, Seq<char>),
) -> Option<JsonV> {
    |p: (Map<Seq<char>, JsonV>, Seq<char>)|
        match field_at(p.0, p.1) {
            Some(x) => Some(x),
            None => if p.1 == field {
                Some(value)
            } else {
                None
            },
        }
}

/// The documents that have a field.
pub open spec fn having(field: Seq<char>) -> spec_fn(Map<Seq<char>, JsonV>) -> bool {
    |doc: Map<Seq<char>, JsonV>| field_at(doc, field) is Some
}

/// The documents that lack a field.
pub open spec fn lacking(field: Seq<char>) -> spec_fn(Map<Seq<char>, JsonV>) -> bool {
    |doc: Map<Seq<char>, JsonV>| field_at(doc, field) is None
}

/// Renaming a field moves its value in the documents that have it, and touches
/// nothing else in any document. The documents that it reports are those.
pub proof fn law_rename_moves_the_field(
    schema_name: Seq<char>,
    old: Map<Seq<char>, TableV>,
    table: Seq<char>,
    from: Seq<char>,
    to: Seq<char>,
    indexed: bool,
    value: JsonV,
)
    requires
        from != to,
        apply::rename_field_program(schema_name, old, table, from, to, indexed) is Ok,
    ensures
        ({
            let p = apply::rename_field_program(
                schema_name,
                old,
                table,
                from,
                to,
                indexed,
            )->Ok_0;
            let target = target_of(schema_name, table);
            &&& p.rest.len() == 1
            &&& edits(p.rest[0], target, value, renamed_field(from, to))
            &&& finds(p.ids, target, having(from))
        }),
{
    let p = apply::rename_field_program(schema_name, old, table, from, to, indexed)->Ok_0;
    let target = target_of(schema_name, table);
    let e = Edit::Move(from, to);
    let c = Choice::Having(from);
    assert(p.rest[0].sql == edit_text(target, e, c));
    assert(p.ids->0.sql == find_text(target, c));
    let effect = renamed_field(from, to);
    assert forall|doc: Map<Seq<char>, JsonV>, field: Seq<char>| field_at(
        #[trigger] edited(e, c, value, doc),
        field,
    ) == #[trigger] effect((doc, field)) by {}
    let want = having(from);
    assert forall|doc: Map<Seq<char>, JsonV>| chosen(c, doc) <==> #[trigger] want(doc) by {}
}

/// Renaming a field and renaming it back leaves a document as it was, where it
/// had nothing under the new name.
pub proof fn law_rename_back_restores_documents(
    doc: Map<Seq<char>, JsonV>,
    from: Seq<char>,
    to: Seq<char>,
    value: JsonV,
)
    requires
        from != to,
        !doc.contains_key(to),
    ensures
        edited(
            Edit::Move(to, from),
            Choice::Having(to),
            value,
            edited(Edit::Move(from, to), Choice::Having(from), value, doc),
        ) == doc,
{
    let mid = edited(Edit::Move(from, to), Choice::Having(from), value, doc);
    assert(edited(Edit::Move(to, from), Choice::Having(to), value, mid) =~= doc);
}

/// Dropping a field takes it out of the documents that have it, and touches
/// nothing else in any document.
pub proof fn law_drop_removes_the_field(
    schema_name: Seq<char>,
    old: Map<Seq<char>, TableV>,
    table: Seq<char>,
    field: Seq<char>,
    value: JsonV,
)
    requires
        apply::drop_field_program(schema_name, old, table, field) is Ok,
    ensures
        ({
            let p = apply::drop_field_program(schema_name, old, table, field)->Ok_0;
            let target = target_of(schema_name, table);
            &&& p.rest.len() == 2
            &&& edits(p.rest[0], target, value, dropped_field(field))
            &&& finds(p.ids, target, having(field))
        }),
{
    let p = apply::drop_field_program(schema_name, old, table, field)->Ok_0;
    let target = target_of(schema_name, table);
    let e = Edit::Drop(field);
    let c = Choice::Having(field);
    assert(p.rest[0].sql == edit_text(target, e, c));
    assert(p.ids->0.sql == find_text(target, c));
    let effect = dropped_field(field);
    assert forall|doc: Map<Seq<char>, JsonV>, f: Seq<char>| field_at(
        #[trigger] edited(e, c, value, doc),
        f,
    ) == #[trigger] effect((doc, f)) by {}
    let want = having(field);
    assert forall|doc: Map<Seq<char>, JsonV>| chosen(c, doc) <==> #[trigger] want(doc) by {}
}

/// A default goes into the documents that lack the field, as the value given, and
/// touches nothing else in any document.
pub proof fn law_default_fills_the_gaps(
    schema_name: Seq<char>,
    table: Seq<char>,
    field: Seq<char>,
    value: JsonV,
    column: Option<(Seq<char>, Seq<char>, Seq<char>)>,
)
    requires
        apply::set_default_program(schema_name, table, field, value, column) is Ok,
    ensures
        ({
            let p = apply::set_default_program(schema_name, table, field, value, column)->Ok_0;
            let target = target_of(schema_name, table);
            &&& p.rest.len() > 0
            &&& edits(p.rest[0], target, value, defaulted_field(field, value))
            &&& Ok::<Seq<MigrateBindV>, ErrorV>(p.rest[0].binds) == match apply::json_text(value) {
                Ok(s) => Ok(seq![MigrateBindV::Text(s)]),
                Err(e) => Err(e),
            }
            &&& finds(p.ids, target, lacking(field))
        }),
{
    let p = apply::set_default_program(schema_name, table, field, value, column)->Ok_0;
    let target = target_of(schema_name, table);
    let e = Edit::Put(field);
    let c = Choice::Lacking(field);
    assert(p.rest[0].sql == edit_text(target, e, c));
    assert(p.ids->0.sql == find_text(target, c));
    let effect = defaulted_field(field, value);
    assert forall|doc: Map<Seq<char>, JsonV>, f: Seq<char>| field_at(
        #[trigger] edited(e, c, value, doc),
        f,
    ) == #[trigger] effect((doc, f)) by {}
    let want = lacking(field);
    assert forall|doc: Map<Seq<char>, JsonV>| chosen(c, doc) <==> #[trigger] want(doc) by {}
}

/// A change of type is for the documents that have the field.
pub proof fn law_change_of_type_finds_what_has_the_field(
    schema_name: Seq<char>,
    old: Map<Seq<char>, TableV>,
    table: Seq<char>,
    field: Seq<char>,
    cast: Cast,
    default: Option<JsonV>,
    indexable: bool,
    column: Option<(Seq<char>, Seq<char>, Seq<char>)>,
)
    requires
        apply::change_type_program(
            schema_name,
            old,
            table,
            field,
            cast,
            default,
            indexable,
            column,
        ) is Ok,
    ensures
        finds(
            apply::change_type_program(
                schema_name,
                old,
                table,
                field,
                cast,
                default,
                indexable,
                column,
            )->Ok_0.ids,
            target_of(schema_name, table),
            having(field),
        ),
        default matches Some(d) ==> coerce::coerced(cast, d) is Some,
{
    let p = apply::change_type_program(
        schema_name,
        old,
        table,
        field,
        cast,
        default,
        indexable,
        column,
    )->Ok_0;
    let c = Choice::Having(field);
    assert(p.ids->0.sql == find_text(target_of(schema_name, table), c));
    let want = having(field);
    assert forall|doc: Map<Seq<char>, JsonV>| chosen(c, doc) <==> #[trigger] want(doc) by {}
}

/// A value is stored in a field of a scalar type. A 64-bit integer is stored as
/// its text.
pub open spec fn is_stored_as(v: JsonV, ty: TypeV) -> bool {
    match ty {
        TypeV::String => v is String,
        TypeV::Number => v is Number,
        TypeV::Boolean => v is Bool,
        TypeV::Int64 => v matches JsonV::String(s) && crate::text::int64_value(s) is Some,
        _ => false,
    }
}

/// A planned cast from booleans converts every value, and so does one from numbers
/// to text or booleans, and one to text from anything; no cast that converts no
/// boolean is planned for booleans.
pub proof fn law_planned_casts_convert(cast: Cast, ty: TypeV, v: JsonV)
    requires
        is_stored_as(v, ty),
    ensures
        plan::castable(cast, ty) && (ty is Boolean || cast is ToString || (ty is Number && cast
            is ToBoolean)) ==> coerce::coerced(cast, v) is Some,
        ty is Boolean ==> (plan::castable(cast, ty) <==> coerce::coerced(cast, v) is Some),
{
}

/// What a cast yields is stored in a field of the type that the cast leads to.
pub proof fn law_cast_value_is_stored_as_its_target(cast: Cast, v: JsonV)
    ensures
        coerce::coerced(cast, v) matches Some(w) ==> is_stored_as(w, plan::cast_target(cast)),
        plan::target_fits(cast, plan::cast_target(cast)),
        plan::cast_target(cast) == match cast {
            Cast::ToString => TypeV::String,
            Cast::ToNumber => TypeV::Number,
            Cast::ToInt64 => TypeV::Int64,
            Cast::ToBoolean => TypeV::Boolean,
        },
{
    if cast is ToInt64 {
        match v {
            JsonV::String(s) => {
                crate::migrate::casts::law_cast_to_int64_keeps_value(s);
            },
            JsonV::Number(n) => {
                crate::migrate::casts::law_integer_number_keeps_value(n);
            },
            _ => {},
        }
    }
}

/// A text, with the binds of a migration statement from one on, holds of the rows
/// whose documents meet a filter.
pub open spec fn selects_by(
    sql: Seq<char>,
    f: FilterV,
    t: TableV,
    binds: Seq<MigrateBindV>,
    from: nat,
) -> bool {
    exists|env: Seq<BindV>| #[trigger]
        agreement::means_filter(sql, f, t, FilterUse::Read, env) && env.len() == binds.len()
            && forall|i: int|
            from <= i < binds.len() ==> effects::migrate_bind(#[trigger] env[i]) == binds[i]
}

/// An expression is evaluated for the documents that meet its condition: these are
/// found, and the field is set in these and no others.
pub proof fn law_evaluation_changes_what_it_finds(
    schema_name: Seq<char>,
    derived: Map<Seq<char>, TableV>,
    table: Seq<char>,
    set: Seq<char>,
    expr: CompiledExprV,
    f: FilterV,
)
    requires
        apply::eval_typed_program(
            schema_name,
            derived,
            table,
            set,
            expr,
            Some(CondV::Typed(f)),
        ) is Ok,
    ensures
        ({
            let p = apply::eval_typed_program(
                schema_name,
                derived,
                table,
                set,
                expr,
                Some(CondV::Typed(f)),
            )->Ok_0;
            let target = target_of(schema_name, table);
            let head = "UPDATE "@ + target + " SET doc = jsonb_set(doc, "@ + path_text(set)
                + ", to_jsonb(("@ + expr.sql + ")), true) WHERE "@;
            &&& p.ids is Some && p.rest.len() == 1 && derived.contains_key(table)
            &&& exists|found: Seq<char>| #[trigger]
                selects_by(found, f, derived[table], p.ids->0.binds, 0) && p.ids->0.sql
                    == "SELECT id FROM "@ + target + " WHERE "@ + found
            &&& exists|changed: Seq<char>| #[trigger]
                selects_by(changed, f, derived[table], p.rest[0].binds, expr.binds.len())
                    && p.rest[0].sql == head + changed
            &&& forall|i: int|
                0 <= i < expr.binds.len() ==> p.rest[0].binds[i] == #[trigger] expr.binds[i]
        }),
{
    let p = apply::eval_typed_program(
        schema_name,
        derived,
        table,
        set,
        expr,
        Some(CondV::Typed(f)),
    )->Ok_0;
    let t = derived[table];
    let (find, find_binds) = filter::client_filter_sql(f, t, 1, None)->Ok_0;
    let n = 1 + expr.binds.len();
    let (change, change_binds) = filter::client_filter_sql(f, t, n, None)->Ok_0;
    agreement::law_filter_text_means_filter(f, t, 1, 0, FilterUse::Read, find_binds);
    assert(selects_by(find, f, t, p.ids->0.binds, 0));
    let unused = Seq::new(expr.binds.len(), |i: int| BindV::Bool(false));
    let env = unused + change_binds;
    assert forall|i: int| 0 <= i < change_binds.len() implies env[n + 0 - 1 + i]
        == #[trigger] change_binds[i] by {}
    agreement::law_filter_text_means_filter(f, t, n, 0, FilterUse::Read, env);
    let all = p.rest[0].binds;
    assert forall|i: int| expr.binds.len() <= i < all.len() implies effects::migrate_bind(
        #[trigger] env[i],
    ) == all[i] by {
        assert(env[i] == change_binds[i - expr.binds.len()]);
    }
    assert(selects_by(change, f, t, all, expr.binds.len()));
}

} // verus!
