//! Planning a migration: the directives folded into the schema in order, each
//! checked against the schema that the ones before it leave.
#[allow(unused_imports)]
use vstd::prelude::*;
#[allow(unused_imports)]
use vstd::string::*;

use crate::dsl;
use crate::dsl::{Cast, FilterExpr, FilterV, ListOp, ValueExpr, ValueShape, ValueV};
use crate::error;
use crate::error::{ErrorV, RtDbError};
use crate::json;
use crate::json::{Json, JsonV};
use crate::migrate::ids;
use crate::migrate::ids::retarget;
use crate::migrate::refs;
use crate::migrate::refs::{
    filter_expr_references_field, rename, rename_filter_fields, rename_value_expr_fields,
    value_expr_references_field,
};
use crate::query::filter;
use crate::query::filter::validate_filter_expr_fields;
use crate::query::warnings;
use crate::schema;
use crate::schema::{
    FieldType, IndexDef, IndexV, SchemaDef, TableDef, TableV, TypeV, MAX_FIELD_NAME_LEN,
};
use crate::strmap;
use crate::strmap::StrMap;
use crate::text;
use crate::text::{cat3, cat5, is_valid_identifier, same};

verus! {

/// The value of an evaluation: an expression, or statement text as it stands.
#[derive(Debug)]
pub enum ExprSource {
    Typed(ValueExpr),
    Legacy(String),
}

/// The condition of an evaluation: a filter, or statement text as it stands.
#[derive(Debug)]
pub enum CondSource {
    Typed(FilterExpr),
    Legacy(String),
}

/// One step of a migration.
#[derive(Debug)]
pub enum Directive {
    RenameField { table: String, from: String, to: String },
    RenameTable { from: String, to: String },
    ChangeType { table: String, field: String, to: FieldType, cast: Cast, default: Option<Json> },
    DropField { table: String, field: String },
    DropTable { name: String },
    DropIndex { table: String, name: String },
    SetDefault { table: String, field: String, value: Json },
    EvalExpr { table: String, set: String, expr: ExprSource, where_clause: Option<CondSource> },
}

/// The mathematical form of the value of an evaluation.
pub enum ExprV {
    Typed(ValueV),
    Legacy(Seq<char>),
}

/// The mathematical form of the condition of an evaluation.
pub enum CondV {
    Typed(FilterV),
    Legacy(Seq<char>),
}

/// The mathematical form of a step.
pub enum DirectiveV {
    RenameField(Seq<char>, Seq<char>, Seq<char>),
    RenameTable(Seq<char>, Seq<char>),
    ChangeType(Seq<char>, Seq<char>, TypeV, Cast, Option<JsonV>),
    DropField(Seq<char>, Seq<char>),
    DropTable(Seq<char>),
    DropIndex(Seq<char>, Seq<char>),
    SetDefault(Seq<char>, Seq<char>, JsonV),
    EvalExpr(Seq<char>, Seq<char>, ExprV, Option<CondV>),
}

impl View for ExprSource {
    type V = ExprV;

    open spec fn view(&self) -> ExprV {
        match self {
            ExprSource::Typed(e) => ExprV::Typed(e@),
            ExprSource::Legacy(s) => ExprV::Legacy(s@),
        }
    }
}

impl View for CondSource {
    type V = CondV;

    open spec fn view(&self) -> CondV {
        match self {
            CondSource::Typed(f) => CondV::Typed(f@),
            CondSource::Legacy(s) => CondV::Legacy(s@),
        }
    }
}

impl View for Directive {
    type V = DirectiveV;

    open spec fn view(&self) -> DirectiveV {
        match self {
            Directive::RenameField { table, from, to } => DirectiveV::RenameField(
                table@,
                from@,
                to@,
            ),
            Directive::RenameTable { from, to } => DirectiveV::RenameTable(from@, to@),
            Directive::ChangeType { table, field, to, cast, default } => DirectiveV::ChangeType(
                table@,
                field@,
                to@,
                *cast,
                schema::opt_view(*default),
            ),
            Directive::DropField { table, field } => DirectiveV::DropField(table@, field@),
            Directive::DropTable { name } => DirectiveV::DropTable(name@),
            Directive::DropIndex { table, name } => DirectiveV::DropIndex(table@, name@),
            Directive::SetDefault { table, field, value } => DirectiveV::SetDefault(
                table@,
                field@,
                value@,
            ),
            Directive::EvalExpr { table, set, expr, where_clause } => DirectiveV::EvalExpr(
                table@,
                set@,
                expr@,
                schema::opt_view(*where_clause),
            ),
        }
    }
}

/// The views of a sequence of directives.
pub open spec fn directive_views(v: Seq<Directive>) -> Seq<DirectiveV> {
    Seq::new(v.len(), |i: int| v[i]@)
}

/// A field of a table, as messages name it.
pub open spec fn field_path(table: Seq<char>, field: Seq<char>) -> Seq<char> {
    table + "."@ + field
}

/// A field of a table, as messages name it.
pub fn field_path_text(table: &str, field: &str) -> (s: String)
    ensures
        s@ == field_path(table@, field@),
{
    cat3(table, ".", field)
}

/// A bad-request error about a field of a table.
pub open spec fn field_error(
    pre: Seq<char>,
    table: Seq<char>,
    field: Seq<char>,
    post: Seq<char>,
) -> ErrorV {
    error::bad(pre + field_path(table, field) + post)
}

fn field_refused(pre: &str, table: &str, field: &str, post: &str) -> (e: RtDbError)
    ensures
        e@ == field_error(pre@, table@, field@, post@),
{
    RtDbError::bad_request(cat3(pre, field_path_text(table, field).as_str(), post))
}

/// A map after its key `from` became `to`.
pub open spec fn rekeyed<V>(m: Map<Seq<char>, V>, from: Seq<char>, to: Seq<char>) -> Map<
    Seq<char>,
    V,
> {
    if m.contains_key(from) {
        m.remove(from).insert(to, m[from])
    } else {
        m
    }
}

/// An optional name after a rename.
pub open spec fn renamed_opt(o: Option<Seq<char>>, from: Seq<char>, to: Seq<char>) -> Option<
    Seq<char>,
> {
    match o {
        Some(s) => Some(refs::renamed(s, from, to)),
        None => None,
    }
}

/// Names after a rename.
pub open spec fn renamed_names(v: Seq<Seq<char>>, from: Seq<char>, to: Seq<char>) -> Seq<
    Seq<char>,
> {
    Seq::new(v.len(), |i: int| refs::renamed(v[i], from, to))
}

/// Indexes after a rename of a field.
pub open spec fn renamed_indexes(v: Seq<IndexV>, from: Seq<char>, to: Seq<char>) -> Seq<IndexV> {
    Seq::new(v.len(), |i: int| IndexV { fields: renamed_names(v[i].fields, from, to), ..v[i] })
}

/// Computed fields after a rename: an entry for the renamed field moves with it,
/// and every expression reads the new name.
pub open spec fn renamed_computed(
    m: Map<Seq<char>, ValueV>,
    from: Seq<char>,
    to: Seq<char>,
) -> Map<Seq<char>, ValueV> {
    let moved = rekeyed(m, from, to);
    Map::new(
        |k: Seq<char>| moved.contains_key(k),
        |k: Seq<char>| refs::renamed_value(moved[k], from, to),
    )
}

/// A table after a rename of a field, with everything that names the field.
pub open spec fn field_renamed(t: TableV, from: Seq<char>, to: Seq<char>) -> TableV {
    TableV {
        fields: rekeyed(t.fields, from, to),
        indexes: renamed_indexes(t.indexes, from, to),
        owner_field: renamed_opt(t.owner_field, from, to),
        collaborators_field: renamed_opt(t.collaborators_field, from, to),
        auto_increment_field: renamed_opt(t.auto_increment_field, from, to),
        authorize: match t.authorize {
            Some(f) => Some(refs::renamed_filter(f, from, to)),
            None => None,
        },
        computed: renamed_computed(t.computed, from, to),
        defaults: rekeyed(t.defaults, from, to),
        ..t
    }
}

/// The effect of renaming a field.
pub open spec fn rename_field_step(
    t: TableV,
    table: Seq<char>,
    from: Seq<char>,
    to: Seq<char>,
) -> Result<TableV, ErrorV> {
    if t.fields.contains_key(to) {
        Err(field_error("rename target '"@, table, to, "' already exists"@))
    } else if !t.fields.contains_key(from) {
        Err(field_error("renamed field '"@, table, from, "' does not exist"@))
    } else {
        Ok(field_renamed(t, from, to))
    }
}

fn rename_opt(o: Option<String>, from: &str, to: &str) -> (r: Option<String>)
    ensures
        text::opt_str(r) == renamed_opt(text::opt_str(o), from@, to@),
{
    match o {
        Some(s) => Some(rename(&s, from, to)),
        None => None,
    }
}

fn rename_names(v: &Vec<String>, from: &str, to: &str) -> (r: Vec<String>)
    ensures
        text::strs(r@) == renamed_names(text::strs(v@), from@, to@),
{
    let mut out: Vec<String> = Vec::new();
    let mut i: usize = 0;
    while i < v.len()
        invariant
            i <= v@.len(),
            out@.len() == i,
            forall|k: int|
                0 <= k < i ==> (#[trigger] out@[k])@ == refs::renamed(v@[k]@, from@, to@),
        decreases v@.len() - i,
    {
        out.push(rename(&v[i], from, to));
        i = i + 1;
    }
    assert(text::strs(out@) =~= renamed_names(text::strs(v@), from@, to@));
    out
}

fn rename_indexes(v: &Vec<IndexDef>, from: &str, to: &str) -> (r: Vec<IndexDef>)
    ensures
        schema::index_views(r@) == renamed_indexes(schema::index_views(v@), from@, to@),
{
    let ghost vs = schema::index_views(v@);
    let mut out: Vec<IndexDef> = Vec::new();
    let mut i: usize = 0;
    while i < v.len()
        invariant
            i <= v@.len(),
            out@.len() == i,
            vs == schema::index_views(v@),
            forall|k: int|
                0 <= k < i ==> (#[trigger] out@[k])@ == renamed_indexes(vs, from@, to@)[k],
        decreases v@.len() - i,
    {
        let mut ix = v[i].copy();
        ix.fields = rename_names(&v[i].fields, from, to);
        assert(ix@ == renamed_indexes(vs, from@, to@)[i as int]);
        out.push(ix);
        i = i + 1;
    }
    assert(schema::index_views(out@) =~= renamed_indexes(vs, from@, to@));
    out
}

fn rename_computed(m: StrMap<ValueExpr>, from: &str, to: &str) -> (r: StrMap<ValueExpr>)
    ensures
        r@ == renamed_computed(m@, from@, to@),
{
    let ghost given = m@;
    let mut m = m;
    if let Some(e) = m.remove(from) {
        m.insert(to.to_owned(), e);
    } else {
        assert(m@ =~= given);
    }
    let ghost moved = rekeyed(given, from@, to@);
    assert(m@ == moved);
    let n: usize = m.len();
    let ghost keys = m.keys();
    proof {
        m.lemma_keys();
    }
    let mut i: usize = 0;
    while i < n
        invariant
            i <= n,
            n == keys.len(),
            m.keys() == keys,
            keys.no_duplicates(),
            m@.dom() == moved.dom(),
            forall|k: int|
                0 <= k < n ==> moved.contains_key(#[trigger] keys[k]) && m@[keys[k]] == (if k < i {
                    refs::renamed_value(moved[keys[k]], from@, to@)
                } else {
                    moved[keys[k]]
                }),
        decreases n - i,
    {
        let e = rename_value_expr_fields(m.value_at(i), from, to);
        let ghost before = m@;
        m.set_at(i, e);
        assert(m@.dom() =~= moved.dom());
        i = i + 1;
    }
    proof {
        assert forall|k: Seq<char>| #[trigger] m@.contains_key(k) implies m@[k]
            == refs::renamed_value(moved[k], from@, to@) by {
            assert(moved.contains_key(k));
            assert(keys.contains(k));
            let p = keys.index_of(k);
            assert(keys[p] == k);
        }
        assert(m@ =~= renamed_computed(given, from@, to@));
    }
    m
}

fn rename_field_in(t: TableDef, table: &str, from: &str, to: &str) -> (r: Result<
    TableDef,
    RtDbError,
>)
    ensures
        match rename_field_step(t@, table@, from@, to@) {
            Ok(v) => r matches Ok(x) && x@ == v,
            Err(e) => r matches Err(x) && x@ == e,
        },
{
    let mut fields = t.fields;
    if fields.contains_key(to) {
        return Err(field_refused("rename target '", table, to, "' already exists"));
    }
    match fields.remove(from) {
        Some(ft) => {
            fields.insert(to.to_owned(), ft);
        },
        None => {
            return Err(field_refused("renamed field '", table, from, "' does not exist"));
        },
    }
    let authorize = match &t.authorize {
        Some(f) => Some(rename_filter_fields(f, from, to)),
        None => None,
    };
    let ghost given = t.defaults@;
    let mut defaults = t.defaults;
    if let Some(v) = defaults.remove(from) {
        defaults.insert(to.to_owned(), v);
    } else {
        assert(defaults@ =~= given);
    }
    Ok(
        TableDef {
            fields,
            indexes: rename_indexes(&t.indexes, from, to),
            owner_field: rename_opt(t.owner_field, from, to),
            collaborators_field: rename_opt(t.collaborators_field, from, to),
            ttl: t.ttl,
            updated_at_field: t.updated_at_field,
            auto_increment_field: rename_opt(t.auto_increment_field, from, to),
            authorize,
            soft_delete: t.soft_delete,
            defaults,
            computed: rename_computed(t.computed, from, to),
        },
    )
}

/// A table after a rename of a table.
pub open spec fn table_retargeted(t: TableV, from: Seq<char>, to: Seq<char>) -> TableV {
    TableV {
        fields: Map::new(
            |k: Seq<char>| t.fields.contains_key(k),
            |k: Seq<char>| ids::retargeted(t.fields[k], from, to),
        ),
        ..t
    }
}

/// The effect of renaming a table: every id of the table follows it, its own
/// included.
pub open spec fn rename_table_step(
    s: Map<Seq<char>, TableV>,
    from: Seq<char>,
    to: Seq<char>,
) -> Result<Map<Seq<char>, TableV>, ErrorV> {
    if s.contains_key(to) {
        Err(error::bad("rename target table '"@ + to + "' already exists"@))
    } else if !s.contains_key(from) {
        Err(error::bad("renamed table '"@ + from + "' does not exist"@))
    } else {
        let moved = rekeyed(s, from, to);
        Ok(
            Map::new(
                |k: Seq<char>| moved.contains_key(k),
                |k: Seq<char>| table_retargeted(moved[k], from, to),
            ),
        )
    }
}

fn retarget_fields(m: StrMap<FieldType>, from: &str, to: &str) -> (r: StrMap<FieldType>)
    ensures
        r@.dom() == m@.dom(),
        forall|k: Seq<char>| #[trigger]
            r@.contains_key(k) ==> r@[k] == ids::retargeted(m@[k], from@, to@),
{
    let ghost given = m@;
    let mut m = m;
    let n: usize = m.len();
    let ghost keys = m.keys();
    proof {
        m.lemma_keys();
    }
    let mut i: usize = 0;
    while i < n
        invariant
            i <= n,
            n == keys.len(),
            m.keys() == keys,
            keys.no_duplicates(),
            m@.dom() == given.dom(),
            forall|k: int|
                0 <= k < n ==> given.contains_key(#[trigger] keys[k]) && m@[keys[k]] == (if k < i {
                    ids::retargeted(given[keys[k]], from@, to@)
                } else {
                    given[keys[k]]
                }),
        decreases n - i,
    {
        let ft = retarget(m.value_at(i), from, to);
        m.set_at(i, ft);
        assert(m@.dom() =~= given.dom());
        i = i + 1;
    }
    proof {
        assert forall|k: Seq<char>| #[trigger] m@.contains_key(k) implies m@[k] == ids::retargeted(
            given[k],
            from@,
            to@,
        ) by {
            assert(given.contains_key(k));
            assert(keys.contains(k));
            let p = keys.index_of(k);
            assert(keys[p] == k);
        }
    }
    m
}

fn retarget_table(t: &TableDef, from: &str, to: &str) -> (r: TableDef)
    ensures
        r@ == table_retargeted(t@, from@, to@),
{
    let mut out = t.copy();
    let fields = retarget_fields(t.fields.copied(), from, to);
    proof {
        assert(fields@ =~= table_retargeted(t@, from@, to@).fields);
    }
    out.fields = fields;
    out
}

fn rename_table_in(s: SchemaDef, from: &str, to: &str) -> (r: Result<SchemaDef, RtDbError>)
    ensures
        match rename_table_step(s@, from@, to@) {
            Ok(v) => r matches Ok(x) && x@ == v,
            Err(e) => r matches Err(x) && x@ == e,
        },
{
    let ghost given = s@;
    let mut m = s.tables;
    if m.contains_key(to) {
        return Err(
            RtDbError::bad_request(cat3("rename target table '", to, "' already exists")),
        );
    }
    match m.remove(from) {
        Some(def) => {
            m.insert(to.to_owned(), def);
        },
        None => {
            return Err(RtDbError::bad_request(cat3("renamed table '", from, "' does not exist")));
        },
    }
    let ghost moved = rekeyed(given, from@, to@);
    let n: usize = m.len();
    let ghost keys = m.keys();
    proof {
        m.lemma_keys();
    }
    let mut i: usize = 0;
    while i < n
        invariant
            i <= n,
            n == keys.len(),
            m.keys() == keys,
            keys.no_duplicates(),
            m@.dom() == moved.dom(),
            forall|k: int|
                0 <= k < n ==> moved.contains_key(#[trigger] keys[k]) && m@[keys[k]] == (if k < i {
                    table_retargeted(moved[keys[k]], from@, to@)
                } else {
                    moved[keys[k]]
                }),
        decreases n - i,
    {
        let t = retarget_table(m.value_at(i), from, to);
        m.set_at(i, t);
        assert(m@.dom() =~= moved.dom());
        i = i + 1;
    }
    proof {
        assert forall|k: Seq<char>| #[trigger] m@.contains_key(k) implies m@[k] == table_retargeted(
            moved[k],
            from@,
            to@,
        ) by {
            assert(moved.contains_key(k));
            assert(keys.contains(k));
            let p = keys.index_of(k);
            assert(keys[p] == k);
        }
        assert(m@ =~= rename_table_step(given, from@, to@)->Ok_0);
    }
    Ok(SchemaDef { tables: m })
}

/// A cast can convert values of the type.
pub open spec fn castable(cast: Cast, old: TypeV) -> bool {
    match cast {
        Cast::ToString => old is String || old is Number || old is Boolean || old is Int64,
        Cast::ToNumber => old is String || old is Boolean || old is Int64,
        Cast::ToInt64 => old is String || old is Number,
        Cast::ToBoolean => old is String || old is Number,
    }
}

/// Whether a cast can convert values of the type.
pub fn cast_valid_for(cast: Cast, old: &FieldType) -> (r: bool)
    ensures
        r == castable(cast, old@),
{
    let string = matches!(old, FieldType::String);
    let number = matches!(old, FieldType::Number);
    let boolean = matches!(old, FieldType::Boolean);
    let int64 = matches!(old, FieldType::Int64);
    match cast {
        Cast::ToString => string || number || boolean || int64,
        Cast::ToNumber => string || boolean || int64,
        Cast::ToInt64 => string || number,
        Cast::ToBoolean => string || number,
    }
}

/// The type of the values that a cast yields.
pub open spec fn cast_target(cast: Cast) -> TypeV {
    match cast {
        Cast::ToString => TypeV::String,
        Cast::ToNumber => TypeV::Number,
        Cast::ToInt64 => TypeV::Int64,
        Cast::ToBoolean => TypeV::Boolean,
    }
}

/// A cast leads to the type: the type is that of the cast or any, or it is
/// optional or a union and holds such a type. A cast to text leads to ids, bytes
/// and literal texts too, the others to literals of their kind.
pub open spec fn target_fits(cast: Cast, to: TypeV) -> bool
    decreases to,
{
    match to {
        TypeV::Any => true,
        TypeV::Optional(inner) => target_fits(cast, *inner),
        TypeV::Union(vs) => exists|i: int| 0 <= i < vs.len() && target_fits(cast, #[trigger] vs[i]),
        TypeV::Id(_, _) => cast == Cast::ToString,
        TypeV::Bytes => cast == Cast::ToString,
        TypeV::Literal(JsonV::String(_)) => cast == Cast::ToString,
        TypeV::Literal(JsonV::Number(_)) => cast == Cast::ToNumber,
        TypeV::Literal(JsonV::Bool(_)) => cast == Cast::ToBoolean,
        _ => to == cast_target(cast),
    }
}

proof fn lemma_variant_fits(cast: Cast, vs: Seq<TypeV>, i: int)
    requires
        0 <= i < vs.len(),
        target_fits(cast, vs[i]),
    ensures
        target_fits(cast, TypeV::Union(vs)),
{
    let to = TypeV::Union(vs);
    assert(to->Union_0 == vs);
    assert(target_fits(cast, to->Union_0[i]));
    assert(exists|i: int| 0 <= i < vs.len() && target_fits(cast, #[trigger] vs[i]));
}

/// Whether a cast leads to the type.
pub fn cast_yields(cast: Cast, to: &FieldType) -> (r: bool)
    ensures
        r == target_fits(cast, to@),
    decreases to,
{
    broadcast use schema::lemma_type_view;

    match to {
        FieldType::Any => true,
        FieldType::Optional { inner } => cast_yields(cast, inner),
        FieldType::Union { variants } => {
            let ghost vs = schema::type_views(variants@);
            let mut i: usize = 0;
            while i < variants.len()
                invariant
                    i <= variants@.len(),
                    *to == (FieldType::Union { variants: *variants }),
                    to@ == TypeV::Union(vs),
                    vs == schema::type_views(variants@),
                    forall|k: int| 0 <= k < i ==> !target_fits(cast, #[trigger] vs[k]),
                decreases variants@.len() - i,
            {
                assert(decreases_to!(*variants => variants[i as int]));
                assert(decreases_to!(*to => to->Union_variants));
                if cast_yields(cast, &variants[i]) {
                    proof {
                        lemma_variant_fits(cast, vs, i as int);
                    }
                    return true;
                }
                i = i + 1;
            }
            false
        },
        FieldType::String => matches!(cast, Cast::ToString),
        FieldType::Id { .. } => matches!(cast, Cast::ToString),
        FieldType::Bytes => matches!(cast, Cast::ToString),
        FieldType::Literal { value } => literal_of(cast, value),
        FieldType::Number => matches!(cast, Cast::ToNumber),
        FieldType::Int64 => matches!(cast, Cast::ToInt64),
        FieldType::Boolean => matches!(cast, Cast::ToBoolean),
        _ => false,
    }
}

fn literal_of(cast: Cast, value: &Json) -> (r: bool)
    ensures
        r == target_fits(cast, TypeV::Literal(value@)),
{
    broadcast use json::lemma_json_view;

    match value {
        Json::String(_) => matches!(cast, Cast::ToString),
        Json::Number(_) => matches!(cast, Cast::ToNumber),
        Json::Bool(_) => matches!(cast, Cast::ToBoolean),
        _ => false,
    }
}

/// The name of a cast in messages.
pub open spec fn cast_name(cast: Cast) -> Seq<char> {
    match cast {
        Cast::ToString => "ToString"@,
        Cast::ToNumber => "ToNumber"@,
        Cast::ToInt64 => "ToInt64"@,
        Cast::ToBoolean => "ToBoolean"@,
    }
}

/// The name of a cast in messages.
pub fn cast_text(cast: Cast) -> (s: &'static str)
    ensures
        s@ == cast_name(cast),
{
    match cast {
        Cast::ToString => "ToString",
        Cast::ToNumber => "ToNumber",
        Cast::ToInt64 => "ToInt64",
        Cast::ToBoolean => "ToBoolean",
    }
}

/// The effect of changing the type of a field, where the cast leads from the old
/// type to the new one: its default, given for the old type, goes.
pub open spec fn change_type_step(
    t: TableV,
    table: Seq<char>,
    field: Seq<char>,
    to: TypeV,
    cast: Cast,
) -> Result<TableV, ErrorV> {
    if !t.fields.contains_key(field) {
        Err(field_error("changed field '"@, table, field, "' does not exist"@))
    } else if !castable(cast, t.fields[field]) || !target_fits(cast, to) {
        Err(
            error::bad(
                "cast "@ + cast_name(cast) + " is not valid for "@ + field_path(table, field),
            ),
        )
    } else {
        Ok(
            TableV {
                fields: t.fields.insert(field, to),
                defaults: t.defaults.remove(field),
                ..t
            },
        )
    }
}

fn change_type_in(t: TableDef, table: &str, field: &str, to: &FieldType, cast: Cast) -> (r: Result<
    TableDef,
    RtDbError,
>)
    ensures
        match change_type_step(t@, table@, field@, to@, cast) {
            Ok(v) => r matches Ok(x) && x@ == v,
            Err(e) => r matches Err(x) && x@ == e,
        },
{
    let mut t = t;
    let valid = match t.fields.get(field) {
        Some(old) => cast_valid_for(cast, old) && cast_yields(cast, to),
        None => {
            return Err(field_refused("changed field '", table, field, "' does not exist"));
        },
    };
    if !valid {
        return Err(
            RtDbError::bad_request(
                text::cat4(
                    "cast ",
                    cast_text(cast),
                    " is not valid for ",
                    field_path_text(table, field).as_str(),
                ),
            ),
        );
    }
    t.fields.insert(field.to_owned(), to.copy());
    let gone = t.defaults.remove(field);
    Ok(t)
}

/// Names without one of them.
pub open spec fn names_without(v: Seq<Seq<char>>, name: Seq<char>) -> Seq<Seq<char>>
    decreases v.len(),
{
    if v.len() == 0 {
        Seq::empty()
    } else if v.last() == name {
        names_without(v.drop_last(), name)
    } else {
        names_without(v.drop_last(), name).push(v.last())
    }
}

/// Indexes whose keys leave out a field.
pub open spec fn indexes_without(v: Seq<IndexV>, field: Seq<char>) -> Seq<IndexV> {
    Seq::new(v.len(), |i: int| IndexV { fields: names_without(v[i].fields, field), ..v[i] })
}

/// An optional name, unless it is the given one.
pub open spec fn opt_without(o: Option<Seq<char>>, name: Seq<char>) -> Option<Seq<char>> {
    if o == Some(name) {
        None
    } else {
        o
    }
}

/// The computed field reads the given field.
pub open spec fn reads(computed: Map<Seq<char>, ValueV>, field: Seq<char>, k: Seq<char>) -> bool {
    computed.contains_key(k) && refs::value_mentions(computed[k], field)
}

/// The first computed field, by name, that reads the given field.
pub open spec fn is_first_reader(
    computed: Map<Seq<char>, ValueV>,
    field: Seq<char>,
    k: Seq<char>,
) -> bool {
    &&& reads(computed, field, k)
    &&& forall|other: Seq<char>| #[trigger]
        reads(computed, field, other) ==> other == k || text::chars_lt(k, other)
}

/// The first computed field, by name, that reads the given field, if any does.
pub open spec fn first_reader(computed: Map<Seq<char>, ValueV>, field: Seq<char>) -> Option<
    Seq<char>,
> {
    if exists|k: Seq<char>| #[trigger] reads(computed, field, k) {
        Some(choose|k: Seq<char>| is_first_reader(computed, field, k))
    } else {
        None
    }
}

/// Among finitely many names one comes before all others.
proof fn lemma_first_name(names: Set<Seq<char>>) -> (k: Seq<char>)
    requires
        names.finite(),
        names.len() > 0,
    ensures
        names.contains(k),
        forall|other: Seq<char>| #[trigger]
            names.contains(other) ==> other == k || text::chars_lt(k, other),
    decreases names.len(),
{
    let some = names.choose();
    let rest = names.remove(some);
    if rest.len() == 0 {
        assert forall|other: Seq<char>| #[trigger] names.contains(other) implies other == some by {
            if other != some {
                assert(rest.contains(other));
            }
        }
        some
    } else {
        let first = lemma_first_name(rest);
        text::lemma_chars_lt_total(some, first);
        let k = if text::chars_lt(some, first) {
            some
        } else {
            first
        };
        assert forall|other: Seq<char>| #[trigger] names.contains(other) implies other == k
            || text::chars_lt(k, other) by {
            if other != some {
                assert(rest.contains(other));
                if k == some && other != first {
                    text::lemma_chars_lt_transitive(some, first, other);
                }
            }
        }
        k
    }
}

/// Where some computed field reads the given field, there is a first one, and
/// `first_reader` gives it.
pub proof fn law_first_reader_exists(computed: Map<Seq<char>, ValueV>, field: Seq<char>)
    requires
        computed.dom().finite(),
    ensures
        match first_reader(computed, field) {
            Some(k) => is_first_reader(computed, field, k),
            None => forall|k: Seq<char>| !(#[trigger] reads(computed, field, k)),
        },
{
    if exists|k: Seq<char>| #[trigger] reads(computed, field, k) {
        let readers = computed.dom().filter(|k: Seq<char>| reads(computed, field, k));
        let some = choose|k: Seq<char>| #[trigger] reads(computed, field, k);
        assert(readers.contains(some));
        let k = lemma_first_name(readers);
        assert forall|other: Seq<char>| #[trigger] reads(computed, field, other) implies other == k
            || text::chars_lt(k, other) by {
            assert(readers.contains(other));
        }
        assert(is_first_reader(computed, field, k));
        lemma_first_reader(computed, field, k);
    }
}

proof fn lemma_first_reader(computed: Map<Seq<char>, ValueV>, field: Seq<char>, k: Seq<char>)
    requires
        is_first_reader(computed, field, k),
    ensures
        first_reader(computed, field) == Some(k),
{
    let c = choose|c: Seq<char>| is_first_reader(computed, field, c);
    assert(is_first_reader(computed, field, c));
    assert(reads(computed, field, k));
    if c != k {
        assert(reads(computed, field, c));
        assert(text::chars_lt(c, k));
        assert(text::chars_lt(k, c));
        text::lemma_chars_lt_transitive(c, k, c);
        text::lemma_chars_lt_irreflexive(c);
    }
}

/// Finds the first computed field that reads the given field.
fn find_reader<'a>(computed: &'a StrMap<ValueExpr>, field: &str) -> (r: Option<&'a String>)
    ensures
        match first_reader(computed@, field@) {
            Some(k) => r matches Some(x) && x@ == k,
            None => r is None,
        },
{
    let n: usize = computed.len();
    proof {
        computed.lemma_keys();
    }
    let ghost keys = computed.keys();
    let mut i: usize = 0;
    while i < n
        invariant
            i <= n,
            n == keys.len(),
            keys == computed.keys(),
            strmap::ascending(keys),
            forall|k: Seq<char>| #[trigger] computed@.contains_key(k) <==> keys.contains(k),
            forall|k: int| 0 <= k < i ==> !reads(computed@, field@, #[trigger] keys[k]),
        decreases n - i,
    {
        if value_expr_references_field(computed.value_at(i), field) {
            proof {
                let here = keys[i as int];
                assert(reads(computed@, field@, here));
                assert forall|other: Seq<char>| #[trigger]
                    reads(computed@, field@, other) implies other == here || text::chars_lt(
                    here,
                    other,
                ) by {
                    assert(keys.contains(other));
                    let p = keys.index_of(other);
                    assert(keys[p] == other);
                    if p > i {
                        assert(text::chars_lt(keys[i as int], keys[p]));
                    }
                }
                lemma_first_reader(computed@, field@, here);
            }
            return Some(computed.key_at(i));
        }
        i = i + 1;
    }
    proof {
        assert forall|k: Seq<char>| !(#[trigger] reads(computed@, field@, k)) by {
            if reads(computed@, field@, k) {
                assert(keys.contains(k));
                let p = keys.index_of(k);
                assert(keys[p] == k);
            }
        }
    }
    None
}

/// The effect of dropping a field, which no authorization predicate and no
/// computed field may need.
pub open spec fn drop_field_step(t: TableV, table: Seq<char>, field: Seq<char>) -> Result<
    TableV,
    ErrorV,
> {
    if t.authorize matches Some(f) && warnings::mentions(f, field) {
        Err(
            field_error(
                "cannot drop field '"@,
                table,
                field,
                "': still referenced by the authorize predicate (amend authorize first)"@,
            ),
        )
    } else if !t.fields.contains_key(field) {
        Err(field_error("dropped field '"@, table, field, "' does not exist"@))
    } else if first_reader(t.computed, field) is Some {
        Err(
            error::bad(
                "cannot drop field '"@ + field_path(table, field)
                    + "': it is referenced by computed field '"@ + field_path(
                    table,
                    first_reader(t.computed, field)->0,
                ) + "'; drop the computed field first"@,
            ),
        )
    } else {
        Ok(
            TableV {
                fields: t.fields.remove(field),
                indexes: indexes_without(t.indexes, field),
                owner_field: opt_without(t.owner_field, field),
                collaborators_field: opt_without(t.collaborators_field, field),
                auto_increment_field: opt_without(t.auto_increment_field, field),
                computed: t.computed.remove(field),
                defaults: t.defaults.remove(field),
                ..t
            },
        )
    }
}

fn drop_opt(o: Option<String>, name: &str) -> (r: Option<String>)
    ensures
        text::opt_str(r) == opt_without(text::opt_str(o), name@),
{
    match o {
        Some(s) => {
            if same(s.as_str(), name) {
                None
            } else {
                Some(s)
            }
        },
        None => None,
    }
}

fn drop_name(v: &Vec<String>, name: &str) -> (r: Vec<String>)
    ensures
        text::strs(r@) == names_without(text::strs(v@), name@),
{
    let ghost vs = text::strs(v@);
    let mut out: Vec<String> = Vec::new();
    let mut i: usize = 0;
    assert(vs.take(0) =~= Seq::<Seq<char>>::empty());
    assert(text::strs(out@) =~= Seq::<Seq<char>>::empty());
    while i < v.len()
        invariant
            i <= v@.len(),
            vs == text::strs(v@),
            text::strs(out@) == names_without(vs.take(i as int), name@),
        decreases v@.len() - i,
    {
        assert(vs.take(i as int + 1).drop_last() =~= vs.take(i as int));
        assert(vs.take(i as int + 1).last() == v@[i as int]@);
        if !same(v[i].as_str(), name) {
            let ghost before = text::strs(out@);
            out.push(v[i].clone());
            assert(text::strs(out@) =~= before.push(v@[i as int]@));
        }
        i = i + 1;
    }
    assert(vs.take(v@.len() as int) =~= vs);
    out
}

fn drop_from_indexes(v: &Vec<IndexDef>, field: &str) -> (r: Vec<IndexDef>)
    ensures
        schema::index_views(r@) == indexes_without(schema::index_views(v@), field@),
{
    let ghost vs = schema::index_views(v@);
    let mut out: Vec<IndexDef> = Vec::new();
    let mut i: usize = 0;
    while i < v.len()
        invariant
            i <= v@.len(),
            out@.len() == i,
            vs == schema::index_views(v@),
            forall|k: int| 0 <= k < i ==> (#[trigger] out@[k])@ == indexes_without(vs, field@)[k],
        decreases v@.len() - i,
    {
        let mut ix = v[i].copy();
        ix.fields = drop_name(&v[i].fields, field);
        assert(ix@ == indexes_without(vs, field@)[i as int]);
        out.push(ix);
        i = i + 1;
    }
    assert(schema::index_views(out@) =~= indexes_without(vs, field@));
    out
}

fn drop_field_in(t: TableDef, table: &str, field: &str) -> (r: Result<TableDef, RtDbError>)
    ensures
        match drop_field_step(t@, table@, field@) {
            Ok(v) => r matches Ok(x) && x@ == v,
            Err(e) => r matches Err(x) && x@ == e,
        },
{
    if let Some(f) = &t.authorize {
        if filter_expr_references_field(f, field) {
            return Err(
                field_refused(
                    "cannot drop field '",
                    table,
                    field,
                    "': still referenced by the authorize predicate (amend authorize first)",
                ),
            );
        }
    }
    if !t.fields.contains_key(field) {
        return Err(field_refused("dropped field '", table, field, "' does not exist"));
    }
    if let Some(k) = find_reader(&t.computed, field) {
        return Err(
            RtDbError::bad_request(
                cat5(
                    "cannot drop field '",
                    field_path_text(table, field).as_str(),
                    "': it is referenced by computed field '",
                    field_path_text(table, k.as_str()).as_str(),
                    "'; drop the computed field first",
                ),
            ),
        );
    }
    let mut fields = t.fields;
    let mut defaults = t.defaults;
    let mut computed = t.computed;
    let gone = fields.remove(field);
    let gone_default = defaults.remove(field);
    let gone_computed = computed.remove(field);
    Ok(
        TableDef {
            fields,
            indexes: drop_from_indexes(&t.indexes, field),
            owner_field: drop_opt(t.owner_field, field),
            collaborators_field: drop_opt(t.collaborators_field, field),
            ttl: t.ttl,
            updated_at_field: t.updated_at_field,
            auto_increment_field: drop_opt(t.auto_increment_field, field),
            authorize: t.authorize,
            soft_delete: t.soft_delete,
            defaults,
            computed,
        },
    )
}

/// Indexes without those of a name.
pub open spec fn without_index(v: Seq<IndexV>, name: Seq<char>) -> Seq<IndexV>
    decreases v.len(),
{
    if v.len() == 0 {
        Seq::empty()
    } else if v.last().name == name {
        without_index(v.drop_last(), name)
    } else {
        without_index(v.drop_last(), name).push(v.last())
    }
}

/// The effect of dropping an index.
pub open spec fn drop_index_step(t: TableV, table: Seq<char>, name: Seq<char>) -> Result<
    TableV,
    ErrorV,
> {
    if schema::find_index(t.indexes, name) is None {
        Err(field_error("dropped index '"@, table, name, "' does not exist"@))
    } else {
        Ok(TableV { indexes: without_index(t.indexes, name), ..t })
    }
}

fn drop_index_in(t: TableDef, table: &str, name: &str) -> (r: Result<TableDef, RtDbError>)
    ensures
        match drop_index_step(t@, table@, name@) {
            Ok(v) => r matches Ok(x) && x@ == v,
            Err(e) => r matches Err(x) && x@ == e,
        },
{
    let mut t = t;
    match t.index(name) {
        Ok(_) => {},
        Err(_) => {
            return Err(field_refused("dropped index '", table, name, "' does not exist"));
        },
    }
    let ghost vs = schema::index_views(t.indexes@);
    let mut out: Vec<IndexDef> = Vec::new();
    let mut i: usize = 0;
    assert(vs.take(0) =~= Seq::<IndexV>::empty());
    assert(schema::index_views(out@) =~= Seq::<IndexV>::empty());
    while i < t.indexes.len()
        invariant
            i <= t.indexes@.len(),
            vs == schema::index_views(t.indexes@),
            schema::index_views(out@) == without_index(vs.take(i as int), name@),
        decreases t.indexes@.len() - i,
    {
        assert(vs.take(i as int + 1).drop_last() =~= vs.take(i as int));
        assert(vs.take(i as int + 1).last() == t.indexes@[i as int]@);
        if !same(t.indexes[i].name.as_str(), name) {
            let ghost before = schema::index_views(out@);
            let ix = t.indexes[i].copy();
            let ghost iv = ix@;
            out.push(ix);
            assert(schema::index_views(out@) =~= before.push(iv));
        }
        i = i + 1;
    }
    assert(vs.take(t.indexes@.len() as int) =~= vs);
    t.indexes = out;
    Ok(t)
}

/// What is wrong with the fields of a value expression, if anything: the first
/// fault in reading order.
pub open spec fn value_fault(e: ValueV, t: TableV) -> Option<ErrorV>
    decreases e,
{
    match e {
        ValueV::Field(f) => if t.fields.contains_key(f) {
            None
        } else {
            Some(error::bad("evalExpr 'expr' references undeclared field '"@ + f + "'"@))
        },
        ValueV::Literal(_) => None,
        ValueV::Now => None,
        ValueV::List(_, parts) => values_fault(parts, t),
        ValueV::Arith(_, a, b) => match value_fault(*a, t) {
            Some(e) => Some(e),
            None => value_fault(*b, t),
        },
        ValueV::Text(_, a) => value_fault(*a, t),
        ValueV::Cast(_, a) => value_fault(*a, t),
        ValueV::Case(whens, a) => match whens_fault(whens, t) {
            Some(e) => Some(e),
            None => value_fault(*a, t),
        },
    }
}

/// The first fault among value expressions.
pub open spec fn values_fault(es: Seq<ValueV>, t: TableV) -> Option<ErrorV>
    decreases es,
{
    if es.len() == 0 {
        None
    } else {
        match values_fault(es.drop_last(), t) {
            Some(e) => Some(e),
            None => value_fault(es.last(), t),
        }
    }
}

/// The first fault among case branches.
pub open spec fn whens_fault(whens: Seq<(FilterV, ValueV)>, t: TableV) -> Option<ErrorV>
    decreases whens,
{
    if whens.len() == 0 {
        None
    } else {
        match whens_fault(whens.drop_last(), t) {
            Some(e) => Some(e),
            None => match filter::filter_fault(whens.last().0, t, false, false) {
                Some(e) => Some(e),
                None => value_fault(whens.last().1, t),
            },
        }
    }
}

proof fn lemma_values_fault(es: Seq<ValueV>, t: TableV, n: int)
    requires
        0 <= n <= es.len(),
        values_fault(es.take(n), t) is Some,
    ensures
        values_fault(es, t) == values_fault(es.take(n), t),
    decreases es.len(),
{
    if n == es.len() {
        assert(es.take(n) =~= es);
    } else {
        assert(es.drop_last().take(n) =~= es.take(n));
        lemma_values_fault(es.drop_last(), t, n);
    }
}

proof fn lemma_whens_fault(whens: Seq<(FilterV, ValueV)>, t: TableV, n: int)
    requires
        0 <= n <= whens.len(),
        whens_fault(whens.take(n), t) is Some,
    ensures
        whens_fault(whens, t) == whens_fault(whens.take(n), t),
    decreases whens.len(),
{
    if n == whens.len() {
        assert(whens.take(n) =~= whens);
    } else {
        assert(whens.drop_last().take(n) =~= whens.take(n));
        lemma_whens_fault(whens.drop_last(), t, n);
    }
}

/// Rejects an expression that reads an undeclared field, or whose case
/// predicates are not fit for the table.
pub fn validate_value_expr_fields(ve: &ValueExpr, table: &TableDef) -> (r: Result<(), RtDbError>)
    ensures
        match value_fault(ve@, table@) {
            Some(e) => r matches Err(x) && x@ == e,
            None => r is Ok,
        },
    decreases ve,
{
    broadcast use dsl::lemma_value_view;

    match ve.shape() {
        ValueShape::Field(field) => {
            if table.fields.contains_key(field.as_str()) {
                Ok(())
            } else {
                Err(
                    RtDbError::bad_request(
                        cat3(
                            "evalExpr 'expr' references undeclared field '",
                            field.as_str(),
                            "'",
                        ),
                    ),
                )
            }
        },
        ValueShape::Literal(_) => Ok(()),
        ValueShape::Now => Ok(()),
        ValueShape::List(_, parts) => {
            let ghost es = dsl::value_views(parts@);
            let mut i: usize = 0;
            assert(es.take(0) =~= Seq::<ValueV>::empty());
            while i < parts.len()
                invariant
                    i <= parts@.len(),
                    decreases_to!(*ve => *parts),
                    es == dsl::value_views(parts@),
                    value_fault(ve@, table@) == values_fault(es, table@),
                    values_fault(es.take(i as int), table@) is None,
                decreases parts@.len() - i,
            {
                assert(decreases_to!(*parts => parts[i as int]));
                assert(es.take(i as int + 1).drop_last() =~= es.take(i as int));
                assert(es.take(i as int + 1).last() == parts@[i as int]@);
                match validate_value_expr_fields(&parts[i], table) {
                    Ok(_) => {},
                    Err(e) => {
                        proof {
                            lemma_values_fault(es, table@, i as int + 1);
                        }
                        return Err(e);
                    },
                }
                i = i + 1;
            }
            assert(es.take(parts@.len() as int) =~= es);
            Ok(())
        },
        ValueShape::Arith(_, a, b) => match validate_value_expr_fields(a, table) {
            Ok(_) => validate_value_expr_fields(b, table),
            Err(e) => Err(e),
        },
        ValueShape::Text(_, a) => validate_value_expr_fields(a, table),
        ValueShape::Cast(_, a) => validate_value_expr_fields(a, table),
        ValueShape::Case(whens, otherwise) => {
            let ghost ws = dsl::when_views(whens@);
            let mut i: usize = 0;
            assert(ws.take(0) =~= Seq::<(FilterV, ValueV)>::empty());
            while i < whens.len()
                invariant
                    i <= whens@.len(),
                    decreases_to!(*ve => *whens),
                    ws == dsl::when_views(whens@),
                    ve@ == ValueV::Case(ws, Box::new(otherwise@)),
                    whens_fault(ws.take(i as int), table@) is None,
                decreases whens@.len() - i,
            {
                assert(decreases_to!(*whens => whens[i as int]));
                assert(decreases_to!(whens[i as int] => whens[i as int].outcome));
                assert(ws.take(i as int + 1).drop_last() =~= ws.take(i as int));
                assert(ws.take(i as int + 1).last() == ws[i as int]);
                match validate_filter_expr_fields(&whens[i].when, table, false, false) {
                    Ok(_) => {},
                    Err(e) => {
                        proof {
                            lemma_whens_fault(ws, table@, i as int + 1);
                        }
                        return Err(e);
                    },
                }
                match validate_value_expr_fields(&whens[i].outcome, table) {
                    Ok(_) => {},
                    Err(e) => {
                        proof {
                            lemma_whens_fault(ws, table@, i as int + 1);
                        }
                        return Err(e);
                    },
                }
                i = i + 1;
            }
            assert(ws.take(whens@.len() as int) =~= ws);
            validate_value_expr_fields(otherwise, table)
        },
    }
}

/// What is wrong with an evaluation, if anything. Statement text is not read.
pub open spec fn eval_fault(t: TableV, set: Seq<char>, expr: ExprV, cond: Option<CondV>) -> Option<
    ErrorV,
> {
    if !text::identifier(set, MAX_FIELD_NAME_LEN as int) {
        Some(error::bad("evalExpr 'set' must be a valid field name, got '"@ + set + "'"@))
    } else {
        match expr {
            ExprV::Typed(e) if value_fault(e, t) is Some => value_fault(e, t),
            _ => match cond {
                Some(CondV::Typed(f)) => filter::filter_fault(f, t, false, false),
                _ => None,
            },
        }
    }
}

fn check_eval(
    t: &TableDef,
    set: &str,
    expr: &ExprSource,
    cond: &Option<CondSource>,
) -> (r: Result<(), RtDbError>)
    ensures
        match eval_fault(t@, set@, expr@, schema::opt_view(*cond)) {
            Some(e) => r matches Err(x) && x@ == e,
            None => r is Ok,
        },
{
    if !is_valid_identifier(set, MAX_FIELD_NAME_LEN) {
        return Err(
            RtDbError::bad_request(
                cat3("evalExpr 'set' must be a valid field name, got '", set, "'"),
            ),
        );
    }
    if let ExprSource::Typed(e) = expr {
        match validate_value_expr_fields(e, t) {
            Ok(_) => {},
            Err(e) => {
                return Err(e);
            },
        }
    }
    if let Some(CondSource::Typed(f)) = cond {
        return validate_filter_expr_fields(f, t, false, false);
    }
    Ok(())
}

/// The table that a directive works within, where it works within one.
pub open spec fn table_of(d: DirectiveV) -> Option<Seq<char>> {
    match d {
        DirectiveV::RenameField(t, _, _) => Some(t),
        DirectiveV::ChangeType(t, _, _, _, _) => Some(t),
        DirectiveV::DropField(t, _) => Some(t),
        DirectiveV::DropIndex(t, _) => Some(t),
        DirectiveV::SetDefault(t, _, _) => Some(t),
        DirectiveV::EvalExpr(t, _, _, _) => Some(t),
        _ => None,
    }
}

/// The effect of a directive on the table it works within.
pub open spec fn table_step(t: TableV, d: DirectiveV) -> Result<TableV, ErrorV> {
    match d {
        DirectiveV::RenameField(table, from, to) => rename_field_step(t, table, from, to),
        DirectiveV::ChangeType(table, field, to, cast, _) => change_type_step(
            t,
            table,
            field,
            to,
            cast,
        ),
        DirectiveV::DropField(table, field) => drop_field_step(t, table, field),
        DirectiveV::DropIndex(table, name) => drop_index_step(t, table, name),
        DirectiveV::SetDefault(table, field, _) => if t.fields.contains_key(field) {
            Ok(t)
        } else {
            Err(field_error("setDefault target '"@, table, field, "' does not exist"@))
        },
        DirectiveV::EvalExpr(_, set, expr, cond) => match eval_fault(t, set, expr, cond) {
            Some(e) => Err(e),
            None => Ok(t),
        },
        _ => Ok(t),
    }
}

/// The effect of a directive on a schema.
pub open spec fn step(s: Map<Seq<char>, TableV>, d: DirectiveV) -> Result<
    Map<Seq<char>, TableV>,
    ErrorV,
> {
    match d {
        DirectiveV::RenameTable(from, to) => rename_table_step(s, from, to),
        DirectiveV::DropTable(name) => if s.contains_key(name) {
            Ok(s.remove(name))
        } else {
            Err(error::bad("dropped table '"@ + name + "' does not exist"@))
        },
        _ => {
            let table = table_of(d)->0;
            if !s.contains_key(table) {
                Err(error::bad("table '"@ + table + "' does not exist"@))
            } else {
                match table_step(s[table], d) {
                    Ok(t) => Ok(s.insert(table, t)),
                    Err(e) => Err(e),
                }
            }
        },
    }
}

fn step_table(t: TableDef, d: &Directive) -> (r: Result<TableDef, RtDbError>)
    ensures
        match table_step(t@, d@) {
            Ok(v) => r matches Ok(x) && x@ == v,
            Err(e) => r matches Err(x) && x@ == e,
        },
{
    match d {
        Directive::RenameField { table, from, to } => rename_field_in(
            t,
            table.as_str(),
            from.as_str(),
            to.as_str(),
        ),
        Directive::ChangeType { table, field, to, cast, .. } => change_type_in(
            t,
            table.as_str(),
            field.as_str(),
            to,
            *cast,
        ),
        Directive::DropField { table, field } => drop_field_in(t, table.as_str(), field.as_str()),
        Directive::DropIndex { table, name } => drop_index_in(t, table.as_str(), name.as_str()),
        Directive::SetDefault { table, field, .. } => {
            if t.fields.contains_key(field.as_str()) {
                Ok(t)
            } else {
                Err(
                    field_refused(
                        "setDefault target '",
                        table.as_str(),
                        field.as_str(),
                        "' does not exist",
                    ),
                )
            }
        },
        Directive::EvalExpr { set, expr, where_clause, .. } => {
            match check_eval(&t, set.as_str(), expr, where_clause) {
                Ok(_) => Ok(t),
                Err(e) => Err(e),
            }
        },
        _ => Ok(t),
    }
}

/// Folds a directive into a schema, or rejects it.
pub fn validate_one(s: SchemaDef, d: &Directive) -> (r: Result<SchemaDef, RtDbError>)
    ensures
        match step(s@, d@) {
            Ok(v) => r matches Ok(x) && x@ == v,
            Err(e) => r matches Err(x) && x@ == e,
        },
{
    let table: &String = match d {
        Directive::RenameTable { from, to } => {
            return rename_table_in(s, from.as_str(), to.as_str());
        },
        Directive::DropTable { name } => {
            let mut tables = s.tables;
            return match tables.remove(name.as_str()) {
                Some(_) => Ok(SchemaDef { tables }),
                None => Err(
                    RtDbError::bad_request(
                        cat3("dropped table '", name.as_str(), "' does not exist"),
                    ),
                ),
            };
        },
        Directive::RenameField { table, .. } => table,
        Directive::ChangeType { table, .. } => table,
        Directive::DropField { table, .. } => table,
        Directive::DropIndex { table, .. } => table,
        Directive::SetDefault { table, .. } => table,
        Directive::EvalExpr { table, .. } => table,
    };
    let ghost given = s@;
    let mut tables = s.tables;
    match tables.remove(table.as_str()) {
        Some(t) => match step_table(t, d) {
            Ok(t) => {
                let ghost tv = t@;
                tables.insert(table.clone(), t);
                assert(tables@ =~= given.insert(table@, tv));
                Ok(SchemaDef { tables })
            },
            Err(e) => Err(e),
        },
        None => Err(RtDbError::bad_request(cat3("table '", table.as_str(), "' does not exist"))),
    }
}

/// A schema with the directives folded in, in order.
pub open spec fn folded(s: Map<Seq<char>, TableV>, ds: Seq<DirectiveV>) -> Result<
    Map<Seq<char>, TableV>,
    ErrorV,
>
    decreases ds.len(),
{
    if ds.len() == 0 {
        Ok(s)
    } else {
        match folded(s, ds.drop_last()) {
            Ok(m) => step(m, ds.last()),
            Err(e) => Err(e),
        }
    }
}

proof fn lemma_folded_fail(s: Map<Seq<char>, TableV>, ds: Seq<DirectiveV>, n: int)
    requires
        0 <= n <= ds.len(),
        folded(s, ds.take(n)) is Err,
    ensures
        folded(s, ds) == folded(s, ds.take(n)),
    decreases ds.len(),
{
    if n == ds.len() {
        assert(ds.take(n) =~= ds);
    } else {
        assert(ds.drop_last().take(n) =~= ds.take(n));
        lemma_folded_fail(s, ds.drop_last(), n);
    }
}

/// The kind of value that an expression always yields.
#[derive(Debug, Clone, Copy, PartialEq, Eq, Structural)]
pub enum Kind {
    Text,
    Number,
    Int64,
    Boolean,
}

/// The kind of value that an expression always yields, where its form tells.
pub open spec fn static_kind(e: ValueV) -> Option<Kind> {
    match e {
        ValueV::Arith(_, _, _) => Some(Kind::Number),
        ValueV::Text(_, _) => Some(Kind::Text),
        ValueV::List(ListOp::Concat, _) => Some(Kind::Text),
        ValueV::Cast(Cast::ToString, _) => Some(Kind::Text),
        ValueV::Cast(Cast::ToNumber, _) => Some(Kind::Number),
        ValueV::Cast(Cast::ToInt64, _) => Some(Kind::Int64),
        ValueV::Cast(Cast::ToBoolean, _) => Some(Kind::Boolean),
        _ => None,
    }
}

/// A field of the type can hold values of the kind.
pub open spec fn holds_kind(t: TypeV, k: Kind) -> bool {
    match schema::base_type(t) {
        TypeV::Any => true,
        TypeV::Union(_) => true,
        TypeV::Literal(_) => true,
        TypeV::String => k == Kind::Text,
        TypeV::Id(_, _) => k == Kind::Text,
        TypeV::Bytes => k == Kind::Text,
        TypeV::Number => k == Kind::Number,
        TypeV::Int64 => k == Kind::Int64 || k == Kind::Number,
        TypeV::Boolean => k == Kind::Boolean,
        _ => false,
    }
}

/// A kind in messages.
pub open spec fn kind_name(k: Kind) -> Seq<char> {
    match k {
        Kind::Text => "text"@,
        Kind::Number => "a number"@,
        Kind::Int64 => "an integer"@,
        Kind::Boolean => "a boolean"@,
    }
}

/// What is wrong with a computed field, if anything: it is not declared, reads
/// an undeclared field, or yields what its type cannot hold.
pub open spec fn entry_fault(
    table: Seq<char>,
    t: TableV,
    field: Seq<char>,
    e: ValueV,
) -> Option<ErrorV> {
    if !t.fields.contains_key(field) {
        Some(field_error("computed field '"@, table, field, "' is not declared"@))
    } else if value_fault(e, t) is Some {
        Some(field_error("computed field '"@, table, field, "' reads an undeclared field"@))
    } else {
        match static_kind(e) {
            Some(k) if !holds_kind(t.fields[field], k) => Some(
                error::bad(
                    "computed field '"@ + field_path(table, field) + "' produces "@ + kind_name(k)
                        + ", which its declared type cannot hold"@,
                ),
            ),
            _ => None,
        }
    }
}

fn entry_check(table: &str, t: &TableDef, field: &str, e: &ValueExpr) -> (r: Result<(), RtDbError>)
    ensures
        match entry_fault(table@, t@, field@, e@) {
            Some(f) => r matches Err(x) && x@ == f,
            None => r is Ok,
        },
{
    let ft = match t.fields.get(field) {
        Some(ft) => ft,
        None => {
            return Err(field_refused("computed field '", table, field, "' is not declared"));
        },
    };
    match validate_value_expr_fields(e, t) {
        Ok(_) => {},
        Err(_) => {
            return Err(
                field_refused("computed field '", table, field, "' reads an undeclared field"),
            );
        },
    }
    let kind = match e.shape() {
        ValueShape::Arith(_, _, _) => Some(Kind::Number),
        ValueShape::Text(_, _) => Some(Kind::Text),
        ValueShape::List(op, _) => match op {
            ListOp::Concat => Some(Kind::Text),
            ListOp::Coalesce => None,
        },
        ValueShape::Cast(to, _) => match to {
            Cast::ToString => Some(Kind::Text),
            Cast::ToNumber => Some(Kind::Number),
            Cast::ToInt64 => Some(Kind::Int64),
            Cast::ToBoolean => Some(Kind::Boolean),
        },
        _ => None,
    };
    if let Some(k) = kind {
        let ok = match (ft.base(), k) {
            (FieldType::Any, _) => true,
            (FieldType::Union { .. }, _) => true,
            (FieldType::Literal { .. }, _) => true,
            (FieldType::String, Kind::Text) => true,
            (FieldType::Id { .. }, Kind::Text) => true,
            (FieldType::Bytes, Kind::Text) => true,
            (FieldType::Number, Kind::Number) => true,
            (FieldType::Int64, Kind::Int64) => true,
            (FieldType::Int64, Kind::Number) => true,
            (FieldType::Boolean, Kind::Boolean) => true,
            _ => false,
        };
        if !ok {
            let name = match k {
                Kind::Text => "text",
                Kind::Number => "a number",
                Kind::Int64 => "an integer",
                Kind::Boolean => "a boolean",
            };
            return Err(
                RtDbError::bad_request(
                    cat5(
                        "computed field '",
                        field_path_text(table, field).as_str(),
                        "' produces ",
                        name,
                        ", which its declared type cannot hold",
                    ),
                ),
            );
        }
    }
    Ok(())
}

/// The computed field of a table of a schema is at fault.
pub open spec fn faulty(
    s: Map<Seq<char>, TableV>,
    table: Seq<char>,
    field: Seq<char>,
) -> bool {
    s.contains_key(table) && s[table].computed.contains_key(field) && entry_fault(
        table,
        s[table],
        field,
        s[table].computed[field],
    ) is Some
}

/// No computed field of a schema is at fault.
pub open spec fn computed_sound(s: Map<Seq<char>, TableV>) -> bool {
    forall|table: Seq<char>, field: Seq<char>| !(#[trigger] faulty(s, table, field))
}

/// The error is the fault of the first computed field at fault, by table name,
/// then by field name.
pub open spec fn is_first_fault(s: Map<Seq<char>, TableV>, e: ErrorV) -> bool {
    exists|table: Seq<char>, field: Seq<char>|
        {
            &&& #[trigger] faulty(s, table, field)
            &&& entry_fault(table, s[table], field, s[table].computed[field]) == Some(e)
            &&& forall|t2: Seq<char>, f2: Seq<char>| #[trigger]
                faulty(s, t2, f2) ==> text::chars_lt(table, t2) || (t2 == table && (f2 == field
                    || text::chars_lt(field, f2)))
        }
}

/// Rejects a schema with a computed field at fault.
pub fn validate_computed(s: &SchemaDef) -> (r: Result<(), RtDbError>)
    ensures
        r is Ok <==> computed_sound(s@),
        r matches Err(e) ==> is_first_fault(s@, e@),
{
    let n: usize = s.tables.len();
    proof {
        s.tables.lemma_keys();
    }
    let ghost names = s.tables.keys();
    let mut i: usize = 0;
    while i < n
        invariant
            i <= n,
            n == names.len(),
            names == s.tables.keys(),
            strmap::ascending(names),
            forall|k: Seq<char>| #[trigger] s@.contains_key(k) <==> names.contains(k),
            forall|k: int, f: Seq<char>| 0 <= k < i ==> !(#[trigger] faulty(s@, names[k], f)),
        decreases n - i,
    {
        let name = s.tables.key_at(i);
        let t = s.tables.value_at(i);
        let m: usize = t.computed.len();
        proof {
            t.computed.lemma_keys();
        }
        let ghost fields = t.computed.keys();
        let mut j: usize = 0;
        while j < m
            invariant
                j <= m,
                m == fields.len(),
                i < n,
                n == names.len(),
                names == s.tables.keys(),
                name@ == names[i as int],
                s@.contains_key(name@),
                t@ == s@[name@],
                fields == t.computed.keys(),
                strmap::ascending(names),
                strmap::ascending(fields),
                forall|k: Seq<char>| #[trigger] s@.contains_key(k) <==> names.contains(k),
                forall|k: Seq<char>| #[trigger] t.computed@.contains_key(k) <==> fields.contains(k),
                forall|k: int, f: Seq<char>| 0 <= k < i ==> !(#[trigger] faulty(s@, names[k], f)),
                forall|k: int| 0 <= k < j ==> !faulty(s@, name@, #[trigger] fields[k]),
            decreases m - j,
        {
            let field = t.computed.key_at(j);
            match entry_check(name.as_str(), t, field.as_str(), t.computed.value_at(j)) {
                Ok(_) => {},
                Err(e) => {
                    proof {
                        assert(faulty(s@, name@, field@));
                        assert forall|t2: Seq<char>, f2: Seq<char>| #[trigger]
                            faulty(s@, t2, f2) implies text::chars_lt(name@, t2) || (t2 == name@
                            && (f2 == field@ || text::chars_lt(field@, f2))) by {
                            assert(names.contains(t2));
                            let p = names.index_of(t2);
                            assert(names[p] == t2);
                            assert(!faulty(s@, names[p], f2) || p >= i);
                            if p > i {
                                assert(text::chars_lt(names[i as int], names[p]));
                            } else {
                                assert(t.computed@.contains_key(f2));
                                assert(fields.contains(f2));
                                let q = fields.index_of(f2);
                                assert(fields[q] == f2);
                                assert(!faulty(s@, name@, fields[q]) || q >= j);
                                if q > j {
                                    assert(text::chars_lt(fields[j as int], fields[q]));
                                }
                            }
                        }
                    }
                    return Err(e);
                },
            }
            j = j + 1;
        }
        proof {
            assert forall|f: Seq<char>| !(#[trigger] faulty(s@, name@, f)) by {
                if faulty(s@, name@, f) {
                    assert(t.computed@.contains_key(f));
                    assert(fields.contains(f));
                    let q = fields.index_of(f);
                    assert(fields[q] == f);
                }
            }
        }
        i = i + 1;
    }
    proof {
        assert forall|table: Seq<char>, field: Seq<char>| !(#[trigger] faulty(
            s@,
            table,
            field,
        )) by {
            if faulty(s@, table, field) {
                assert(names.contains(table));
                let p = names.index_of(table);
                assert(names[p] == table);
                assert(!faulty(s@, names[p], field));
            }
        }
    }
    Ok(())
}

/// Plans a migration: the schema that the directives leave, or why there is
/// none. No computed field of the planned schema is at fault.
pub fn plan_migration(old: &SchemaDef, directives: &Vec<Directive>) -> (r: Result<
    SchemaDef,
    RtDbError,
>)
    ensures
        match folded(old@, directive_views(directives@)) {
            Ok(s) => if computed_sound(s) {
                r matches Ok(x) && x@ == s
            } else {
                r matches Err(e) && is_first_fault(s, e@)
            },
            Err(e) => r matches Err(x) && x@ == e,
        },
{
    let ghost ds = directive_views(directives@);
    let mut s = old.copy();
    let mut i: usize = 0;
    assert(ds.take(0) =~= Seq::<DirectiveV>::empty());
    while i < directives.len()
        invariant
            i <= directives@.len(),
            ds == directive_views(directives@),
            folded(old@, ds.take(i as int)) == Ok::<Map<Seq<char>, TableV>, ErrorV>(s@),
        decreases directives@.len() - i,
    {
        assert(ds.take(i as int + 1).drop_last() =~= ds.take(i as int));
        assert(ds.take(i as int + 1).last() == directives@[i as int]@);
        match validate_one(s, &directives[i]) {
            Ok(next) => {
                s = next;
            },
            Err(e) => {
                proof {
                    lemma_folded_fail(old@, ds, i as int + 1);
                }
                return Err(e);
            },
        }
        i = i + 1;
    }
    assert(ds.take(directives@.len() as int) =~= ds);
    match validate_computed(&s) {
        Ok(_) => Ok(s),
        Err(e) => Err(e),
    }
}

} // verus!
