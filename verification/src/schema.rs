//! Table schemas: field types, indexes and tables, with their validation and
//! the physical names they map to.
#[allow(unused_imports)]
use vstd::prelude::*;
#[allow(unused_imports)]
use vstd::string::*;

use crate::dsl::{CtxV, FilterExpr, FilterV, PrincipalCtx, ValueExpr, ValueV};
use crate::error;
use crate::error::{ErrorCode, ErrorV, RtDbError};
use crate::json::{Json, JsonV};
use crate::strmap::{Copied, StrMap};
use crate::text;
use crate::text::{cat2, cat3, lower};

verus! {

/// The longest field name.
pub const MAX_FIELD_NAME_LEN: usize = 48;

/// The longest table name.
pub const MAX_TABLE_NAME_LEN: usize = 30;

/// The longest index name.
pub const MAX_INDEX_NAME_LEN: usize = 30;

/// The longest database name.
pub const MAX_DB_NAME_LEN: usize = 48;

/// The declared type of a field.
#[derive(Debug)]
#[allow(inconsistent_fields)]
pub enum FieldType {
    String,
    Number,
    Int64,
    Boolean,
    Null,
    Any,
    Bytes,
    Id { table: String, on_delete: Option<String> },
    Literal { value: Json },
    Union { variants: Vec<FieldType> },
    Array { element: Box<FieldType> },
    Object { fields: Vec<(String, FieldType)> },
    Record { value: Box<FieldType> },
    Vector { dimensions: u32 },
    Optional { inner: Box<FieldType> },
}

/// The mathematical form of a field type.
pub enum TypeV {
    String,
    Number,
    Int64,
    Boolean,
    Null,
    Any,
    Bytes,
    Id(Seq<char>, Option<Seq<char>>),
    Literal(JsonV),
    Union(Seq<TypeV>),
    Array(Box<TypeV>),
    Object(Seq<(Seq<char>, TypeV)>),
    Record(Box<TypeV>),
    Vector(u32),
    Optional(Box<TypeV>),
}

/// The view of a field type.
pub open spec fn type_view(t: FieldType) -> TypeV
    decreases t,
{
    match t {
        FieldType::String => TypeV::String,
        FieldType::Number => TypeV::Number,
        FieldType::Int64 => TypeV::Int64,
        FieldType::Boolean => TypeV::Boolean,
        FieldType::Null => TypeV::Null,
        FieldType::Any => TypeV::Any,
        FieldType::Bytes => TypeV::Bytes,
        FieldType::Id { table, on_delete } => TypeV::Id(table@, text::opt_str(on_delete)),
        FieldType::Literal { value } => TypeV::Literal(value@),
        FieldType::Union { variants } => TypeV::Union(
            Seq::new(
                variants@.len(),
                |i: int|
                    if 0 <= i < variants@.len() {
                        type_view(variants@[i])
                    } else {
                        TypeV::Null
                    },
            ),
        ),
        FieldType::Array { element } => TypeV::Array(Box::new(type_view(*element))),
        FieldType::Object { fields } => TypeV::Object(
            Seq::new(
                fields@.len(),
                |i: int|
                    if 0 <= i < fields@.len() {
                        (fields@[i].0@, type_view(fields@[i].1))
                    } else {
                        (Seq::empty(), TypeV::Null)
                    },
            ),
        ),
        FieldType::Record { value } => TypeV::Record(Box::new(type_view(*value))),
        FieldType::Vector { dimensions } => TypeV::Vector(dimensions),
        FieldType::Optional { inner } => TypeV::Optional(Box::new(type_view(*inner))),
    }
}

/// The views of a sequence of types.
pub open spec fn type_views(v: Seq<FieldType>) -> Seq<TypeV> {
    Seq::new(v.len(), |i: int| type_view(v[i]))
}

/// The views of the fields of an object type.
pub open spec fn typed_field_views(v: Seq<(String, FieldType)>) -> Seq<(Seq<char>, TypeV)> {
    Seq::new(v.len(), |i: int| (v[i].0@, type_view(v[i].1)))
}

impl View for FieldType {
    type V = TypeV;

    open spec fn view(&self) -> TypeV {
        type_view(*self)
    }
}

/// The view of a union or object type in terms of its parts.
pub broadcast proof fn lemma_type_view(t: FieldType)
    ensures
        (#[trigger] type_view(t)) == (match t {
            FieldType::Union { variants } => TypeV::Union(type_views(variants@)),
            FieldType::Object { fields } => TypeV::Object(typed_field_views(fields@)),
            _ => type_view(t),
        }),
{
    match t {
        FieldType::Union { variants } => {
            assert(type_view(t)->Union_0 =~= type_views(variants@));
        },
        FieldType::Object { fields } => {
            assert(type_view(t)->Object_0 =~= typed_field_views(fields@));
        },
        _ => {},
    }
}

impl FieldType {
    /// A copy of the type.
    pub fn copy(&self) -> (r: FieldType)
        ensures
            r@ == self@,
        decreases self,
    {
        broadcast use lemma_type_view;

        match self {
            FieldType::String => FieldType::String,
            FieldType::Number => FieldType::Number,
            FieldType::Int64 => FieldType::Int64,
            FieldType::Boolean => FieldType::Boolean,
            FieldType::Null => FieldType::Null,
            FieldType::Any => FieldType::Any,
            FieldType::Bytes => FieldType::Bytes,
            FieldType::Id { table, on_delete } => FieldType::Id {
                table: table.clone(),
                on_delete: on_delete.clone(),
            },
            FieldType::Literal { value } => FieldType::Literal { value: value.copy() },
            FieldType::Union { variants } => {
                let mut out: Vec<FieldType> = Vec::new();
                let mut i: usize = 0;
                while i < variants.len()
                    invariant
                        i <= variants@.len(),
                        *self == (FieldType::Union { variants: *variants }),
                        out@.len() == i,
                        forall|k: int| 0 <= k < i ==> (#[trigger] out@[k])@ == variants@[k]@,
                    decreases variants@.len() - i,
                {
                    assert(decreases_to!(*variants => variants[i as int]));
                    assert(decreases_to!(*self => self->Union_variants));
                    let item = variants[i].copy();
                    out.push(item);
                    i = i + 1;
                }
                assert(type_views(out@) =~= type_views(variants@));
                FieldType::Union { variants: out }
            },
            FieldType::Array { element } => FieldType::Array { element: Box::new(element.copy()) },
            FieldType::Object { fields } => {
                let mut out: Vec<(String, FieldType)> = Vec::new();
                let mut i: usize = 0;
                while i < fields.len()
                    invariant
                        i <= fields@.len(),
                        *self == (FieldType::Object { fields: *fields }),
                        out@.len() == i,
                        forall|k: int|
                            0 <= k < i ==> (#[trigger] out@[k]).0@ == fields@[k].0@ && out@[k].1@
                                == fields@[k].1@,
                    decreases fields@.len() - i,
                {
                    assert(decreases_to!(*fields => fields[i as int]));
                    assert(decreases_to!(fields[i as int] => fields[i as int].1));
                    assert(decreases_to!(*self => self->Object_fields));
                    let item = fields[i].1.copy();
                    out.push((fields[i].0.clone(), item));
                    i = i + 1;
                }
                assert(typed_field_views(out@) =~= typed_field_views(fields@));
                FieldType::Object { fields: out }
            },
            FieldType::Record { value } => FieldType::Record { value: Box::new(value.copy()) },
            FieldType::Vector { dimensions } => FieldType::Vector { dimensions: *dimensions },
            FieldType::Optional { inner } => FieldType::Optional { inner: Box::new(inner.copy()) },
        }
    }

    /// The type behind one optional wrapper.
    pub fn base(&self) -> (r: &FieldType)
        ensures
            r@ == base_type(self@),
    {
        match self {
            FieldType::Optional { inner } => &**inner,
            _ => self,
        }
    }
}

impl Copied for FieldType {
    fn copied(&self) -> (r: Self) {
        self.copy()
    }
}

/// The type behind one optional wrapper.
pub open spec fn base_type(t: TypeV) -> TypeV {
    match t {
        TypeV::Optional(inner) => *inner,
        _ => t,
    }
}

/// How the distance between two vectors is measured.
#[derive(Debug, Clone, Copy, PartialEq, Eq, Structural)]
pub enum VectorMetric {
    Cosine,
    L2,
    Ip,
}

/// The distance operator of a metric.
pub open spec fn distance_operator(m: VectorMetric) -> Seq<char> {
    match m {
        VectorMetric::Cosine => "<=>"@,
        VectorMetric::L2 => "<->"@,
        VectorMetric::Ip => "<#>"@,
    }
}

impl VectorMetric {
    /// The distance operator of the metric.
    pub fn distance_op(self) -> (s: &'static str)
        ensures
            s@ == distance_operator(self),
    {
        match self {
            VectorMetric::Cosine => "<=>",
            VectorMetric::L2 => "<->",
            VectorMetric::Ip => "<#>",
        }
    }
}

/// What makes an index a vector index.
#[derive(Debug)]
pub struct VectorSpec {
    pub dimensions: u32,
    pub metric: VectorMetric,
    pub filter_fields: Vec<String>,
}

/// The mathematical form of a vector specification.
pub struct VectorV {
    pub dimensions: u32,
    pub metric: VectorMetric,
    pub filter_fields: Seq<Seq<char>>,
}

impl View for VectorSpec {
    type V = VectorV;

    open spec fn view(&self) -> VectorV {
        VectorV {
            dimensions: self.dimensions,
            metric: self.metric,
            filter_fields: text::strs(self.filter_fields@),
        }
    }
}

/// An index over the fields of a table.
#[derive(Debug)]
pub struct IndexDef {
    pub name: String,
    pub fields: Vec<String>,
    pub search: bool,
    pub vector: Option<VectorSpec>,
    pub unique: bool,
    /// The predicate of a partial index.
    pub predicate: Option<FilterExpr>,
    /// The text-search configuration of a search index.
    pub language: Option<String>,
}

/// The mathematical form of an index.
pub struct IndexV {
    pub name: Seq<char>,
    pub fields: Seq<Seq<char>>,
    pub search: bool,
    pub vector: Option<VectorV>,
    pub unique: bool,
    pub predicate: Option<FilterV>,
    pub language: Option<Seq<char>>,
}

/// The view of an optional value.
pub open spec fn opt_view<T: View>(o: Option<T>) -> Option<T::V> {
    match o {
        Some(v) => Some(v@),
        None => None,
    }
}

impl View for IndexDef {
    type V = IndexV;

    open spec fn view(&self) -> IndexV {
        IndexV {
            name: self.name@,
            fields: text::strs(self.fields@),
            search: self.search,
            vector: opt_view(self.vector),
            unique: self.unique,
            predicate: opt_view(self.predicate),
            language: text::opt_str(self.language),
        }
    }
}

/// The views of a sequence of indexes.
pub open spec fn index_views(v: Seq<IndexDef>) -> Seq<IndexV> {
    Seq::new(v.len(), |i: int| v[i]@)
}

/// Copies of all the strings.
pub fn copy_strings(v: &Vec<String>) -> (r: Vec<String>)
    ensures
        text::strs(r@) == text::strs(v@),
{
    let mut out: Vec<String> = Vec::new();
    let mut i: usize = 0;
    while i < v.len()
        invariant
            i <= v@.len(),
            out@.len() == i,
            forall|k: int| 0 <= k < i ==> (#[trigger] out@[k])@ == v@[k]@,
        decreases v@.len() - i,
    {
        out.push(v[i].clone());
        i = i + 1;
    }
    assert(text::strs(out@) =~= text::strs(v@));
    out
}

impl IndexDef {
    /// A copy of the index.
    pub fn copy(&self) -> (r: IndexDef)
        ensures
            r@ == self@,
    {
        let vector = match &self.vector {
            Some(v) => Some(
                VectorSpec {
                    dimensions: v.dimensions,
                    metric: v.metric,
                    filter_fields: copy_strings(&v.filter_fields),
                },
            ),
            None => None,
        };
        let predicate = match &self.predicate {
            Some(f) => Some(f.copy()),
            None => None,
        };
        IndexDef {
            name: self.name.clone(),
            fields: copy_strings(&self.fields),
            search: self.search,
            vector,
            unique: self.unique,
            predicate,
            language: self.language.clone(),
        }
    }

    /// Whether `field` is one of the indexed fields.
    pub fn covers(&self, field: &str) -> (r: bool)
        ensures
            r == self@.fields.contains(field@),
    {
        has_string(&self.fields, field)
    }
}

/// Whether `s` is one of the strings.
pub fn has_string(v: &Vec<String>, s: &str) -> (r: bool)
    ensures
        r == text::strs(v@).contains(s@),
{
    let mut i: usize = 0;
    while i < v.len()
        invariant
            i <= v@.len(),
            forall|k: int| 0 <= k < i ==> text::strs(v@)[k] != s@,
        decreases v@.len() - i,
    {
        if text::same(v[i].as_str(), s) {
            assert(text::strs(v@)[i as int] == s@);
            return true;
        }
        i = i + 1;
    }
    false
}

/// A table: its fields, indexes, per-row authorization and derived fields.
#[derive(Debug)]
pub struct TableDef {
    pub fields: StrMap<FieldType>,
    pub indexes: Vec<IndexDef>,
    /// The field that names the owner of a row.
    pub owner_field: Option<String>,
    /// The field that lists the collaborators of a row.
    pub collaborators_field: Option<String>,
    pub ttl: Option<Json>,
    pub updated_at_field: Option<String>,
    pub auto_increment_field: Option<String>,
    /// The predicate a row must meet for a user to see it.
    pub authorize: Option<FilterExpr>,
    /// Whether deleted rows are kept and hidden.
    pub soft_delete: bool,
    pub defaults: StrMap<Json>,
    pub computed: StrMap<ValueExpr>,
}

/// The mathematical form of a table.
pub struct TableV {
    pub fields: Map<Seq<char>, TypeV>,
    pub indexes: Seq<IndexV>,
    pub owner_field: Option<Seq<char>>,
    pub collaborators_field: Option<Seq<char>>,
    pub ttl: Option<JsonV>,
    pub updated_at_field: Option<Seq<char>>,
    pub auto_increment_field: Option<Seq<char>>,
    pub authorize: Option<FilterV>,
    pub soft_delete: bool,
    pub defaults: Map<Seq<char>, JsonV>,
    pub computed: Map<Seq<char>, ValueV>,
}

impl View for TableDef {
    type V = TableV;

    open spec fn view(&self) -> TableV {
        TableV {
            fields: self.fields@,
            indexes: index_views(self.indexes@),
            owner_field: text::opt_str(self.owner_field),
            collaborators_field: text::opt_str(self.collaborators_field),
            ttl: opt_view(self.ttl),
            updated_at_field: text::opt_str(self.updated_at_field),
            auto_increment_field: text::opt_str(self.auto_increment_field),
            authorize: opt_view(self.authorize),
            soft_delete: self.soft_delete,
            defaults: self.defaults@,
            computed: self.computed@,
        }
    }
}

/// A database schema: its tables by name.
#[derive(Debug)]
pub struct SchemaDef {
    pub tables: StrMap<TableDef>,
}

impl View for SchemaDef {
    type V = Map<Seq<char>, TableV>;

    open spec fn view(&self) -> Map<Seq<char>, TableV> {
        self.tables@
    }
}

/// The physical column of an indexed field.
pub open spec fn column(field: Seq<char>) -> Seq<char> {
    "f_"@ + text::lowered(field)
}

/// The physical name of a table.
pub open spec fn table_name(table: Seq<char>) -> Seq<char> {
    "t_"@ + text::lowered(table)
}

/// The physical schema of a database.
pub open spec fn schema_name(db: Seq<char>) -> Seq<char> {
    "db_"@ + text::lowered(db)
}

/// The text-search column of a search index.
pub open spec fn search_column(index: Seq<char>) -> Seq<char> {
    "s_"@ + text::lowered(index)
}

/// The vector column of a vector index.
pub open spec fn vector_column(index: Seq<char>) -> Seq<char> {
    "v_"@ + text::lowered(index)
}

/// The auto-increment sequence of a table.
pub open spec fn sequence_name(table: Seq<char>) -> Seq<char> {
    "seq_"@ + text::lowered(table)
}

/// The physical column of an indexed field.
pub fn pg_col(field: &str) -> (s: String)
    ensures
        s@ == column(field@),
{
    cat2("f_", lower(field).as_str())
}

/// The physical name of a table.
pub fn pg_table(table: &str) -> (s: String)
    ensures
        s@ == table_name(table@),
{
    cat2("t_", lower(table).as_str())
}

/// The physical schema of a database.
pub fn pg_schema(db: &str) -> (s: String)
    ensures
        s@ == schema_name(db@),
{
    cat2("db_", lower(db).as_str())
}

/// The text-search column of a search index.
pub fn pg_search_col(index: &str) -> (s: String)
    ensures
        s@ == search_column(index@),
{
    cat2("s_", lower(index).as_str())
}

/// The vector column of a vector index.
pub fn pg_vector_col(index: &str) -> (s: String)
    ensures
        s@ == vector_column(index@),
{
    cat2("v_", lower(index).as_str())
}

/// The auto-increment sequence of a table.
pub fn pg_sequence(table: &str) -> (s: String)
    ensures
        s@ == sequence_name(table@),
{
    cat2("seq_", lower(table).as_str())
}

/// A usable database name: a letter or digit, then letters, digits,
/// underscores and hyphens.
pub open spec fn db_name_ok(db: Seq<char>) -> bool {
    &&& 0 < db.len() <= MAX_DB_NAME_LEN
    &&& text::ident_part(db[0]) && db[0] != '_'
    &&& forall|i: int| 0 <= i < db.len() ==> text::ident_part(#[trigger] db[i]) || db[i] == '-'
}

/// Rejects a database name that cannot name a physical schema.
pub fn validate_db_name(db: &str) -> (r: Result<(), RtDbError>)
    ensures
        r is Ok <==> db_name_ok(db@),
        r matches Err(e) ==> e@ == error::bad("invalid database name '"@ + db@ + "'"@),
{
    let v = text::chars_of(db);
    let mut ok = 0 < v.len() && v.len() <= MAX_DB_NAME_LEN && v[0] != '_' && v[0] != '-';
    let mut i: usize = 0;
    while i < v.len()
        invariant
            i <= v@.len(),
            v@ == db@,
            ok <==> {
                &&& 0 < v@.len() <= MAX_DB_NAME_LEN
                &&& v@[0] != '_' && v@[0] != '-'
                &&& forall|k: int| 0 <= k < i ==> text::ident_part(#[trigger] v@[k]) || v@[k] == '-'
            },
        decreases v@.len() - i,
    {
        let c = v[i];
        if !(('a' <= c && c <= 'z') || ('A' <= c && c <= 'Z') || ('0' <= c && c <= '9') || c == '_'
            || c == '-') {
            assert(!(text::ident_part(v@[i as int]) || v@[i as int] == '-'));
            ok = false;
        }
        i = i + 1;
    }
    if ok {
        Ok(())
    } else {
        Err(RtDbError::bad_request(cat3("invalid database name '", db, "'")))
    }
}

/// Whether a credential reaches a table.
pub open spec fn may_use_table(ctx: CtxV, table: Seq<char>) -> bool {
    match ctx.tables {
        Some(allowed) => allowed.contains(table),
        None => true,
    }
}

/// Rejects a table the caller's credential does not reach.
pub fn authorize_table(ctx: &PrincipalCtx, table: &str) -> (r: Result<(), RtDbError>)
    ensures
        r is Ok <==> may_use_table(ctx@, table@),
        r matches Err(e) ==> e@ == (ErrorV {
            code: ErrorCode::Forbidden,
            message: "table '"@ + table@ + "' is not allowed for this credential"@,
            retry_after: None,
        }),
{
    match &ctx.tables {
        Some(allowed) => {
            if has_string(allowed, table) {
                Ok(())
            } else {
                Err(
                    RtDbError::forbidden(
                        cat3("table '", table, "' is not allowed for this credential"),
                    ),
                )
            }
        },
        None => Ok(()),
    }
}

/// The first index with the given name.
pub open spec fn find_index(indexes: Seq<IndexV>, name: Seq<char>) -> Option<IndexV>
    decreases indexes.len(),
{
    if indexes.len() == 0 {
        None
    } else if indexes[0].name == name {
        Some(indexes[0])
    } else {
        find_index(indexes.drop_first(), name)
    }
}

/// Some index covers the field.
pub open spec fn is_index_field(t: TableV, field: Seq<char>) -> bool {
    exists|i: int| 0 <= i < t.indexes.len() && (#[trigger] t.indexes[i]).fields.contains(field)
}

impl TableDef {
    /// The index named `name`.
    pub fn index(&self, name: &str) -> (r: Result<&IndexDef, RtDbError>)
        ensures
            r is Ok <==> find_index(self@.indexes, name@) is Some,
            r matches Ok(ix) ==> find_index(self@.indexes, name@) == Some(ix@),
            r matches Err(e) ==> e@ == error::bad("unknown index '"@ + name@ + "'"@),
    {
        let mut i: usize = 0;
        assert(self@.indexes.skip(0) =~= self@.indexes);
        while i < self.indexes.len()
            invariant
                i <= self.indexes@.len(),
                self@.indexes.len() == self.indexes@.len(),
                find_index(self@.indexes, name@) == find_index(self@.indexes.skip(i as int), name@),
            decreases self.indexes@.len() - i,
        {
            let ghost rest = self@.indexes.skip(i as int);
            assert(rest.drop_first() =~= self@.indexes.skip(i as int + 1));
            if text::same(self.indexes[i].name.as_str(), name) {
                return Ok(&self.indexes[i]);
            }
            i = i + 1;
        }
        Err(RtDbError::bad_request(cat3("unknown index '", name, "'")))
    }

    /// Whether some index covers `field`.
    pub fn is_indexed(&self, field: &str) -> (r: bool)
        ensures
            r == is_index_field(self@, field@),
    {
        let mut i: usize = 0;
        while i < self.indexes.len()
            invariant
                i <= self.indexes@.len(),
                forall|k: int| 0 <= k < i ==> !(#[trigger] self@.indexes[k]).fields.contains(field@),
            decreases self.indexes@.len() - i,
        {
            if self.indexes[i].covers(field) {
                assert(self@.indexes[i as int].fields.contains(field@));
                return true;
            }
            i = i + 1;
        }
        false
    }
}

impl SchemaDef {
    /// The table named `name`.
    pub fn table(&self, name: &str) -> (r: Result<&TableDef, RtDbError>)
        ensures
            r is Ok <==> self@.contains_key(name@),
            r matches Ok(t) ==> t@ == self@[name@],
            r matches Err(e) ==> e@ == error::missing("unknown table '"@ + name@ + "'"@),
    {
        match self.tables.get(name) {
            Some(t) => Ok(t),
            None => Err(RtDbError::not_found(cat3("unknown table '", name, "'"))),
        }
    }
}

/// Copies of all the indexes.
pub fn copy_indexes(v: &Vec<IndexDef>) -> (r: Vec<IndexDef>)
    ensures
        index_views(r@) == index_views(v@),
{
    let mut out: Vec<IndexDef> = Vec::new();
    let mut i: usize = 0;
    while i < v.len()
        invariant
            i <= v@.len(),
            out@.len() == i,
            forall|k: int| 0 <= k < i ==> (#[trigger] out@[k])@ == v@[k]@,
        decreases v@.len() - i,
    {
        out.push(v[i].copy());
        i = i + 1;
    }
    assert(index_views(out@) =~= index_views(v@));
    out
}

impl TableDef {
    /// A table with the given fields and nothing else declared.
    pub fn with_fields(fields: StrMap<FieldType>) -> (r: TableDef)
        ensures
            r@ == plain_table(fields@),
    {
        let r = TableDef {
            fields,
            indexes: Vec::new(),
            owner_field: None,
            collaborators_field: None,
            ttl: None,
            updated_at_field: None,
            auto_increment_field: None,
            authorize: None,
            soft_delete: false,
            defaults: StrMap::new(),
            computed: StrMap::new(),
        };
        assert(index_views(r.indexes@) =~= Seq::<IndexV>::empty());
        r
    }

    /// A copy of the table.
    pub fn copy(&self) -> (r: TableDef)
        ensures
            r@ == self@,
    {
        let ttl = match &self.ttl {
            Some(v) => Some(v.copy()),
            None => None,
        };
        let authorize = match &self.authorize {
            Some(f) => Some(f.copy()),
            None => None,
        };
        TableDef {
            fields: self.fields.copied(),
            indexes: copy_indexes(&self.indexes),
            owner_field: self.owner_field.clone(),
            collaborators_field: self.collaborators_field.clone(),
            ttl,
            updated_at_field: self.updated_at_field.clone(),
            auto_increment_field: self.auto_increment_field.clone(),
            authorize,
            soft_delete: self.soft_delete,
            defaults: self.defaults.copied(),
            computed: self.computed.copied(),
        }
    }
}

/// A table with the given fields and nothing else declared.
pub open spec fn plain_table(fields: Map<Seq<char>, TypeV>) -> TableV {
    TableV {
        fields,
        indexes: Seq::empty(),
        owner_field: None,
        collaborators_field: None,
        ttl: None,
        updated_at_field: None,
        auto_increment_field: None,
        authorize: None,
        soft_delete: false,
        defaults: Map::empty(),
        computed: Map::empty(),
    }
}

impl Copied for TableDef {
    fn copied(&self) -> (r: Self) {
        self.copy()
    }
}

impl SchemaDef {
    /// A copy of the schema.
    pub fn copy(&self) -> (r: SchemaDef)
        ensures
            r@ == self@,
    {
        SchemaDef { tables: self.tables.copied() }
    }
}

} // verus!
