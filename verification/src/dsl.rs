//! The filter and value-expression languages, with their mathematical forms.
#[allow(unused_imports)]
use vstd::prelude::*;
#[allow(unused_imports)]
use vstd::string::*;

use crate::json;
use crate::json::{Json, JsonNumber, JsonV, NumberV};
use crate::strmap::Copied;

verus! {

/// A binary comparison between a field and a value.
#[derive(Debug, Clone, Copy, PartialEq, Eq, Structural)]
pub enum Rel {
    Eq,
    Neq,
    Gt,
    Gte,
    Lt,
    Lte,
}

/// A predicate over documents.
#[derive(Debug)]
pub enum FilterExpr {
    And { exprs: Vec<FilterExpr> },
    Or { exprs: Vec<FilterExpr> },
    Not { expr: Box<FilterExpr> },
    Eq { field: String, value: Json },
    Neq { field: String, value: Json },
    Gt { field: String, value: Json },
    Gte { field: String, value: Json },
    Lt { field: String, value: Json },
    Lte { field: String, value: Json },
    In { field: String, values: Vec<Json> },
    Contains { field: String, value: Json },
    Exists { field: String },
    /// The field holds a time more than `ms` milliseconds in the past.
    OlderThan { field: String, ms: i64 },
}

/// The mathematical form of a filter.
pub enum FilterV {
    And(Seq<FilterV>),
    Or(Seq<FilterV>),
    Not(Box<FilterV>),
    Compare(Rel, Seq<char>, JsonV),
    In(Seq<char>, Seq<JsonV>),
    Contains(Seq<char>, JsonV),
    Exists(Seq<char>),
    OlderThan(Seq<char>, i64),
}

/// The view of a filter.
pub open spec fn filter_view(f: FilterExpr) -> FilterV
    decreases f,
{
    match f {
        FilterExpr::And { exprs } => FilterV::And(
            Seq::new(
                exprs@.len(),
                |i: int|
                    if 0 <= i < exprs@.len() {
                        filter_view(exprs@[i])
                    } else {
                        FilterV::Exists(Seq::empty())
                    },
            ),
        ),
        FilterExpr::Or { exprs } => FilterV::Or(
            Seq::new(
                exprs@.len(),
                |i: int|
                    if 0 <= i < exprs@.len() {
                        filter_view(exprs@[i])
                    } else {
                        FilterV::Exists(Seq::empty())
                    },
            ),
        ),
        FilterExpr::Not { expr } => FilterV::Not(Box::new(filter_view(*expr))),
        FilterExpr::Eq { field, value } => FilterV::Compare(Rel::Eq, field@, value@),
        FilterExpr::Neq { field, value } => FilterV::Compare(Rel::Neq, field@, value@),
        FilterExpr::Gt { field, value } => FilterV::Compare(Rel::Gt, field@, value@),
        FilterExpr::Gte { field, value } => FilterV::Compare(Rel::Gte, field@, value@),
        FilterExpr::Lt { field, value } => FilterV::Compare(Rel::Lt, field@, value@),
        FilterExpr::Lte { field, value } => FilterV::Compare(Rel::Lte, field@, value@),
        FilterExpr::In { field, values } => FilterV::In(field@, json::json_views(values@)),
        FilterExpr::Contains { field, value } => FilterV::Contains(field@, value@),
        FilterExpr::Exists { field } => FilterV::Exists(field@),
        FilterExpr::OlderThan { field, ms } => FilterV::OlderThan(field@, ms),
    }
}

/// The views of a sequence of filters.
pub open spec fn filter_views(v: Seq<FilterExpr>) -> Seq<FilterV> {
    Seq::new(v.len(), |i: int| filter_view(v[i]))
}

impl View for FilterExpr {
    type V = FilterV;

    open spec fn view(&self) -> FilterV {
        filter_view(*self)
    }
}

/// The view of a conjunction or disjunction in terms of its parts.
pub broadcast proof fn lemma_filter_view(f: FilterExpr)
    ensures
        (#[trigger] filter_view(f)) == (match f {
            FilterExpr::And { exprs } => FilterV::And(filter_views(exprs@)),
            FilterExpr::Or { exprs } => FilterV::Or(filter_views(exprs@)),
            _ => filter_view(f),
        }),
{
    match f {
        FilterExpr::And { exprs } => {
            assert(filter_view(f)->And_0 =~= filter_views(exprs@));
        },
        FilterExpr::Or { exprs } => {
            assert(filter_view(f)->Or_0 =~= filter_views(exprs@));
        },
        _ => {},
    }
}

impl FilterExpr {
    /// The parts of a binary comparison, or nothing for any other filter.
    pub fn comparison(&self) -> (r: Option<(Rel, &String, &Json)>)
        ensures
            self@ is Compare <==> r is Some,
            r matches Some(p) ==> self@ == FilterV::Compare(p.0, p.1@, p.2@),
    {
        match self {
            FilterExpr::Eq { field, value } => Some((Rel::Eq, field, value)),
            FilterExpr::Neq { field, value } => Some((Rel::Neq, field, value)),
            FilterExpr::Gt { field, value } => Some((Rel::Gt, field, value)),
            FilterExpr::Gte { field, value } => Some((Rel::Gte, field, value)),
            FilterExpr::Lt { field, value } => Some((Rel::Lt, field, value)),
            FilterExpr::Lte { field, value } => Some((Rel::Lte, field, value)),
            _ => None,
        }
    }

    /// The comparison `field rel value`.
    pub fn compare(rel: Rel, field: String, value: Json) -> (r: FilterExpr)
        ensures
            r@ == FilterV::Compare(rel, field@, value@),
    {
        match rel {
            Rel::Eq => FilterExpr::Eq { field, value },
            Rel::Neq => FilterExpr::Neq { field, value },
            Rel::Gt => FilterExpr::Gt { field, value },
            Rel::Gte => FilterExpr::Gte { field, value },
            Rel::Lt => FilterExpr::Lt { field, value },
            Rel::Lte => FilterExpr::Lte { field, value },
        }
    }

    /// A copy of the filter.
    pub fn copy(&self) -> (r: FilterExpr)
        ensures
            r@ == self@,
        decreases self,
    {
        broadcast use lemma_filter_view;

        if let Some((rel, field, value)) = self.comparison() {
            return FilterExpr::compare(rel, field.clone(), value.copy());
        }
        match self {
            FilterExpr::And { exprs } => {
                let mut out: Vec<FilterExpr> = Vec::new();
                let mut i: usize = 0;
                while i < exprs.len()
                    invariant
                        i <= exprs@.len(),
                        *self == (FilterExpr::And { exprs: *exprs }),
                        out@.len() == i,
                        forall|k: int| 0 <= k < i ==> (#[trigger] out@[k])@ == exprs@[k]@,
                    decreases exprs@.len() - i,
                {
                    assert(decreases_to!(*exprs => exprs[i as int]));
                    assert(decreases_to!(*self => self->And_exprs));
                    let item = exprs[i].copy();
                    out.push(item);
                    i = i + 1;
                }
                assert(filter_views(out@) =~= filter_views(exprs@));
                FilterExpr::And { exprs: out }
            },
            FilterExpr::Or { exprs } => {
                let mut out: Vec<FilterExpr> = Vec::new();
                let mut i: usize = 0;
                while i < exprs.len()
                    invariant
                        i <= exprs@.len(),
                        *self == (FilterExpr::Or { exprs: *exprs }),
                        out@.len() == i,
                        forall|k: int| 0 <= k < i ==> (#[trigger] out@[k])@ == exprs@[k]@,
                    decreases exprs@.len() - i,
                {
                    assert(decreases_to!(*exprs => exprs[i as int]));
                    assert(decreases_to!(*self => self->Or_exprs));
                    let item = exprs[i].copy();
                    out.push(item);
                    i = i + 1;
                }
                assert(filter_views(out@) =~= filter_views(exprs@));
                FilterExpr::Or { exprs: out }
            },
            FilterExpr::Not { expr } => FilterExpr::Not { expr: Box::new(expr.copy()) },
            FilterExpr::In { field, values } => {
                FilterExpr::In { field: field.clone(), values: json::copy_all(values) }
            },
            FilterExpr::Contains { field, value } => {
                FilterExpr::Contains { field: field.clone(), value: value.copy() }
            },
            FilterExpr::OlderThan { field, ms } => {
                FilterExpr::OlderThan { field: field.clone(), ms: *ms }
            },
            FilterExpr::Exists { field } => FilterExpr::Exists { field: field.clone() },
            _ => {
                assert(false);
                FilterExpr::Exists { field: String::new() }
            },
        }
    }
}

impl Copied for FilterExpr {
    fn copied(&self) -> (r: Self) {
        self.copy()
    }
}

/// A conversion between scalar types.
#[derive(Debug, Clone, Copy, PartialEq, Eq, Structural)]
pub enum Cast {
    ToString,
    ToNumber,
    ToInt64,
    ToBoolean,
}

/// One branch of a case expression: its predicate and its result.
#[derive(Debug)]
pub struct CaseWhen {
    pub when: FilterExpr,
    pub outcome: ValueExpr,
}

/// An expression over one document that yields a value.
#[derive(Debug)]
#[allow(inconsistent_fields)]
pub enum ValueExpr {
    Field { field: String },
    Literal { value: Json },
    Now,
    Concat { parts: Vec<ValueExpr> },
    Coalesce { parts: Vec<ValueExpr> },
    Add { left: Box<ValueExpr>, right: Box<ValueExpr> },
    Sub { left: Box<ValueExpr>, right: Box<ValueExpr> },
    Mul { left: Box<ValueExpr>, right: Box<ValueExpr> },
    Div { left: Box<ValueExpr>, right: Box<ValueExpr> },
    Lower { value: Box<ValueExpr> },
    Upper { value: Box<ValueExpr> },
    Trim { value: Box<ValueExpr> },
    Cast { value: Box<ValueExpr>, to: Cast },
    Case { whens: Vec<CaseWhen>, otherwise: Box<ValueExpr> },
}

/// An operator over a list of expressions.
#[derive(Debug, Clone, Copy, PartialEq, Eq, Structural)]
pub enum ListOp {
    Concat,
    Coalesce,
}

/// An arithmetic operator.
#[derive(Debug, Clone, Copy, PartialEq, Eq, Structural)]
pub enum ArithOp {
    Add,
    Sub,
    Mul,
    Div,
}

/// A text operator.
#[derive(Debug, Clone, Copy, PartialEq, Eq, Structural)]
pub enum TextOp {
    Lower,
    Upper,
    Trim,
}

/// The mathematical form of a value expression.
pub enum ValueV {
    Field(Seq<char>),
    Literal(JsonV),
    Now,
    List(ListOp, Seq<ValueV>),
    Arith(ArithOp, Box<ValueV>, Box<ValueV>),
    Text(TextOp, Box<ValueV>),
    Cast(Cast, Box<ValueV>),
    Case(Seq<(FilterV, ValueV)>, Box<ValueV>),
}

/// The view of a value expression.
pub open spec fn value_view(e: ValueExpr) -> ValueV
    decreases e,
{
    match e {
        ValueExpr::Field { field } => ValueV::Field(field@),
        ValueExpr::Literal { value } => ValueV::Literal(value@),
        ValueExpr::Now => ValueV::Now,
        ValueExpr::Concat { parts } => ValueV::List(
            ListOp::Concat,
            Seq::new(
                parts@.len(),
                |i: int|
                    if 0 <= i < parts@.len() {
                        value_view(parts@[i])
                    } else {
                        ValueV::Now
                    },
            ),
        ),
        ValueExpr::Coalesce { parts } => ValueV::List(
            ListOp::Coalesce,
            Seq::new(
                parts@.len(),
                |i: int|
                    if 0 <= i < parts@.len() {
                        value_view(parts@[i])
                    } else {
                        ValueV::Now
                    },
            ),
        ),
        ValueExpr::Add { left, right } => ValueV::Arith(
            ArithOp::Add,
            Box::new(value_view(*left)),
            Box::new(value_view(*right)),
        ),
        ValueExpr::Sub { left, right } => ValueV::Arith(
            ArithOp::Sub,
            Box::new(value_view(*left)),
            Box::new(value_view(*right)),
        ),
        ValueExpr::Mul { left, right } => ValueV::Arith(
            ArithOp::Mul,
            Box::new(value_view(*left)),
            Box::new(value_view(*right)),
        ),
        ValueExpr::Div { left, right } => ValueV::Arith(
            ArithOp::Div,
            Box::new(value_view(*left)),
            Box::new(value_view(*right)),
        ),
        ValueExpr::Lower { value } => ValueV::Text(TextOp::Lower, Box::new(value_view(*value))),
        ValueExpr::Upper { value } => ValueV::Text(TextOp::Upper, Box::new(value_view(*value))),
        ValueExpr::Trim { value } => ValueV::Text(TextOp::Trim, Box::new(value_view(*value))),
        ValueExpr::Cast { value, to } => ValueV::Cast(to, Box::new(value_view(*value))),
        ValueExpr::Case { whens, otherwise } => ValueV::Case(
            Seq::new(
                whens@.len(),
                |i: int|
                    if 0 <= i < whens@.len() {
                        (filter_view(whens@[i].when), value_view(whens@[i].outcome))
                    } else {
                        (FilterV::Exists(Seq::empty()), ValueV::Now)
                    },
            ),
            Box::new(value_view(*otherwise)),
        ),
    }
}

/// The views of a sequence of value expressions.
pub open spec fn value_views(v: Seq<ValueExpr>) -> Seq<ValueV> {
    Seq::new(v.len(), |i: int| value_view(v[i]))
}

/// The views of a sequence of case branches.
pub open spec fn when_views(v: Seq<CaseWhen>) -> Seq<(FilterV, ValueV)> {
    Seq::new(v.len(), |i: int| (filter_view(v[i].when), value_view(v[i].outcome)))
}

impl View for ValueExpr {
    type V = ValueV;

    open spec fn view(&self) -> ValueV {
        value_view(*self)
    }
}

/// The view of a list or case expression in terms of its parts.
pub broadcast proof fn lemma_value_view(e: ValueExpr)
    ensures
        (#[trigger] value_view(e)) == (match e {
            ValueExpr::Concat { parts } => ValueV::List(ListOp::Concat, value_views(parts@)),
            ValueExpr::Coalesce { parts } => ValueV::List(ListOp::Coalesce, value_views(parts@)),
            ValueExpr::Case { whens, otherwise } => ValueV::Case(
                when_views(whens@),
                Box::new(value_view(*otherwise)),
            ),
            _ => value_view(e),
        }),
{
    match e {
        ValueExpr::Concat { parts } => {
            assert(value_view(e)->List_1 =~= value_views(parts@));
        },
        ValueExpr::Coalesce { parts } => {
            assert(value_view(e)->List_1 =~= value_views(parts@));
        },
        ValueExpr::Case { whens, otherwise } => {
            assert(value_view(e)->Case_0 =~= when_views(whens@));
        },
        _ => {},
    }
}

/// A value bound to a statement placeholder.
#[derive(Debug)]
pub enum EqBind {
    Text(String),
    /// A double-precision number, given by the number it is read from.
    Num(JsonNumber),
    Bool(bool),
    I64(i64),
}

/// The mathematical form of a bind.
pub enum BindV {
    Text(Seq<char>),
    Num(NumberV),
    Bool(bool),
    I64(i64),
}

impl View for EqBind {
    type V = BindV;

    open spec fn view(&self) -> BindV {
        match self {
            EqBind::Text(s) => BindV::Text(s@),
            EqBind::Num(n) => BindV::Num(n@),
            EqBind::Bool(b) => BindV::Bool(*b),
            EqBind::I64(n) => BindV::I64(*n),
        }
    }
}

/// The views of a sequence of binds.
pub open spec fn bind_views(v: Seq<EqBind>) -> Seq<BindV> {
    Seq::new(v.len(), |i: int| v[i]@)
}

/// Who is asking: the user, where the caller is one, and the tables the
/// caller's credential is limited to, where it is limited.
#[derive(Debug)]
pub struct PrincipalCtx {
    pub user_id: Option<String>,
    pub email: Option<String>,
    pub tables: Option<Vec<String>>,
}

/// The mathematical form of a caller.
pub struct CtxV {
    pub user: Option<Seq<char>>,
    pub email: Option<Seq<char>>,
    pub tables: Option<Seq<Seq<char>>>,
}

impl View for PrincipalCtx {
    type V = CtxV;

    open spec fn view(&self) -> CtxV {
        CtxV {
            user: crate::text::opt_str(self.user_id),
            email: crate::text::opt_str(self.email),
            tables: match self.tables {
                Some(v) => Some(crate::text::strs(v@)),
                None => None,
            },
        }
    }
}

impl Default for PrincipalCtx {
    fn default() -> (r: PrincipalCtx)
        ensures
            r == (PrincipalCtx { user_id: None, email: None, tables: None }),
    {
        PrincipalCtx { user_id: None, email: None, tables: None }
    }
}

/// The direction of a sort.
#[derive(Debug, Clone, Copy, PartialEq, Eq, Structural)]
pub enum Order {
    Asc,
    Desc,
}

/// How a text search matches.
#[derive(Debug, Clone, Copy, PartialEq, Eq, Structural)]
pub enum SearchMode {
    /// Words, by the text-search index.
    Tsquery,
    /// Substrings, by trigram similarity.
    Trgm,
}

/// An aggregate function.
#[derive(Debug, Clone, Copy, PartialEq, Eq, Structural)]
pub enum AggregateOp {
    Sum,
    Avg,
    Min,
    Max,
    Count,
}

/// The statement name of an aggregate function.
pub open spec fn aggregate_name(op: AggregateOp) -> Seq<char> {
    match op {
        AggregateOp::Sum => "SUM"@,
        AggregateOp::Avg => "AVG"@,
        AggregateOp::Min => "MIN"@,
        AggregateOp::Max => "MAX"@,
        AggregateOp::Count => "COUNT"@,
    }
}

impl AggregateOp {
    /// The statement name of the function.
    pub fn sql_fn(self) -> (s: &'static str)
        ensures
            s@ == aggregate_name(self),
    {
        match self {
            AggregateOp::Sum => "SUM",
            AggregateOp::Avg => "AVG",
            AggregateOp::Min => "MIN",
            AggregateOp::Max => "MAX",
            AggregateOp::Count => "COUNT",
        }
    }

    /// Whether the function aggregates a field, as all but the count do.
    pub fn needs_field(self) -> (r: bool)
        ensures
            r == (self != AggregateOp::Count),
    {
        match self {
            AggregateOp::Count => false,
            _ => true,
        }
    }
}

/// An aggregation over the matching rows, or over each group of them.
#[derive(Debug, Clone, Copy, PartialEq, Eq, Structural)]
pub struct AggregateSpec {
    pub op: AggregateOp,
    pub group_by: bool,
}

/// A page request.
#[derive(Debug)]
pub struct Paginate {
    pub cursor: Option<String>,
    pub num_items: u32,
}

/// A text search.
#[derive(Debug)]
pub struct SearchQuery {
    pub index: String,
    pub query: String,
    pub filter: Option<FilterExpr>,
    pub mode: Option<SearchMode>,
    pub snippet: Option<bool>,
}

/// A search by vector distance.
#[derive(Debug)]
pub struct VectorSearchQuery {
    pub index: String,
    pub vector: Vec<JsonNumber>,
    pub filter: Option<FilterExpr>,
    pub limit: u32,
}

/// A search that fuses text and vector ranking.
#[derive(Debug)]
pub struct HybridSearchQuery {
    pub query: String,
    pub vector: Vec<JsonNumber>,
    pub search_index: Option<String>,
    pub vector_index: Option<String>,
    pub limit: u32,
    pub k: Option<u32>,
}

/// A read query.
#[derive(Debug)]
pub struct Query {
    pub table: String,
    pub get: Option<String>,
    pub index: Option<String>,
    pub eq: Vec<Json>,
    pub gt: Option<Json>,
    pub gte: Option<Json>,
    pub lt: Option<Json>,
    pub lte: Option<Json>,
    pub order: Option<Order>,
    pub take: Option<u32>,
    pub unique: bool,
    pub first: bool,
    pub count: bool,
    pub distinct: bool,
    pub aggregate: Option<AggregateSpec>,
    pub paginate: Option<Paginate>,
    pub filter: Option<FilterExpr>,
    pub search: Option<SearchQuery>,
    pub vector_search: Option<VectorSearchQuery>,
    pub hybrid_search: Option<HybridSearchQuery>,
    pub fields: Option<Vec<String>>,
}

/// The mathematical form of a page request.
pub struct PaginateV {
    pub cursor: Option<Seq<char>>,
    pub num_items: u32,
}

/// The mathematical form of a text search.
pub struct SearchV {
    pub index: Seq<char>,
    pub query: Seq<char>,
    pub filter: Option<FilterV>,
    pub mode: Option<SearchMode>,
    pub snippet: Option<bool>,
}

/// The mathematical form of a vector search.
pub struct VectorSearchV {
    pub index: Seq<char>,
    pub vector: Seq<NumberV>,
    pub filter: Option<FilterV>,
    pub limit: u32,
}

/// The mathematical form of a hybrid search.
pub struct HybridSearchV {
    pub query: Seq<char>,
    pub vector: Seq<NumberV>,
    pub search_index: Option<Seq<char>>,
    pub vector_index: Option<Seq<char>>,
    pub limit: u32,
    pub k: Option<u32>,
}

/// The mathematical form of a read query.
pub struct QueryV {
    pub table: Seq<char>,
    pub get: Option<Seq<char>>,
    pub index: Option<Seq<char>>,
    pub eq: Seq<JsonV>,
    pub gt: Option<JsonV>,
    pub gte: Option<JsonV>,
    pub lt: Option<JsonV>,
    pub lte: Option<JsonV>,
    pub order: Option<Order>,
    pub take: Option<u32>,
    pub unique: bool,
    pub first: bool,
    pub count: bool,
    pub distinct: bool,
    pub aggregate: Option<AggregateSpec>,
    pub paginate: Option<PaginateV>,
    pub filter: Option<FilterV>,
    pub search: Option<SearchV>,
    pub vector_search: Option<VectorSearchV>,
    pub hybrid_search: Option<HybridSearchV>,
    pub fields: Option<Seq<Seq<char>>>,
}

/// The views of a sequence of numbers.
pub open spec fn number_views(v: Seq<JsonNumber>) -> Seq<NumberV> {
    Seq::new(v.len(), |i: int| v[i]@)
}

impl View for Paginate {
    type V = PaginateV;

    open spec fn view(&self) -> PaginateV {
        PaginateV { cursor: crate::text::opt_str(self.cursor), num_items: self.num_items }
    }
}

impl View for SearchQuery {
    type V = SearchV;

    open spec fn view(&self) -> SearchV {
        SearchV {
            index: self.index@,
            query: self.query@,
            filter: crate::schema::opt_view(self.filter),
            mode: self.mode,
            snippet: self.snippet,
        }
    }
}

impl View for VectorSearchQuery {
    type V = VectorSearchV;

    open spec fn view(&self) -> VectorSearchV {
        VectorSearchV {
            index: self.index@,
            vector: number_views(self.vector@),
            filter: crate::schema::opt_view(self.filter),
            limit: self.limit,
        }
    }
}

impl View for HybridSearchQuery {
    type V = HybridSearchV;

    open spec fn view(&self) -> HybridSearchV {
        HybridSearchV {
            query: self.query@,
            vector: number_views(self.vector@),
            search_index: crate::text::opt_str(self.search_index),
            vector_index: crate::text::opt_str(self.vector_index),
            limit: self.limit,
            k: self.k,
        }
    }
}

impl View for Query {
    type V = QueryV;

    open spec fn view(&self) -> QueryV {
        QueryV {
            table: self.table@,
            get: crate::text::opt_str(self.get),
            index: crate::text::opt_str(self.index),
            eq: json::json_views(self.eq@),
            gt: crate::schema::opt_view(self.gt),
            gte: crate::schema::opt_view(self.gte),
            lt: crate::schema::opt_view(self.lt),
            lte: crate::schema::opt_view(self.lte),
            order: self.order,
            take: self.take,
            unique: self.unique,
            first: self.first,
            count: self.count,
            distinct: self.distinct,
            aggregate: self.aggregate,
            paginate: crate::schema::opt_view(self.paginate),
            filter: crate::schema::opt_view(self.filter),
            search: crate::schema::opt_view(self.search),
            vector_search: crate::schema::opt_view(self.vector_search),
            hybrid_search: crate::schema::opt_view(self.hybrid_search),
            fields: match self.fields {
                Some(v) => Some(crate::text::strs(v@)),
                None => None,
            },
        }
    }
}

impl Query {
    /// A query for all rows of a table, with nothing else asked.
    pub fn of(table: String) -> (q: Query)
        ensures
            q@ == everything(table@),
    {
        let q = Query {
            table,
            get: None,
            index: None,
            eq: Vec::new(),
            gt: None,
            gte: None,
            lt: None,
            lte: None,
            order: None,
            take: None,
            unique: false,
            first: false,
            count: false,
            distinct: false,
            aggregate: None,
            paginate: None,
            filter: None,
            search: None,
            vector_search: None,
            hybrid_search: None,
            fields: None,
        };
        assert(json::json_views(q.eq@) =~= Seq::<JsonV>::empty());
        q
    }
}

/// The query for all rows of a table, with nothing else asked.
pub open spec fn everything(table: Seq<char>) -> QueryV {
    QueryV {
        table,
        get: None,
        index: None,
        eq: Seq::empty(),
        gt: None,
        gte: None,
        lt: None,
        lte: None,
        order: None,
        take: None,
        unique: false,
        first: false,
        count: false,
        distinct: false,
        aggregate: None,
        paginate: None,
        filter: None,
        search: None,
        vector_search: None,
        hybrid_search: None,
        fields: None,
    }
}

impl ListOp {
    /// The expression that applies the operator to the parts.
    pub fn of(self, parts: Vec<ValueExpr>) -> (r: ValueExpr)
        ensures
            r@ == ValueV::List(self, value_views(parts@)),
    {
        broadcast use lemma_value_view;

        match self {
            ListOp::Concat => ValueExpr::Concat { parts },
            ListOp::Coalesce => ValueExpr::Coalesce { parts },
        }
    }
}

impl ArithOp {
    /// The expression that applies the operator.
    pub fn of(self, left: ValueExpr, right: ValueExpr) -> (r: ValueExpr)
        ensures
            r@ == ValueV::Arith(self, Box::new(left@), Box::new(right@)),
    {
        match self {
            ArithOp::Add => ValueExpr::Add { left: Box::new(left), right: Box::new(right) },
            ArithOp::Sub => ValueExpr::Sub { left: Box::new(left), right: Box::new(right) },
            ArithOp::Mul => ValueExpr::Mul { left: Box::new(left), right: Box::new(right) },
            ArithOp::Div => ValueExpr::Div { left: Box::new(left), right: Box::new(right) },
        }
    }
}

impl TextOp {
    /// The expression that applies the operator.
    pub fn of(self, value: ValueExpr) -> (r: ValueExpr)
        ensures
            r@ == ValueV::Text(self, Box::new(value@)),
    {
        match self {
            TextOp::Lower => ValueExpr::Lower { value: Box::new(value) },
            TextOp::Upper => ValueExpr::Upper { value: Box::new(value) },
            TextOp::Trim => ValueExpr::Trim { value: Box::new(value) },
        }
    }
}

/// A value expression by its shape.
pub enum ValueShape<'a> {
    Field(&'a String),
    Literal(&'a Json),
    Now,
    List(ListOp, &'a Vec<ValueExpr>),
    Arith(ArithOp, &'a ValueExpr, &'a ValueExpr),
    Text(TextOp, &'a ValueExpr),
    Cast(Cast, &'a ValueExpr),
    Case(&'a Vec<CaseWhen>, &'a ValueExpr),
}

impl ValueExpr {
    /// The expression by its shape.
    pub fn shape(&self) -> (r: ValueShape<'_>)
        ensures
            match r {
                ValueShape::Field(f) => self@ == ValueV::Field(f@),
                ValueShape::Literal(v) => self@ == ValueV::Literal(v@),
                ValueShape::Now => self@ == ValueV::Now,
                ValueShape::List(op, parts) => self@ == ValueV::List(op, value_views(parts@))
                    && decreases_to!(*self => *parts),
                ValueShape::Arith(op, a, b) => self@ == ValueV::Arith(
                    op,
                    Box::new(a@),
                    Box::new(b@),
                ) && decreases_to!(*self => *a) && decreases_to!(*self => *b),
                ValueShape::Text(op, a) => self@ == ValueV::Text(op, Box::new(a@))
                    && decreases_to!(*self => *a),
                ValueShape::Cast(to, a) => self@ == ValueV::Cast(to, Box::new(a@))
                    && decreases_to!(*self => *a),
                ValueShape::Case(whens, a) => self@ == ValueV::Case(
                    when_views(whens@),
                    Box::new(a@),
                ) && decreases_to!(*self => *whens) && decreases_to!(*self => *a),
            },
    {
        broadcast use lemma_value_view;

        match self {
            ValueExpr::Field { field } => ValueShape::Field(field),
            ValueExpr::Literal { value } => ValueShape::Literal(value),
            ValueExpr::Now => ValueShape::Now,
            ValueExpr::Concat { parts } => {
                assert(decreases_to!(*self => self->Concat_parts));
                ValueShape::List(ListOp::Concat, parts)
            },
            ValueExpr::Coalesce { parts } => {
                assert(decreases_to!(*self => self->Coalesce_parts));
                ValueShape::List(ListOp::Coalesce, parts)
            },
            ValueExpr::Add { left, right } => ValueShape::Arith(ArithOp::Add, left, right),
            ValueExpr::Sub { left, right } => ValueShape::Arith(ArithOp::Sub, left, right),
            ValueExpr::Mul { left, right } => ValueShape::Arith(ArithOp::Mul, left, right),
            ValueExpr::Div { left, right } => ValueShape::Arith(ArithOp::Div, left, right),
            ValueExpr::Lower { value } => ValueShape::Text(TextOp::Lower, value),
            ValueExpr::Upper { value } => ValueShape::Text(TextOp::Upper, value),
            ValueExpr::Trim { value } => ValueShape::Text(TextOp::Trim, value),
            ValueExpr::Cast { value, to } => ValueShape::Cast(*to, value),
            ValueExpr::Case { whens, otherwise } => {
                assert(decreases_to!(*self => self->whens));
                ValueShape::Case(whens, otherwise)
            },
        }
    }

    /// A copy of the expression.
    pub fn copy(&self) -> (r: ValueExpr)
        ensures
            r@ == self@,
        decreases self,
    {
        broadcast use lemma_value_view;

        match self.shape() {
            ValueShape::Field(field) => ValueExpr::Field { field: field.clone() },
            ValueShape::Literal(value) => ValueExpr::Literal { value: value.copy() },
            ValueShape::Now => ValueExpr::Now,
            ValueShape::List(op, parts) => {
                let mut out: Vec<ValueExpr> = Vec::new();
                let mut i: usize = 0;
                while i < parts.len()
                    invariant
                        i <= parts@.len(),
                        decreases_to!(*self => *parts),
                        out@.len() == i,
                        forall|k: int| 0 <= k < i ==> (#[trigger] out@[k])@ == parts@[k]@,
                    decreases parts@.len() - i,
                {
                    assert(decreases_to!(*parts => parts[i as int]));
                    let item = parts[i].copy();
                    out.push(item);
                    i = i + 1;
                }
                assert(value_views(out@) =~= value_views(parts@));
                op.of(out)
            },
            ValueShape::Arith(op, a, b) => op.of(a.copy(), b.copy()),
            ValueShape::Text(op, a) => op.of(a.copy()),
            ValueShape::Cast(to, a) => ValueExpr::Cast { value: Box::new(a.copy()), to },
            ValueShape::Case(whens, otherwise) => {
                let mut out: Vec<CaseWhen> = Vec::new();
                let mut i: usize = 0;
                while i < whens.len()
                    invariant
                        i <= whens@.len(),
                        decreases_to!(*self => *whens),
                        out@.len() == i,
                        forall|k: int|
                            0 <= k < i ==> (#[trigger] out@[k]).when@ == whens@[k].when@
                                && out@[k].outcome@ == whens@[k].outcome@,
                    decreases whens@.len() - i,
                {
                    assert(decreases_to!(*whens => whens[i as int]));
                    assert(decreases_to!(whens[i as int] => whens[i as int].outcome));
                    let outcome = whens[i].outcome.copy();
                    out.push(CaseWhen { when: whens[i].when.copy(), outcome });
                    i = i + 1;
                }
                assert(when_views(out@) =~= when_views(whens@));
                ValueExpr::Case { whens: out, otherwise: Box::new(otherwise.copy()) }
            },
        }
    }
}

impl Copied for ValueExpr {
    fn copied(&self) -> (r: Self) {
        self.copy()
    }
}

} // verus!
