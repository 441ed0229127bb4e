//! Query results: rows merged into documents, pages with their cursors,
//! visibility of point reads, projection, and change detection.
#[allow(unused_imports)]
use vstd::prelude::*;
#[allow(unused_imports)]
use vstd::string::*;

use crate::dsl::{CtxV, PrincipalCtx, Query, QueryV};
use crate::error;
use crate::error::{ErrorCode, ErrorV, RtDbError};
use crate::json;
use crate::json::{Json, JsonNumber, JsonV, NumberV};
use crate::number;
use crate::pagination;
use crate::pagination::{encode_cursor, json_to_value, render_value};
use crate::query::compiled::MAX_TAKE;
use crate::query::row_auth;
use crate::query::row_auth::{filter_matches, row_auth_enforced_uid};
use crate::schema::{has_string, IndexDef, TableDef, TableV};
use crate::text;
use crate::text::{cat3, same};

verus! {

/// A stored document with its system columns.
#[derive(Debug)]
pub struct Row {
    pub id: String,
    pub doc: Json,
    pub created_at: i64,
    pub version: i64,
}

/// The mathematical form of a row.
pub struct RowV {
    pub id: Seq<char>,
    pub doc: JsonV,
    pub created_at: i64,
    pub version: i64,
}

impl View for Row {
    type V = RowV;

    open spec fn view(&self) -> RowV {
        RowV {
            id: self.id@,
            doc: self.doc@,
            created_at: self.created_at,
            version: self.version,
        }
    }
}

/// A row of a ranked search: the row, its excerpt where one was asked for, and
/// its ranking key.
#[derive(Debug)]
pub struct RankedRow {
    pub row: Row,
    pub snippet: Option<String>,
    pub rank: JsonNumber,
}

/// The mathematical form of a ranked row.
pub struct RankedRowV {
    pub row: RowV,
    pub snippet: Option<Seq<char>>,
    pub rank: NumberV,
}

impl View for RankedRow {
    type V = RankedRowV;

    open spec fn view(&self) -> RankedRowV {
        RankedRowV { row: self.row@, snippet: text::opt_str(self.snippet), rank: self.rank@ }
    }
}

/// The views of a sequence of rows.
pub open spec fn row_views(v: Seq<Row>) -> Seq<RowV> {
    Seq::new(v.len(), |i: int| v[i]@)
}

/// The views of a sequence of ranked rows.
pub open spec fn ranked_views(v: Seq<RankedRow>) -> Seq<RankedRowV> {
    Seq::new(v.len(), |i: int| v[i]@)
}

/// One group of an aggregation.
#[derive(Debug)]
pub struct AggregateGroup {
    pub key: Json,
    pub value: Json,
}

/// One page of documents, and where the next one starts.
#[derive(Debug)]
pub struct PaginatedResult {
    pub docs: Vec<Json>,
    pub next_cursor: Option<String>,
}

/// The answer to a query.
#[derive(Debug)]
pub enum QueryResult {
    Doc(Option<Json>),
    Docs(Vec<Json>),
    Count(i64),
    Distinct(Vec<Json>),
    Aggregate(Json),
    AggregateGroups(Vec<AggregateGroup>),
    Paginated(PaginatedResult),
}

/// The mathematical form of an answer.
pub enum ResultV {
    Doc(Option<JsonV>),
    Docs(Seq<JsonV>),
    Count(i64),
    Distinct(Seq<JsonV>),
    Aggregate(JsonV),
    AggregateGroups(Seq<(JsonV, JsonV)>),
    Paginated(Seq<JsonV>, Option<Seq<char>>),
}

/// The views of a sequence of groups.
pub open spec fn group_views(v: Seq<AggregateGroup>) -> Seq<(JsonV, JsonV)> {
    Seq::new(v.len(), |i: int| (v[i].key@, v[i].value@))
}

impl View for QueryResult {
    type V = ResultV;

    open spec fn view(&self) -> ResultV {
        match self {
            QueryResult::Doc(Some(d)) => ResultV::Doc(Some(d@)),
            QueryResult::Doc(None) => ResultV::Doc(None),
            QueryResult::Docs(v) => ResultV::Docs(json::json_views(v@)),
            QueryResult::Count(n) => ResultV::Count(*n),
            QueryResult::Distinct(v) => ResultV::Distinct(json::json_views(v@)),
            QueryResult::Aggregate(v) => ResultV::Aggregate(v@),
            QueryResult::AggregateGroups(v) => ResultV::AggregateGroups(group_views(v@)),
            QueryResult::Paginated(p) => ResultV::Paginated(
                json::json_views(p.docs@),
                text::opt_str(p.next_cursor),
            ),
        }
    }
}

/// The document of a row: what is stored, with the system fields set.
pub open spec fn merged(r: RowV) -> Result<JsonV, ErrorV> {
    match r.doc {
        JsonV::Object(entries) => Ok(
            JsonV::Object(
                json::entry_put(
                    json::entry_put(
                        json::entry_put(entries, "_id"@, JsonV::String(r.id)),
                        "_creationTime"@,
                        JsonV::Number(number::number_of(r.created_at)),
                    ),
                    "_version"@,
                    JsonV::Number(number::number_of(r.version)),
                ),
            ),
        ),
        _ => Err(error::internal("stored doc is not a JSON object"@)),
    }
}

/// A document as callers see it: the stored one with the system fields set.
pub fn merge_doc(id: String, doc: Json, created_at: i64, version: i64) -> (r: Result<
    Json,
    RtDbError,
>)
    ensures
        match merged((RowV { id: id@, doc: doc@, created_at, version })) {
            Ok(d) => r matches Ok(x) && x@ == d,
            Err(e) => r matches Err(x) && x@ == e,
        },
{
    broadcast use json::lemma_json_view;

    match doc {
        Json::Object(stored) => {
            let mut entries = stored;
            json::put_entry(&mut entries, "_id".to_owned(), Json::String(id));
            json::put_entry(
                &mut entries,
                "_creationTime".to_owned(),
                Json::Number(JsonNumber::from_i64(created_at)),
            );
            json::put_entry(
                &mut entries,
                "_version".to_owned(),
                Json::Number(JsonNumber::from_i64(version)),
            );
            Ok(Json::Object(entries))
        },
        _ => Err(RtDbError::internal("stored doc is not a JSON object".to_owned())),
    }
}

/// A merged document carries the system fields, and every other field as it is
/// stored.
pub proof fn law_merge_sets_system_fields(r: RowV, key: Seq<char>)
    ensures
        merged(r) matches Ok(d) ==> json::field_of(d, key) == (if key == "_version"@ {
            Some(JsonV::Number(number::number_of(r.version)))
        } else if key == "_creationTime"@ {
            Some(JsonV::Number(number::number_of(r.created_at)))
        } else if key == "_id"@ {
            Some(JsonV::String(r.id))
        } else {
            json::field_of(r.doc, key)
        }),
        merged(r) is Ok <==> r.doc is Object,
{
    match r.doc {
        JsonV::Object(e0) => {
            let e1 = json::entry_put(e0, "_id"@, JsonV::String(r.id));
            let e2 = json::entry_put(
                e1,
                "_creationTime"@,
                JsonV::Number(number::number_of(r.created_at)),
            );
            json::law_put_then_get(e0, "_id"@, JsonV::String(r.id), key);
            json::law_put_then_get(
                e1,
                "_creationTime"@,
                JsonV::Number(number::number_of(r.created_at)),
                key,
            );
            json::law_put_then_get(
                e2,
                "_version"@,
                JsonV::Number(number::number_of(r.version)),
                key,
            );
        },
        _ => {},
    }
}

/// The documents of rows; the first row that is none fails them all.
pub open spec fn merged_all(rows: Seq<RowV>) -> Result<Seq<JsonV>, ErrorV>
    decreases rows.len(),
{
    if rows.len() == 0 {
        Ok(Seq::empty())
    } else {
        match merged_all(rows.drop_last()) {
            Err(e) => Err(e),
            Ok(docs) => match merged(rows.last()) {
                Ok(d) => Ok(docs.push(d)),
                Err(e) => Err(e),
            },
        }
    }
}

proof fn lemma_merged_fail(rows: Seq<RowV>, n: int)
    requires
        0 <= n <= rows.len(),
        merged_all(rows.take(n)) is Err,
    ensures
        merged_all(rows) == merged_all(rows.take(n)),
    decreases rows.len(),
{
    if n == rows.len() {
        assert(rows.take(n) =~= rows);
    } else {
        assert(rows.drop_last().take(n) =~= rows.take(n));
        lemma_merged_fail(rows.drop_last(), n);
    }
}

fn merge_all(rows: &Vec<Row>) -> (r: Result<Vec<Json>, RtDbError>)
    ensures
        match merged_all(row_views(rows@)) {
            Ok(d) => r matches Ok(x) && json::json_views(x@) == d,
            Err(e) => r matches Err(x) && x@ == e,
        },
{
    let ghost rs = row_views(rows@);
    let mut docs: Vec<Json> = Vec::new();
    let mut i: usize = 0;
    assert(rs.take(0) =~= Seq::<RowV>::empty());
    assert(json::json_views(docs@) =~= Seq::<JsonV>::empty());
    while i < rows.len()
        invariant
            i <= rows@.len(),
            rs == row_views(rows@),
            merged_all(rs.take(i as int)) == Ok::<Seq<JsonV>, ErrorV>(json::json_views(docs@)),
        decreases rows@.len() - i,
    {
        assert(rs.take(i as int + 1).drop_last() =~= rs.take(i as int));
        assert(rs.take(i as int + 1).last() == rows@[i as int]@);
        let row = &rows[i];
        match merge_doc(row.id.clone(), row.doc.copy(), row.created_at, row.version) {
            Ok(d) => {
                let ghost before = json::json_views(docs@);
                let ghost dv = d@;
                docs.push(d);
                assert(json::json_views(docs@) =~= before.push(dv));
            },
            Err(e) => {
                proof {
                    lemma_merged_fail(rs, i as int + 1);
                }
                return Err(e);
            },
        }
        i = i + 1;
    }
    assert(rs.take(rows@.len() as int) =~= rs);
    Ok(docs)
}

/// The answer of a collecting read: at most one document for a unique or first
/// read, all of them otherwise.
pub open spec fn collected(terminal: Seq<char>, rows: Seq<RowV>) -> Result<ResultV, ErrorV> {
    if terminal == "unique"@ && rows.len() > 1 {
        Err(
            ErrorV {
                code: ErrorCode::PreconditionFailed,
                message: "unique query matched multiple documents"@,
                retry_after: None,
            },
        )
    } else if terminal == "unique"@ || terminal == "first"@ {
        if rows.len() == 0 {
            Ok(ResultV::Doc(None))
        } else {
            match merged(rows.last()) {
                Ok(d) => Ok(ResultV::Doc(Some(d))),
                Err(e) => Err(e),
            }
        }
    } else {
        match merged_all(rows) {
            Ok(docs) => Ok(ResultV::Docs(docs)),
            Err(e) => Err(e),
        }
    }
}

/// Answers a collecting read from its rows.
pub fn finish_collect(terminal: &str, rows: Vec<Row>) -> (r: Result<QueryResult, RtDbError>)
    ensures
        match collected(terminal@, row_views(rows@)) {
            Ok(v) => r matches Ok(x) && x@ == v,
            Err(e) => r matches Err(x) && x@ == e,
        },
{
    let unique = same(terminal, "unique");
    let first = same(terminal, "first");
    let ghost rs = row_views(rows@);
    if unique && rows.len() > 1 {
        return Err(
            RtDbError::precondition_failed("unique query matched multiple documents".to_owned()),
        );
    }
    if unique || first {
        let mut rows = rows;
        let ghost before = rows@;
        return match rows.pop() {
            Some(row) => {
                assert(rs.last() == before.last()@);
                match merge_doc(row.id, row.doc, row.created_at, row.version) {
                    Ok(d) => Ok(QueryResult::Doc(Some(d))),
                    Err(e) => Err(e),
                }
            },
            None => Ok(QueryResult::Doc(None)),
        };
    }
    match merge_all(&rows) {
        Ok(docs) => Ok(QueryResult::Docs(docs)),
        Err(e) => Err(e),
    }
}

/// The sort values of a row that stand in a cursor: its remaining index fields,
/// its creation time and its id.
pub open spec fn sort_values(fields: Seq<Seq<char>>, r: RowV) -> Result<Seq<JsonV>, ErrorV> {
    match field_values(fields, r.doc) {
        Ok(vs) => Ok(
            vs.push(JsonV::Number(number::number_of(r.created_at))).push(JsonV::String(r.id)),
        ),
        Err(e) => Err(e),
    }
}

/// The values of the fields of a document, all of which it must have.
pub open spec fn field_values(fields: Seq<Seq<char>>, doc: JsonV) -> Result<Seq<JsonV>, ErrorV>
    decreases fields.len(),
{
    if fields.len() == 0 {
        Ok(Seq::empty())
    } else {
        match field_values(fields.drop_last(), doc) {
            Err(e) => Err(e),
            Ok(vs) => match json::field_of(doc, fields.last()) {
                Some(v) => Ok(vs.push(v)),
                None => Err(
                    error::internal("stored doc is missing indexed field '"@ + fields.last() + "'"@),
                ),
            },
        }
    }
}

proof fn lemma_field_values_fail(fields: Seq<Seq<char>>, doc: JsonV, n: int)
    requires
        0 <= n <= fields.len(),
        field_values(fields.take(n), doc) is Err,
    ensures
        field_values(fields, doc) == field_values(fields.take(n), doc),
    decreases fields.len(),
{
    if n == fields.len() {
        assert(fields.take(n) =~= fields);
    } else {
        assert(fields.drop_last().take(n) =~= fields.take(n));
        lemma_field_values_fail(fields.drop_last(), doc, n);
    }
}

/// The remaining fields of an index behind a prefix.
pub open spec fn fields_behind(ix: Option<&IndexDef>, eq_len: nat) -> Seq<Seq<char>> {
    match ix {
        Some(ix) => ix@.fields.skip(eq_len as int),
        None => Seq::empty(),
    }
}

fn row_sort_values(ix: Option<&IndexDef>, eq_len: usize, row: &Row) -> (r: Result<
    Vec<Json>,
    RtDbError,
>)
    requires
        ix matches Some(x) ==> eq_len <= x.fields@.len(),
    ensures
        match sort_values(fields_behind(ix, eq_len as nat), row@) {
            Ok(vs) => r matches Ok(x) && json::json_views(x@) == vs,
            Err(e) => r matches Err(x) && x@ == e,
        },
{
    let ghost rest = fields_behind(ix, eq_len as nat);
    let mut values: Vec<Json> = Vec::new();
    assert(rest.take(0) =~= Seq::<Seq<char>>::empty());
    assert(json::json_views(values@) =~= Seq::<JsonV>::empty());
    match ix {
        Some(def) => {
            let mut i: usize = eq_len;
            while i < def.fields.len()
                invariant
                    ix == Some(def),
                    eq_len <= i <= def.fields@.len(),
                    rest == text::strs(def.fields@).skip(eq_len as int),
                    field_values(rest.take(i - eq_len), row@.doc) == Ok::<Seq<JsonV>, ErrorV>(
                        json::json_views(values@),
                    ),
                    rest == fields_behind(ix, eq_len as nat),
                decreases def.fields@.len() - i,
            {
                let ghost next = rest.take(i - eq_len + 1);
                assert(next.drop_last() =~= rest.take(i - eq_len));
                assert(next.last() == def.fields@[i as int]@);
                match row.doc.get(def.fields[i].as_str()) {
                    Some(v) => {
                        let ghost before = json::json_views(values@);
                        values.push(v.copy());
                        assert(json::json_views(values@) =~= before.push(v@));
                    },
                    None => {
                        proof {
                            lemma_field_values_fail(rest, row@.doc, i - eq_len + 1);
                        }
                        return Err(
                            RtDbError::internal(
                                cat3(
                                    "stored doc is missing indexed field '",
                                    def.fields[i].as_str(),
                                    "'",
                                ),
                            ),
                        );
                    },
                }
                i = i + 1;
            }
        },
        None => {},
    }
    assert(rest.take(rest.len() as int) =~= rest);
    let ghost v0 = json::json_views(values@);
    values.push(Json::Number(JsonNumber::from_i64(row.created_at)));
    values.push(Json::String(row.id.clone()));
    assert(json::json_views(values@) =~= v0.push(
        JsonV::Number(number::number_of(row@.created_at)),
    ).push(JsonV::String(row@.id)));
    Ok(values)
}

/// The size of a page: what is asked, at most as much as a query may give.
pub open spec fn page_size(num_items: u32) -> nat {
    if num_items <= MAX_TAKE {
        num_items as nat
    } else {
        MAX_TAKE as nat
    }
}

/// The rows of a page out of the rows read for it: one row more than the page
/// holds tells that another page follows, and is left to that page.
pub open spec fn page_of<T>(rows: Seq<T>, num_items: u32) -> Seq<T> {
    if rows.len() > page_size(num_items) {
        rows.drop_last()
    } else {
        rows
    }
}

/// The row a next page starts behind, where one follows.
pub open spec fn last_of_page<T>(rows: Seq<T>, num_items: u32) -> Option<T> {
    if rows.len() > page_size(num_items) && rows.len() > 1 {
        Some(rows[rows.len() - 2])
    } else {
        None
    }
}

/// The cursor of the sort values of the last row of a page.
pub open spec fn next_cursor_of(values: Option<Result<Seq<JsonV>, ErrorV>>) -> Result<
    Option<Seq<char>>,
    ErrorV,
> {
    match values {
        None => Ok(None),
        Some(Err(e)) => Err(e),
        Some(Ok(vs)) => match pagination::cursor_of(
            pagination::array_text(pagination::rebuilt_values(vs)),
        ) {
            Ok(c) => Ok(Some(c)),
            Err(e) => Err(e),
        },
    }
}

/// A page of documents with the cursor of the next one.
pub open spec fn paged(
    cursor: Result<Option<Seq<char>>, ErrorV>,
    docs: Result<Seq<JsonV>, ErrorV>,
) -> Result<ResultV, ErrorV> {
    match (cursor, docs) {
        (Err(e), _) => Err(e),
        (_, Err(e)) => Err(e),
        (Ok(c), Ok(d)) => Ok(ResultV::Paginated(d, c)),
    }
}

/// The sort values that the next cursor of a page stands for.
pub open spec fn next_values(fields: Seq<Seq<char>>, rows: Seq<RowV>, num_items: u32) -> Option<
    Result<Seq<JsonV>, ErrorV>,
> {
    match last_of_page(rows, num_items) {
        Some(last) => Some(sort_values(fields, last)),
        None => None,
    }
}

/// Answers a page read from the rows read for it. The next cursor stands for the
/// sort values of the last row of the page.
pub fn finish_paginate(
    index_def: Option<&IndexDef>,
    eq_len: usize,
    num_items: u32,
    rows: Vec<Row>,
) -> (r: Result<QueryResult, RtDbError>)
    requires
        index_def matches Some(x) ==> eq_len <= x.fields@.len(),
    ensures
        match paged(
            next_cursor_of(
                next_values(fields_behind(index_def, eq_len as nat), row_views(rows@), num_items),
            ),
            merged_all(page_of(row_views(rows@), num_items)),
        ) {
            Ok(v) => r matches Ok(x) && x@ == v,
            Err(e) => r matches Err(x) && x@ == e,
        },
        r matches Ok(x) ==> (x@ matches ResultV::Paginated(_, Some(c)) ==> (next_values(
            fields_behind(index_def, eq_len as nat),
            row_views(rows@),
            num_items,
        ) matches Some(Ok(vs)) && (pagination::all_plain(vs) ==> pagination::cursor_values(c) == Ok::<
            Seq<JsonV>,
            ErrorV,
        >(vs)))),
{
    let ghost rs = row_views(rows@);
    let mut rows = rows;
    let size: usize = if num_items <= MAX_TAKE {
        num_items as usize
    } else {
        MAX_TAKE as usize
    };
    let has_next = rows.len() > size;
    if has_next {
        let ghost before = rows@;
        let dropped = rows.pop();
        assert(row_views(rows@) =~= rs.drop_last());
    }
    assert(row_views(rows@) == page_of(rs, num_items));
    let mut next_cursor: Option<String> = None;
    if has_next && rows.len() > 0 {
        let last: usize = rows.len() - 1;
        assert(last_of_page(rs, num_items) == Some(rows@[last as int]@)) by {
            assert(rs.drop_last()[last as int] == rs[last as int]);
            assert(row_views(rows@)[last as int] == rows@[last as int]@);
        }
        let values = match row_sort_values(index_def, eq_len, &rows[last]) {
            Ok(v) => v,
            Err(e) => {
                return Err(e);
            },
        };
        match encode_cursor(&values) {
            Ok(c) => {
                next_cursor = Some(c);
            },
            Err(e) => {
                return Err(e);
            },
        }
    }
    match merge_all(&rows) {
        Ok(docs) => Ok(QueryResult::Paginated(PaginatedResult { docs, next_cursor })),
        Err(e) => Err(e),
    }
}

/// A document with its excerpt, where it has one.
pub open spec fn with_snippet(d: JsonV, snippet: Option<Seq<char>>) -> JsonV {
    match (d, snippet) {
        (JsonV::Object(entries), Some(s)) => JsonV::Object(
            json::entry_put(entries, "_searchSnippet"@, JsonV::String(s)),
        ),
        _ => d,
    }
}

/// The documents of ranked rows, each with its excerpt where it has one.
pub open spec fn ranked_docs(rows: Seq<RankedRowV>) -> Result<Seq<JsonV>, ErrorV>
    decreases rows.len(),
{
    if rows.len() == 0 {
        Ok(Seq::empty())
    } else {
        match ranked_docs(rows.drop_last()) {
            Err(e) => Err(e),
            Ok(docs) => match merged(rows.last().row) {
                Ok(d) => Ok(docs.push(with_snippet(d, rows.last().snippet))),
                Err(e) => Err(e),
            },
        }
    }
}

proof fn lemma_ranked_fail(rows: Seq<RankedRowV>, n: int)
    requires
        0 <= n <= rows.len(),
        ranked_docs(rows.take(n)) is Err,
    ensures
        ranked_docs(rows) == ranked_docs(rows.take(n)),
    decreases rows.len(),
{
    if n == rows.len() {
        assert(rows.take(n) =~= rows);
    } else {
        assert(rows.drop_last().take(n) =~= rows.take(n));
        lemma_ranked_fail(rows.drop_last(), n);
    }
}

fn merge_ranked(rows: &Vec<RankedRow>) -> (r: Result<Vec<Json>, RtDbError>)
    ensures
        match ranked_docs(ranked_views(rows@)) {
            Ok(d) => r matches Ok(x) && json::json_views(x@) == d,
            Err(e) => r matches Err(x) && x@ == e,
        },
{
    broadcast use json::lemma_json_view;

    let ghost rs = ranked_views(rows@);
    let mut docs: Vec<Json> = Vec::new();
    let mut i: usize = 0;
    assert(rs.take(0) =~= Seq::<RankedRowV>::empty());
    assert(json::json_views(docs@) =~= Seq::<JsonV>::empty());
    while i < rows.len()
        invariant
            i <= rows@.len(),
            rs == ranked_views(rows@),
            ranked_docs(rs.take(i as int)) == Ok::<Seq<JsonV>, ErrorV>(json::json_views(docs@)),
        decreases rows@.len() - i,
    {
        broadcast use json::lemma_json_view;

        assert(rs.take(i as int + 1).drop_last() =~= rs.take(i as int));
        assert(rs.take(i as int + 1).last() == rows@[i as int]@);
        let row = &rows[i].row;
        let doc = match merge_doc(row.id.clone(), row.doc.copy(), row.created_at, row.version) {
            Ok(d) => d,
            Err(e) => {
                proof {
                    lemma_ranked_fail(rs, i as int + 1);
                }
                return Err(e);
            },
        };
        let ghost dv = doc@;
        let out = match (doc, &rows[i].snippet) {
            (Json::Object(found), Some(s)) => {
                let mut entries = found;
                json::put_entry(
                    &mut entries,
                    "_searchSnippet".to_owned(),
                    Json::String(s.clone()),
                );
                Json::Object(entries)
            },
            (d, _) => d,
        };
        let ghost before = json::json_views(docs@);
        let ghost ov = out@;
        assert(ov == with_snippet(dv, rs[i as int].snippet));
        docs.push(out);
        assert(json::json_views(docs@) =~= before.push(ov));
        i = i + 1;
    }
    assert(rs.take(rows@.len() as int) =~= rs);
    Ok(docs)
}

/// The sort values of a ranked row: its ranking key, creation time and id.
pub open spec fn ranked_values(r: RankedRowV) -> Seq<JsonV> {
    seq![
        JsonV::Number(r.rank),
        JsonV::Number(number::number_of(r.row.created_at)),
        JsonV::String(r.row.id),
    ]
}

/// The sort values that the next cursor of a page of ranked rows stands for.
pub open spec fn next_ranked_values(rows: Seq<RankedRowV>, num_items: u32) -> Option<
    Result<Seq<JsonV>, ErrorV>,
> {
    match last_of_page(rows, num_items) {
        Some(last) => Some(Ok(ranked_values(last))),
        None => None,
    }
}

/// Answers a page of a ranked search from the rows read for it.
pub fn finish_ranked_paginated(num_items: u32, rows: Vec<RankedRow>) -> (r: Result<
    QueryResult,
    RtDbError,
>)
    ensures
        match paged(
            next_cursor_of(next_ranked_values(ranked_views(rows@), num_items)),
            ranked_docs(page_of(ranked_views(rows@), num_items)),
        ) {
            Ok(v) => r matches Ok(x) && x@ == v,
            Err(e) => r matches Err(x) && x@ == e,
        },
{
    let ghost rs = ranked_views(rows@);
    let mut rows = rows;
    let size: usize = if num_items <= MAX_TAKE {
        num_items as usize
    } else {
        MAX_TAKE as usize
    };
    let has_next = rows.len() > size;
    if has_next {
        let dropped = rows.pop();
        assert(ranked_views(rows@) =~= rs.drop_last());
    }
    assert(ranked_views(rows@) == page_of(rs, num_items));
    let mut next_cursor: Option<String> = None;
    if has_next && rows.len() > 0 {
        let last: usize = rows.len() - 1;
        assert(last_of_page(rs, num_items) == Some(rows@[last as int]@)) by {
            assert(rs.drop_last()[last as int] == rs[last as int]);
            assert(ranked_views(rows@)[last as int] == rows@[last as int]@);
        }
        let mut values: Vec<Json> = Vec::new();
        values.push(Json::Number(rows[last].rank.copy()));
        values.push(Json::Number(JsonNumber::from_i64(rows[last].row.created_at)));
        values.push(Json::String(rows[last].row.id.clone()));
        assert(json::json_views(values@) =~= ranked_values(rows@[last as int]@));
        match encode_cursor(&values) {
            Ok(c) => {
                next_cursor = Some(c);
            },
            Err(e) => {
                return Err(e);
            },
        }
    }
    match merge_ranked(&rows) {
        Ok(docs) => Ok(QueryResult::Paginated(PaginatedResult { docs, next_cursor })),
        Err(e) => Err(e),
    }
}

/// Answers an unpaged ranked search from its rows.
pub fn finish_ranked(rows: Vec<RankedRow>) -> (r: Result<QueryResult, RtDbError>)
    ensures
        match ranked_docs(ranked_views(rows@)) {
            Ok(d) => r matches Ok(x) && x@ == ResultV::Docs(d),
            Err(e) => r matches Err(x) && x@ == e,
        },
{
    match merge_ranked(&rows) {
        Ok(docs) => Ok(QueryResult::Docs(docs)),
        Err(e) => Err(e),
    }
}

/// A document belongs to the user, or is shared with them.
pub open spec fn owned_or_shared(
    doc: JsonV,
    owner_field: Option<Seq<char>>,
    collab_field: Option<Seq<char>>,
    uid: Seq<char>,
) -> bool {
    ||| owner_field matches Some(f) && json::field_of(doc, f) == Some(JsonV::String(uid))
    ||| collab_field matches Some(f) && (json::field_of(doc, f) matches Some(JsonV::Array(items))
        && items.contains(JsonV::String(uid)))
}

/// Whether a document belongs to the user, or is shared with them.
pub fn row_visible_to(
    doc: &Json,
    owner_field: Option<&str>,
    collab_field: Option<&str>,
    uid: &str,
) -> (r: bool)
    ensures
        r == owned_or_shared(
            doc@,
            text::opt_slice(owner_field),
            text::opt_slice(collab_field),
            uid@,
        ),
{
    broadcast use json::lemma_json_view;

    if let Some(f) = owner_field {
        if let Some(Json::String(s)) = doc.get(f) {
            if same(s.as_str(), uid) {
                return true;
            }
        }
    }
    if let Some(f) = collab_field {
        if let Some(Json::Array(items)) = doc.get(f) {
            let ghost vs = json::json_views(items@);
            let mut i: usize = 0;
            while i < items.len()
                invariant
                    i <= items@.len(),
                    vs == json::json_views(items@),
                    collab_field == Some(f),
                    json::field_of(doc@, f@) == Some(JsonV::Array(vs)),
                    forall|k: int| 0 <= k < i ==> vs[k] != JsonV::String(uid@),
                decreases items@.len() - i,
            {
                broadcast use json::lemma_json_view;

                assert(vs[i as int] == items@[i as int]@);
                if let Json::String(s) = &items[i] {
                    if same(s.as_str(), uid) {
                        assert(vs[i as int] == JsonV::String(uid@));
                        return true;
                    }
                }
                i = i + 1;
            }
            assert(!vs.contains(JsonV::String(uid@)));
        }
    }
    false
}

/// A row can be read by the caller: it passes the owner predicate where one
/// applies, and the `authorize` predicate where the caller is a user.
pub open spec fn readable(t: TableV, ctx: CtxV, doc: JsonV) -> bool {
    &&& row_auth::enforced_uid(t.owner_field, t.collaborators_field, ctx.user) matches Some(uid)
        ==> owned_or_shared(doc, t.owner_field, t.collaborators_field, uid)
    &&& (t.authorize matches Some(f) && ctx.user is Some) ==> row_auth::doc_matches(
        doc,
        t.authorize->0,
        ctx,
    )
}

/// The answer of a point read: a row the caller cannot read is as if missing.
pub open spec fn point_result(t: TableV, ctx: CtxV, row: Option<RowV>) -> Result<ResultV, ErrorV> {
    match row {
        None => Ok(ResultV::Doc(None)),
        Some(r) => if !readable(t, ctx, r.doc) {
            Ok(ResultV::Doc(None))
        } else {
            match merged(r) {
                Ok(d) => Ok(ResultV::Doc(Some(d))),
                Err(e) => Err(e),
            }
        },
    }
}

/// Answers a point read from the row found, if any.
pub fn finish_point_read(table_def: &TableDef, ctx: &PrincipalCtx, row: Option<Row>) -> (r: Result<
    QueryResult,
    RtDbError,
>)
    ensures
        match point_result(
            table_def@,
            ctx@,
            match row {
                Some(x) => Some(x@),
                None => None,
            },
        ) {
            Ok(v) => r matches Ok(x) && x@ == v,
            Err(e) => r matches Err(x) && x@ == e,
        },
{
    let row = match row {
        Some(row) => row,
        None => {
            return Ok(QueryResult::Doc(None));
        },
    };
    let owner_field: Option<&str> = match &table_def.owner_field {
        Some(s) => Some(s.as_str()),
        None => None,
    };
    let collab_field: Option<&str> = match &table_def.collaborators_field {
        Some(s) => Some(s.as_str()),
        None => None,
    };
    let owner: Option<&str> = match &ctx.user_id {
        Some(s) => Some(s.as_str()),
        None => None,
    };
    assert(text::opt_slice(owner_field) == table_def@.owner_field);
    assert(text::opt_slice(collab_field) == table_def@.collaborators_field);
    assert(text::opt_slice(owner) == ctx@.user);
    if let Some(uid) = row_auth_enforced_uid(owner_field, collab_field, owner) {
        if !row_visible_to(&row.doc, owner_field, collab_field, uid) {
            return Ok(QueryResult::Doc(None));
        }
    }
    if let Some(expr) = &table_def.authorize {
        if ctx.user_id.is_some() && !filter_matches(&row.doc, expr, ctx) {
            return Ok(QueryResult::Doc(None));
        }
    }
    match merge_doc(row.id, row.doc, row.created_at, row.version) {
        Ok(d) => Ok(QueryResult::Doc(Some(d))),
        Err(e) => Err(e),
    }
}

/// A key survives a projection: it is a system key or a listed one.
pub open spec fn kept_key(key: Seq<char>, names: Seq<Seq<char>>) -> bool {
    (key.len() > 0 && key[0] == '_') || names.contains(key)
}

/// The entries that survive a projection, in order.
pub open spec fn kept_entries(entries: Seq<(Seq<char>, JsonV)>, names: Seq<Seq<char>>) -> Seq<
    (Seq<char>, JsonV),
>
    decreases entries.len(),
{
    if entries.len() == 0 {
        Seq::empty()
    } else if kept_key(entries.last().0, names) {
        kept_entries(entries.drop_last(), names).push(entries.last())
    } else {
        kept_entries(entries.drop_last(), names)
    }
}

/// A document under a projection.
pub open spec fn projected(d: JsonV, names: Seq<Seq<char>>) -> JsonV {
    match d {
        JsonV::Object(entries) => JsonV::Object(kept_entries(entries, names)),
        _ => d,
    }
}

/// Documents under a projection.
pub open spec fn projected_all(docs: Seq<JsonV>, names: Seq<Seq<char>>) -> Seq<JsonV> {
    Seq::new(docs.len(), |i: int| projected(docs[i], names))
}

/// An answer under a projection: its documents are projected.
pub open spec fn projected_result(r: ResultV, names: Seq<Seq<char>>) -> ResultV {
    match r {
        ResultV::Doc(Some(d)) => ResultV::Doc(Some(projected(d, names))),
        ResultV::Docs(docs) => ResultV::Docs(projected_all(docs, names)),
        ResultV::Paginated(docs, c) => ResultV::Paginated(projected_all(docs, names), c),
        _ => r,
    }
}

fn keeps_key(key: &str, fields: &Vec<String>) -> (r: bool)
    ensures
        r == kept_key(key@, text::strs(fields@)),
{
    let v = text::chars_of(key);
    let system = v.len() > 0 && v[0] == '_';
    system || has_string(fields, key)
}

fn project_doc(doc: &Json, fields: &Vec<String>) -> (r: Json)
    ensures
        r@ == projected(doc@, text::strs(fields@)),
{
    broadcast use json::lemma_json_view;

    match doc {
        Json::Object(entries) => {
            let ghost es = json::entry_views(entries@);
            let ghost names = text::strs(fields@);
            let mut out: Vec<(String, Json)> = Vec::new();
            let mut i: usize = 0;
            assert(es.take(0) =~= Seq::<(Seq<char>, JsonV)>::empty());
            assert(json::entry_views(out@) =~= Seq::<(Seq<char>, JsonV)>::empty());
            while i < entries.len()
                invariant
                    i <= entries@.len(),
                    es == json::entry_views(entries@),
                    names == text::strs(fields@),
                    json::entry_views(out@) == kept_entries(es.take(i as int), names),
                decreases entries@.len() - i,
            {
                assert(es.take(i as int + 1).drop_last() =~= es.take(i as int));
                assert(es.take(i as int + 1).last() == es[i as int]);
                if keeps_key(entries[i].0.as_str(), fields) {
                    let ghost before = json::entry_views(out@);
                    out.push((entries[i].0.clone(), entries[i].1.copy()));
                    assert(json::entry_views(out@) =~= before.push(es[i as int]));
                }
                i = i + 1;
            }
            assert(es.take(entries@.len() as int) =~= es);
            Json::Object(out)
        },
        _ => doc.copy(),
    }
}

fn project_docs(docs: &Vec<Json>, fields: &Vec<String>) -> (r: Vec<Json>)
    ensures
        json::json_views(r@) == projected_all(json::json_views(docs@), text::strs(fields@)),
{
    let mut out: Vec<Json> = Vec::new();
    let mut i: usize = 0;
    while i < docs.len()
        invariant
            i <= docs@.len(),
            out@.len() == i,
            forall|k: int|
                0 <= k < i ==> (#[trigger] out@[k])@ == projected(docs@[k]@, text::strs(fields@)),
        decreases docs@.len() - i,
    {
        out.push(project_doc(&docs[i], fields));
        i = i + 1;
    }
    assert(json::json_views(out@) =~= projected_all(
        json::json_views(docs@),
        text::strs(fields@),
    ));
    out
}

/// Keeps of each document of an answer its system fields and the listed ones.
pub fn project_result(result: &mut QueryResult, fields: &Vec<String>)
    ensures
        final(result)@ == projected_result(old(result)@, text::strs(fields@)),
{
    let changed: Option<QueryResult> = match &*result {
        QueryResult::Doc(Some(d)) => Some(QueryResult::Doc(Some(project_doc(d, fields)))),
        QueryResult::Docs(docs) => Some(QueryResult::Docs(project_docs(docs, fields))),
        QueryResult::Paginated(p) => Some(
            QueryResult::Paginated(
                PaginatedResult {
                    docs: project_docs(&p.docs, fields),
                    next_cursor: p.next_cursor.clone(),
                },
            ),
        ),
        _ => None,
    };
    if let Some(r) = changed {
        *result = r;
    }
}

/// A projected document has exactly the kept fields of the document.
pub proof fn law_projection_keeps_listed_fields(
    entries: Seq<(Seq<char>, JsonV)>,
    names: Seq<Seq<char>>,
    key: Seq<char>,
)
    ensures
        json::entry_of(kept_entries(entries, names), key) == (if kept_key(key, names) {
            json::entry_of(entries, key)
        } else {
            None
        }),
    decreases entries.len(),
{
    if entries.len() > 0 {
        let init = entries.drop_last();
        let last = entries.last();
        law_projection_keeps_listed_fields(init, names, key);
        assert(entries =~= init.push(last));
        lemma_entry_of_push(init, last, key);
        lemma_entry_of_push(kept_entries(init, names), last, key);
    }
}

proof fn lemma_entry_of_push(
    entries: Seq<(Seq<char>, JsonV)>,
    last: (Seq<char>, JsonV),
    key: Seq<char>,
)
    ensures
        json::entry_of(entries.push(last), key) == (match json::entry_of(entries, key) {
            Some(v) => Some(v),
            None => if last.0 == key {
                Some(last.1)
            } else {
                None
            },
        }),
    decreases entries.len(),
{
    let all = entries.push(last);
    if entries.len() == 0 {
        assert(all.drop_first() =~= Seq::<(Seq<char>, JsonV)>::empty());
        reveal_with_fuel(json::entry_of, 2);
    } else {
        lemma_entry_of_push(entries.drop_first(), last, key);
        assert(all.drop_first() =~= entries.drop_first().push(last));
        assert(all[0] == entries[0]);
    }
}

/// Projecting twice is projecting once.
pub proof fn law_projection_is_idempotent(d: JsonV, names: Seq<Seq<char>>)
    ensures
        projected(projected(d, names), names) == projected(d, names),
{
    match d {
        JsonV::Object(entries) => {
            lemma_kept_idempotent(entries, names);
        },
        _ => {},
    }
}

proof fn lemma_kept_idempotent(entries: Seq<(Seq<char>, JsonV)>, names: Seq<Seq<char>>)
    ensures
        kept_entries(kept_entries(entries, names), names) == kept_entries(entries, names),
    decreases entries.len(),
{
    if entries.len() > 0 {
        let init = entries.drop_last();
        lemma_kept_idempotent(init, names);
        if kept_key(entries.last().0, names) {
            let k = kept_entries(init, names);
            assert(k.push(entries.last()).drop_last() =~= k);
        }
    }
}

/// A document without its version.
pub open spec fn unversioned(d: JsonV) -> JsonV {
    match d {
        JsonV::Object(entries) => JsonV::Object(json::entry_drop(entries, "_version"@)),
        _ => d,
    }
}

/// Documents without their versions.
pub open spec fn unversioned_all(docs: Seq<JsonV>) -> Seq<JsonV> {
    Seq::new(docs.len(), |i: int| unversioned(docs[i]))
}

/// What of an answer is compared to detect a change: the versions of documents
/// are left out where the query projects fields.
pub open spec fn compared(r: ResultV, q: QueryV) -> ResultV {
    if q.fields is None {
        r
    } else {
        match r {
            ResultV::Doc(Some(d)) => ResultV::Doc(Some(unversioned(d))),
            ResultV::Docs(docs) => ResultV::Docs(unversioned_all(docs)),
            ResultV::Paginated(docs, c) => ResultV::Paginated(unversioned_all(docs), c),
            _ => r,
        }
    }
}

fn strip_version(doc: &Json) -> (r: Json)
    ensures
        r@ == unversioned(doc@),
{
    broadcast use json::lemma_json_view;

    match doc {
        Json::Object(entries) => {
            let ghost es = json::entry_views(entries@);
            let ghost key = "_version"@;
            let mut out: Vec<(String, Json)> = Vec::new();
            let mut i: usize = 0;
            assert(es.skip(0) =~= es);
            assert(json::entry_views(out@) + json::entry_drop(es, key) =~= json::entry_drop(
                es,
                key,
            ));
            while i < entries.len()
                invariant
                    i <= entries@.len(),
                    es == json::entry_views(entries@),
                    key == "_version"@,
                    json::entry_drop(es, key) == json::entry_views(out@) + json::entry_drop(
                        es.skip(i as int),
                        key,
                    ),
                decreases entries@.len() - i,
            {
                let ghost rest = es.skip(i as int);
                assert(rest[0] == es[i as int]);
                assert(rest.drop_first() =~= es.skip(i as int + 1));
                if !same(entries[i].0.as_str(), "_version") {
                    let ghost before = json::entry_views(out@);
                    out.push((entries[i].0.clone(), entries[i].1.copy()));
                    assert(json::entry_views(out@) =~= before.push(es[i as int]));
                    assert(before + (seq![rest[0]] + json::entry_drop(rest.drop_first(), key))
                        =~= json::entry_views(out@) + json::entry_drop(
                        es.skip(i as int + 1),
                        key,
                    ));
                }
                i = i + 1;
            }
            assert(es.skip(entries@.len() as int) =~= Seq::<(Seq<char>, JsonV)>::empty());
            assert(json::entry_views(out@) + Seq::<(Seq<char>, JsonV)>::empty()
                =~= json::entry_views(out@));
            Json::Object(out)
        },
        _ => doc.copy(),
    }
}

fn strip_versions(docs: &Vec<Json>) -> (r: Vec<Json>)
    ensures
        json::json_views(r@) == unversioned_all(json::json_views(docs@)),
{
    let mut out: Vec<Json> = Vec::new();
    let mut i: usize = 0;
    while i < docs.len()
        invariant
            i <= docs@.len(),
            out@.len() == i,
            forall|k: int| 0 <= k < i ==> (#[trigger] out@[k])@ == unversioned(docs@[k]@),
        decreases docs@.len() - i,
    {
        out.push(strip_version(&docs[i]));
        i = i + 1;
    }
    assert(json::json_views(out@) =~= unversioned_all(json::json_views(docs@)));
    out
}

impl QueryResult {
    /// A copy of the answer.
    pub fn copy(&self) -> (r: QueryResult)
        ensures
            r@ == self@,
    {
        match self {
            QueryResult::Doc(Some(d)) => QueryResult::Doc(Some(d.copy())),
            QueryResult::Doc(None) => QueryResult::Doc(None),
            QueryResult::Docs(v) => QueryResult::Docs(json::copy_all(v)),
            QueryResult::Count(n) => QueryResult::Count(*n),
            QueryResult::Distinct(v) => QueryResult::Distinct(json::copy_all(v)),
            QueryResult::Aggregate(v) => QueryResult::Aggregate(v.copy()),
            QueryResult::AggregateGroups(v) => {
                let mut out: Vec<AggregateGroup> = Vec::new();
                let mut i: usize = 0;
                while i < v.len()
                    invariant
                        i <= v@.len(),
                        out@.len() == i,
                        forall|k: int|
                            0 <= k < i ==> (#[trigger] out@[k]).key@ == v@[k].key@
                                && out@[k].value@ == v@[k].value@,
                    decreases v@.len() - i,
                {
                    out.push(AggregateGroup { key: v[i].key.copy(), value: v[i].value.copy() });
                    i = i + 1;
                }
                assert(group_views(out@) =~= group_views(v@));
                QueryResult::AggregateGroups(out)
            },
            QueryResult::Paginated(p) => QueryResult::Paginated(
                PaginatedResult {
                    docs: json::copy_all(&p.docs),
                    next_cursor: p.next_cursor.clone(),
                },
            ),
        }
    }
}

/// What of an answer is compared to detect a change.
pub fn diff_form(result: &QueryResult, q: &Query) -> (r: QueryResult)
    ensures
        r@ == compared(result@, q@),
{
    if q.fields.is_none() {
        return result.copy();
    }
    match result {
        QueryResult::Doc(Some(d)) => QueryResult::Doc(Some(strip_version(d))),
        QueryResult::Docs(docs) => QueryResult::Docs(strip_versions(docs)),
        QueryResult::Paginated(p) => QueryResult::Paginated(
            PaginatedResult {
                docs: strip_versions(&p.docs),
                next_cursor: p.next_cursor.clone(),
            },
        ),
        _ => result.copy(),
    }
}

/// The JSON value of one group.
pub open spec fn group_json(g: (JsonV, JsonV)) -> JsonV {
    JsonV::Object(seq![("key"@, g.0), ("value"@, g.1)])
}

/// The JSON value of an answer.
pub open spec fn answer_json(r: ResultV) -> JsonV {
    match r {
        ResultV::Doc(Some(d)) => d,
        ResultV::Doc(None) => JsonV::Null,
        ResultV::Docs(v) => JsonV::Array(v),
        ResultV::Count(n) => JsonV::Number(number::number_of(n)),
        ResultV::Distinct(v) => JsonV::Array(v),
        ResultV::Aggregate(v) => v,
        ResultV::AggregateGroups(v) => JsonV::Array(
            Seq::new(v.len(), |i: int| group_json(v[i])),
        ),
        ResultV::Paginated(docs, next) => JsonV::Object(
            seq![
                ("docs"@, JsonV::Array(docs)),
                (
                    "nextCursor"@,
                    match next {
                        Some(c) => JsonV::String(c),
                        None => JsonV::Null,
                    },
                ),
            ],
        ),
    }
}

impl QueryResult {
    /// The JSON value of the answer.
    pub fn to_json(&self) -> (r: Json)
        ensures
            r@ == answer_json(self@),
    {
        broadcast use json::lemma_json_view;

        match self {
            QueryResult::Doc(Some(d)) => d.copy(),
            QueryResult::Doc(None) => Json::Null,
            QueryResult::Docs(v) => Json::Array(json::copy_all(v)),
            QueryResult::Count(n) => Json::Number(JsonNumber::from_i64(*n)),
            QueryResult::Distinct(v) => Json::Array(json::copy_all(v)),
            QueryResult::Aggregate(v) => v.copy(),
            QueryResult::AggregateGroups(v) => {
                let mut out: Vec<Json> = Vec::new();
                let mut i: usize = 0;
                while i < v.len()
                    invariant
                        i <= v@.len(),
                        out@.len() == i,
                        forall|k: int|
                            0 <= k < i ==> (#[trigger] out@[k])@ == group_json(
                                (v@[k].key@, v@[k].value@),
                            ),
                    decreases v@.len() - i,
                {
                    broadcast use json::lemma_json_view;

                    let mut entries: Vec<(String, Json)> = Vec::new();
                    entries.push(("key".to_owned(), v[i].key.copy()));
                    entries.push(("value".to_owned(), v[i].value.copy()));
                    assert(json::entry_views(entries@) =~= seq![
                        ("key"@, v@[i as int].key@),
                        ("value"@, v@[i as int].value@),
                    ]);
                    out.push(Json::Object(entries));
                    i = i + 1;
                }
                assert(json::json_views(out@) =~= answer_json(self@)->Array_0);
                Json::Array(out)
            },
            QueryResult::Paginated(p) => {
                let next = match &p.next_cursor {
                    Some(c) => Json::String(c.clone()),
                    None => Json::Null,
                };
                let ghost nv = next@;
                let docs = Json::Array(json::copy_all(&p.docs));
                let ghost dv = docs@;
                let mut entries: Vec<(String, Json)> = Vec::new();
                entries.push(("docs".to_owned(), docs));
                entries.push(("nextCursor".to_owned(), next));
                assert(json::entry_views(entries@) =~= seq![("docs"@, dv), ("nextCursor"@, nv)]);
                assert(json::entry_views(entries@) =~= answer_json(self@)->Object_0);
                Json::Object(entries)
            },
        }
    }
}

/// The text by which answers are compared; empty where there is no text.
pub open spec fn canonical_text(text: Result<Seq<char>, Seq<char>>) -> Seq<char> {
    match text {
        Ok(s) => s,
        Err(_) => Seq::empty(),
    }
}

/// The text of an answer, given its rendering.
pub fn canonical_of(text: Result<String, String>) -> (s: String)
    ensures
        s@ == canonical_text(text::result_text(text)),
{
    match text {
        Ok(s) => s,
        Err(_) => {
            let none = String::new();
            assert(none@ =~= Seq::<char>::empty());
            none
        },
    }
}

/// The text of an answer.
pub open spec fn canonical_form(r: ResultV) -> Seq<char> {
    canonical_text(pagination::value_text(pagination::rebuilt(answer_json(r))))
}

/// A stable text of an answer, to detect changes by.
pub fn canonical(result: &QueryResult) -> (s: String)
    ensures
        s@ == canonical_form(result@),
{
    canonical_of(render_value(&json_to_value(&result.to_json())))
}

/// The text by which a subscription detects a change: that of the answer, where
/// the query is projected without the versions of the documents.
pub fn diff_canonical(result: &QueryResult, q: &Query) -> (s: String)
    ensures
        s@ == canonical_form(compared(result@, q@)),
{
    canonical(&diff_form(result, q))
}

/// A write that only raises the version of a document is no change to a
/// projected query.
pub proof fn law_version_alone_is_no_change(
    entries: Seq<(Seq<char>, JsonV)>,
    version: JsonV,
    q: QueryV,
)
    requires
        q.fields is Some,
    ensures
        compared(
            ResultV::Doc(Some(JsonV::Object(json::entry_put(entries, "_version"@, version)))),
            q,
        ) == compared(ResultV::Doc(Some(JsonV::Object(entries))), q),
        canonical_form(
            compared(
                ResultV::Doc(Some(JsonV::Object(json::entry_put(entries, "_version"@, version)))),
                q,
            ),
        ) == canonical_form(compared(ResultV::Doc(Some(JsonV::Object(entries))), q)),
{
    json::law_drop_forgets_put(entries, "_version"@, version);
}

/// The values of a distinct read: an absent value is null.
pub open spec fn null_filled(v: Seq<Option<Json>>) -> Seq<JsonV> {
    Seq::new(
        v.len(),
        |i: int|
            match v[i] {
                Some(x) => x@,
                None => JsonV::Null,
            },
    )
}

/// Answers a distinct read from the values found.
pub fn finish_distinct(values: Vec<Option<Json>>) -> (r: QueryResult)
    ensures
        r@ == ResultV::Distinct(null_filled(values@)),
{
    let mut out: Vec<Json> = Vec::new();
    let mut i: usize = 0;
    while i < values.len()
        invariant
            i <= values@.len(),
            out@.len() == i,
            forall|k: int| 0 <= k < i ==> (#[trigger] out@[k])@ == null_filled(values@)[k],
        decreases values@.len() - i,
    {
        let item = match &values[i] {
            Some(v) => v.copy(),
            None => Json::Null,
        };
        out.push(item);
        i = i + 1;
    }
    assert(json::json_views(out@) =~= null_filled(values@));
    QueryResult::Distinct(out)
}

/// The groups of a grouped aggregation: an absent key is null.
pub open spec fn keyed_groups(v: Seq<(Option<Json>, Json)>) -> Seq<(JsonV, JsonV)> {
    Seq::new(
        v.len(),
        |i: int|
            (
                match v[i].0 {
                    Some(x) => x@,
                    None => JsonV::Null,
                },
                v[i].1@,
            ),
    )
}

/// Answers a grouped aggregation from the groups found.
pub fn finish_groups(groups: Vec<(Option<Json>, Json)>) -> (r: QueryResult)
    ensures
        r@ == ResultV::AggregateGroups(keyed_groups(groups@)),
{
    let mut out: Vec<AggregateGroup> = Vec::new();
    let mut i: usize = 0;
    while i < groups.len()
        invariant
            i <= groups@.len(),
            out@.len() == i,
            forall|k: int|
                0 <= k < i ==> ((#[trigger] out@[k]).key@, out@[k].value@) == keyed_groups(
                    groups@,
                )[k],
        decreases groups@.len() - i,
    {
        let key = match &groups[i].0 {
            Some(v) => v.copy(),
            None => Json::Null,
        };
        out.push(AggregateGroup { key, value: groups[i].1.copy() });
        i = i + 1;
    }
    assert(group_views(out@) =~= keyed_groups(groups@));
    QueryResult::AggregateGroups(out)
}

} // verus!
