//! Reads: compiled statements, cursors, and answers made from rows.
use rtdb::dsl::{
    AggregateOp, AggregateSpec, EqBind, FilterExpr, HybridSearchQuery, Order, Paginate,
    PrincipalCtx, Query, SearchMode, SearchQuery, VectorSearchQuery,
};
use rtdb::error::{ErrorCode, RtDbError};
use rtdb::json::{Json, JsonNumber};
use rtdb::pagination::{decode_cursor, encode_cursor};
use rtdb::query::combinations::check_query_combinations;
use rtdb::query::compiled::{page_item_count, page_row_count, CompiledQuery};
use rtdb::query::filter::compile_scan_where;
use rtdb::query::keyset::{build_cursor_conditions, SortCol, SortKey};
use rtdb::query::result::{
    canonical, canonical_of, diff_canonical, finish_collect, finish_distinct, finish_groups,
    finish_paginate, finish_point_read, finish_ranked, finish_ranked_paginated, merge_doc,
    project_result, row_visible_to, PaginatedResult, QueryResult, RankedRow, Row,
};
use rtdb::query::row_auth::owner_filter;
use rtdb::query::search::{
    compile_hybrid_search, compile_search, compile_vector_search, CompileSearchCtx,
};
use rtdb::query::terminals::{compile_query, is_numeric_index_field, page_context};
use rtdb::query::warnings::{collect_filter_warnings, validate_projection};
use rtdb::query::window::compile_query_window;
use rtdb::schema::{FieldType, IndexDef, SchemaDef, TableDef, VectorMetric, VectorSpec};
use rtdb::strmap::StrMap;

fn s(v: &str) -> Json {
    Json::String(v.to_string())
}

fn n(v: i64) -> Json {
    Json::Number(JsonNumber::from_i64(v))
}

fn obj(entries: &[(&str, Json)]) -> Json {
    Json::Object(entries.iter().map(|(k, v)| (k.to_string(), v.copy())).collect())
}

fn index(name: &str, fields: &[&str]) -> IndexDef {
    IndexDef {
        name: name.to_string(),
        fields: fields.iter().map(|f| f.to_string()).collect(),
        search: false,
        vector: None,
        unique: false,
        predicate: None,
        language: None,
    }
}

fn table() -> TableDef {
    let mut fields = StrMap::new();
    fields.insert("kind".to_string(), FieldType::String);
    fields.insert("rank".to_string(), FieldType::Number);
    fields.insert("body".to_string(), FieldType::String);
    fields.insert("owner".to_string(), FieldType::String);
    fields.insert(
        "shared".to_string(),
        FieldType::Array { element: Box::new(FieldType::String) },
    );
    let mut t = TableDef::with_fields(fields);
    let mut text = index("Text", &["body", "kind"]);
    text.search = true;
    text.language = Some("english".to_string());
    let mut vector = index("Vec", &[]);
    vector.vector = Some(VectorSpec {
        dimensions: 2,
        metric: VectorMetric::L2,
        filter_fields: vec!["owner".to_string()],
    });
    t.indexes = vec![index("by_kind", &["kind", "rank"]), text, vector];
    t
}

fn schema_of(t: TableDef) -> SchemaDef {
    let mut tables = StrMap::new();
    tables.insert("Notes".to_string(), t);
    SchemaDef { tables }
}

fn everyone() -> PrincipalCtx {
    PrincipalCtx::default()
}

fn user(id: &str) -> PrincipalCtx {
    PrincipalCtx { user_id: Some(id.to_string()), ..Default::default() }
}

fn notes() -> Query {
    Query::of("Notes".to_string())
}

fn compiled(q: &Query) -> CompiledQuery {
    compile_query("app", &schema_of(table()), q, &everyone(), false).unwrap().0
}

fn refused(q: &Query) -> RtDbError {
    compile_query("app", &schema_of(table()), q, &everyone(), false).unwrap_err()
}

fn binds(c: &CompiledQuery) -> Vec<String> {
    c.binds.iter().map(shown).collect()
}

fn shown(b: &EqBind) -> String {
    match b {
        EqBind::Text(t) => t.clone(),
        EqBind::Num(x) => x.to_text(),
        EqBind::Bool(x) => x.to_string(),
        EqBind::I64(x) => x.to_string(),
    }
}

const FROM: &str = "FROM \"db_app\".\"t_notes\"";
const COLUMNS: &str = "\"id\", \"doc\", \"created_at\", \"version\"";

#[test]
fn a_plain_query_collects_in_creation_order() {
    let c = compiled(&notes());
    assert_eq!(
        c.sql,
        format!("SELECT {COLUMNS} {FROM} ORDER BY \"created_at\" ASC, \"id\" ASC LIMIT $1")
    );
    assert_eq!(binds(&c), vec!["4096"]);
    assert_eq!(c.terminal, "collect");
}

#[test]
fn an_index_window_filters_and_sorts() {
    let q = Query {
        index: Some("by_kind".into()),
        eq: vec![s("a")],
        gte: Some(n(1)),
        lt: Some(n(9)),
        order: Some(Order::Desc),
        take: Some(5),
        filter: Some(FilterExpr::Eq { field: "body".into(), value: s("x") }),
        ..notes()
    };
    let c = compiled(&q);
    assert_eq!(
        c.sql,
        format!(
            "SELECT {COLUMNS} {FROM} WHERE \"f_kind\" = $1 AND \"f_rank\" >= $2 AND \"f_rank\" < $3 AND \"f_body\" = $4 ORDER BY \"f_rank\" DESC, \"created_at\" DESC, \"id\" DESC LIMIT $5"
        )
    );
    assert_eq!(binds(&c), vec!["a", "1", "9", "x", "5"]);
}

#[test]
fn every_terminal_has_its_statement() {
    let by_kind = || Query { index: Some("by_kind".into()), ..notes() };
    let c = compiled(&Query { get: Some("id1".into()), ..notes() });
    assert_eq!(c.sql, format!("SELECT {COLUMNS} {FROM} WHERE \"id\" = $1"));
    assert_eq!((binds(&c), c.terminal), (vec!["id1".to_string()], "get"));

    let c = compiled(&Query { count: true, ..notes() });
    assert_eq!(c.sql, format!("SELECT COUNT(*) {FROM}"));
    assert_eq!((c.binds.len(), c.terminal), (0, "count"));

    let c = compiled(&Query { distinct: true, ..by_kind() });
    assert_eq!(
        c.sql,
        format!("SELECT DISTINCT to_jsonb(\"f_kind\") AS v {FROM} ORDER BY v LIMIT $1")
    );
    assert_eq!((binds(&c), c.terminal), (vec!["4096".to_string()], "distinct"));

    let sum = |group_by| {
        Some(AggregateSpec { op: AggregateOp::Sum, group_by })
    };
    let c = compiled(&Query { aggregate: sum(true), ..by_kind() });
    assert_eq!(
        c.sql,
        format!(
            "SELECT to_jsonb(\"f_kind\") AS k, COALESCE(to_jsonb(SUM(\"f_rank\")), 'null'::jsonb) AS v {FROM} GROUP BY \"f_kind\" ORDER BY k LIMIT $1"
        )
    );
    let c = compiled(&Query { aggregate: sum(false), eq: vec![s("a")], ..by_kind() });
    assert_eq!(
        c.sql,
        format!(
            "SELECT COALESCE(to_jsonb(SUM(\"f_rank\")), 'null'::jsonb) AS v {FROM} WHERE \"f_kind\" = $1"
        )
    );
    let count = Some(AggregateSpec { op: AggregateOp::Count, group_by: false });
    let c = compiled(&Query { aggregate: count, ..notes() });
    assert_eq!(
        c.sql,
        format!("SELECT COALESCE(to_jsonb(COUNT(*)), 'null'::jsonb) AS v {FROM}")
    );

    let c = compiled(&Query { unique: true, ..notes() });
    assert_eq!((binds(&c), c.terminal), (vec!["2".to_string()], "unique"));
    let c = compiled(&Query { first: true, ..notes() });
    assert_eq!((binds(&c), c.terminal), (vec!["1".to_string()], "first"));
}

#[test]
fn a_page_resumes_behind_its_cursor() {
    let cursor = encode_cursor(&vec![n(3), n(77), s("id9")]).unwrap();
    let q = Query {
        index: Some("by_kind".into()),
        eq: vec![s("a")],
        paginate: Some(Paginate { cursor: Some(cursor), num_items: 10 }),
        ..notes()
    };
    let c = compiled(&q);
    assert_eq!(
        c.sql,
        format!(
            "SELECT {COLUMNS} {FROM} WHERE \"f_kind\" = $1 AND (\"f_rank\" > $2 OR \"f_rank\" = $3 AND \"created_at\" > $4::bigint OR \"f_rank\" = $5 AND \"created_at\" = $6::bigint AND \"id\" > $7) ORDER BY \"f_rank\" ASC, \"created_at\" ASC, \"id\" ASC LIMIT $8"
        )
    );
    assert_eq!(binds(&c), vec!["a", "3", "3", "77", "3", "77", "id9", "11"]);
    assert_eq!(c.terminal, "paginate");
    let short = encode_cursor(&vec![n(1)]).unwrap();
    let e = refused(&Query {
        paginate: Some(Paginate { cursor: Some(short), num_items: 1 }),
        ..notes()
    });
    assert_eq!(e.message, "cursor has 1 value(s) but this query sorts over 2 column(s)");
    assert_eq!(page_row_count(10), 11);
    assert_eq!(page_row_count(u32::MAX), 4097);
}

#[test]
fn cursor_values_must_fit_their_columns() {
    let keys = || {
        vec![
            SortKey { column: "\"created_at\"".into(), kind: SortCol::CreatedAt, descending: true },
            SortKey { column: "\"id\"".into(), kind: SortCol::Id, descending: true },
        ]
    };
    let (sql, _) = build_cursor_conditions(&vec![n(1), s("x")], &keys(), 4).unwrap();
    assert_eq!(
        sql,
        "(\"created_at\" < $4::bigint OR \"created_at\" = $5::bigint AND \"id\" < $6)"
    );
    let e = build_cursor_conditions(&vec![s("1"), s("x")], &keys(), 1).unwrap_err();
    assert_eq!(e.message, "cursor value for created_at must be a number");
    let e = build_cursor_conditions(&vec![n(1), n(2)], &keys(), 1).unwrap_err();
    assert_eq!(e.message, "cursor value for id must be a string");
}

#[test]
fn cursors_read_back() {
    let values = vec![Json::Null, Json::Bool(true), n(-3), n(5), s("\u{e9}\"x")];
    let c = encode_cursor(&values).unwrap();
    assert_eq!(c, "W251bGwsdHJ1ZSwtMyw1LCLDqVwieCJd");
    let back = decode_cursor(&c).unwrap();
    assert_eq!(format!("{back:?}"), format!("{values:?}"));
    let float = vec![Json::Number(JsonNumber::Float("2.5".into()))];
    let back = decode_cursor(&encode_cursor(&float).unwrap()).unwrap();
    assert_eq!(format!("{back:?}"), format!("{float:?}"));
    let deep = (0..126).fold(n(7), |v, _| Json::Array(vec![v]));
    let nested = vec![
        Json::Array(vec![obj(&[("a", n(1)), ("b", obj(&[("c", Json::Null)]))])]),
        deep,
        obj(&[("$serde_json::private::Number", s("1"))]),
        obj(&[("$a", n(1)), ("$serde_json::private::RawValue", s("2"))]),
    ];
    let back = decode_cursor(&encode_cursor(&nested).unwrap()).unwrap();
    assert_eq!(format!("{back:?}"), format!("{nested:?}"));
}

#[test]
fn some_cursors_do_not_read_back() {
    let deep = (0..127).fold(n(7), |v, _| Json::Array(vec![v]));
    assert_eq!(
        decode_cursor(&encode_cursor(&vec![deep]).unwrap()).unwrap_err().code,
        ErrorCode::BadRequest
    );
    let raw = obj(&[("$serde_json::private::RawValue", s("2"))]);
    let back = decode_cursor(&encode_cursor(&vec![raw]).unwrap()).unwrap();
    assert_eq!(format!("{back:?}"), format!("{:?}", vec![n(2)]));
}

#[test]
fn broken_cursors_are_refused() {
    let refusal = |c: &str| decode_cursor(c).unwrap_err();
    assert_eq!(refusal("%").code, ErrorCode::BadRequest);
    assert!(refusal("%").message.starts_with("invalid cursor base64: "));
    // Two bytes that are no text.
    assert!(refusal("//8=").message.starts_with("invalid cursor utf-8: "));
    // The text `{}`.
    assert!(refusal("e30=").message.starts_with("invalid cursor json: "));
}

#[test]
fn reads_are_limited_to_what_the_caller_may_see() {
    let mut t = table();
    t.owner_field = Some("owner".into());
    t.soft_delete = true;
    let schema = schema_of(t);
    let c = compile_query("app", &schema, &notes(), &user("u1"), false).unwrap().0;
    assert_eq!(
        c.sql,
        format!(
            "SELECT {COLUMNS} {FROM} WHERE (doc->>'owner') = $1 AND \"deleted_at\" IS NULL ORDER BY \"created_at\" ASC, \"id\" ASC LIMIT $2"
        )
    );
    assert_eq!(binds(&c), vec!["u1", "4096"]);
    let c = compile_query("app", &schema, &notes(), &everyone(), true).unwrap().0;
    assert_eq!(binds(&c), vec!["4096"]);
    assert!(!c.sql.contains("deleted_at"));
    let limited = PrincipalCtx { tables: Some(vec!["Other".into()]), ..Default::default() };
    let e = compile_query("app", &schema, &notes(), &limited, false).unwrap_err();
    assert_eq!(e.code, ErrorCode::Forbidden);
}

#[test]
fn shared_rows_are_seen_by_their_collaborators() {
    let mut t = table();
    t.owner_field = Some("owner".into());
    t.collaborators_field = Some("shared".into());
    t.authorize = Some(FilterExpr::Exists { field: "body".into() });
    let c = compile_query("app", &schema_of(t), &notes(), &user("u1"), false).unwrap().0;
    assert_eq!(
        c.sql,
        format!(
            "SELECT {COLUMNS} {FROM} WHERE ((doc->>'owner') = $1 OR (doc->'shared') ? $1) AND (doc ? 'body' AND doc->>'body' IS NOT NULL) ORDER BY \"created_at\" ASC, \"id\" ASC LIMIT $2"
        )
    );
    let doc = obj(&[("owner", s("a")), ("shared", Json::Array(vec![s("b")]))]);
    assert!(row_visible_to(&doc, Some("owner"), Some("shared"), "a"));
    assert!(row_visible_to(&doc, Some("owner"), Some("shared"), "b"));
    assert!(!row_visible_to(&doc, Some("owner"), Some("shared"), "c"));
    assert!(!row_visible_to(&doc, Some("owner"), None, "b"));
}

#[test]
fn owner_filters_wrap_the_client_filter() {
    let client = FilterExpr::Exists { field: "body".into() };
    let wrapped = owner_filter(Some(&client), Some("owner"), Some("u")).unwrap();
    assert!(matches!(&wrapped, FilterExpr::And { exprs } if exprs.len() == 2));
    let alone = owner_filter(None, Some("owner"), Some("u")).unwrap();
    assert!(matches!(&alone, FilterExpr::Eq { field, .. } if field == "owner"));
    assert!(owner_filter(None, Some("owner"), None).is_none());
    assert!(matches!(
        owner_filter(Some(&client), None, Some("u")),
        Some(FilterExpr::Exists { .. })
    ));
}

#[test]
fn impossible_reads_are_refused() {
    assert_eq!(refused(&Query::of("Ghost".into())).code, ErrorCode::NotFound);
    assert_eq!(refused(&Query { eq: vec![n(1)], ..notes() }).message, "eq requires an index");
    assert_eq!(
        refused(&Query { gt: Some(n(1)), ..notes() }).message,
        "range bound requires an index"
    );
    assert_eq!(
        refused(&Query {
            index: Some("by_kind".into()),
            eq: vec![s("a"), n(1)],
            gt: Some(n(1)),
            ..notes()
        })
        .message,
        "range bound requires a remaining index field after eq"
    );
    assert_eq!(
        refused(&Query { take: Some(4097), ..notes() }).message,
        "take exceeds maximum of 4096"
    );
    assert!(compile_query(
        "app",
        &schema_of(table()),
        &Query { take: Some(4096), ..notes() },
        &everyone(),
        false
    )
    .is_ok());
    assert_eq!(
        refused(&Query { distinct: true, ..notes() }).message,
        "distinct requires an index field beyond the eq prefix"
    );
    let agg = |op, group_by| Query {
        index: Some("by_kind".into()),
        aggregate: Some(AggregateSpec { op, group_by }),
        ..notes()
    };
    assert_eq!(
        refused(&agg(AggregateOp::Sum, false)).message,
        "aggregate op sum requires a numeric index field"
    );
    assert_eq!(
        refused(&Query { eq: vec![s("a")], ..agg(AggregateOp::Max, true) }).message,
        "aggregate groupBy requires two index fields beyond the eq prefix"
    );
    assert_eq!(
        refused(&Query { eq: vec![s("a"), n(1)], ..agg(AggregateOp::Count, true) }).message,
        "aggregate groupBy requires an index field beyond the eq prefix"
    );
    assert_eq!(
        refused(&Query { index: None, ..agg(AggregateOp::Min, false) }).message,
        "aggregate requires an index field beyond the eq prefix"
    );
    assert_eq!(
        refused(&Query { fields: Some(vec!["nope".into()]), ..notes() }).message,
        "unknown projection field 'nope'"
    );
    assert_eq!(
        compile_query("a/b", &schema_of(table()), &notes(), &everyone(), false)
            .unwrap_err()
            .code,
        ErrorCode::BadRequest
    );
    assert!(is_numeric_index_field(&FieldType::Optional {
        inner: Box::new(FieldType::Int64)
    }));
    assert!(!is_numeric_index_field(&FieldType::Boolean));
}

fn text_search() -> SearchQuery {
    SearchQuery {
        index: "Text".into(),
        query: "red fox".into(),
        filter: None,
        mode: None,
        snippet: None,
    }
}

fn vector_search() -> VectorSearchQuery {
    VectorSearchQuery {
        index: "Vec".into(),
        vector: vec![JsonNumber::from_i64(1), JsonNumber::Float("0.5".into())],
        filter: None,
        limit: 7,
    }
}

fn hybrid_search() -> HybridSearchQuery {
    HybridSearchQuery {
        query: "fox".into(),
        vector: vec![JsonNumber::from_i64(1), JsonNumber::from_i64(2)],
        search_index: None,
        vector_index: None,
        limit: 9,
        k: None,
    }
}

#[test]
fn terminals_exclude_each_other() {
    let message = |q: Query| check_query_combinations(&q).unwrap_err().message;
    assert!(check_query_combinations(&notes()).is_ok());
    assert_eq!(
        message(Query { get: Some("x".into()), take: Some(1), ..notes() }),
        "get cannot be combined with index, eq, range bounds, order, take, unique, first, count, distinct, aggregate, paginate, filter, search, or vector search"
    );
    assert_eq!(
        message(Query { unique: true, order: Some(Order::Asc), ..notes() }),
        "unique cannot be combined with take, order, distinct, or aggregate"
    );
    assert_eq!(
        message(Query { first: true, take: Some(1), ..notes() }),
        "first cannot be combined with take"
    );
    assert_eq!(
        message(Query { count: true, order: Some(Order::Desc), ..notes() }),
        "count cannot be combined with order"
    );
    assert_eq!(
        message(Query { vector_search: Some(vector_search()), take: Some(1), ..notes() }),
        "vectorSearch cannot be combined with any other terminal"
    );
    assert_eq!(
        message(Query { hybrid_search: Some(hybrid_search()), take: Some(1), ..notes() }),
        "hybridSearch cannot be combined with any other terminal"
    );
    assert!(check_query_combinations(&Query {
        search: Some(text_search()),
        take: Some(3),
        ..notes()
    })
    .is_ok());
}

#[test]
fn text_searches_rank_their_matches() {
    let q = Query { search: Some(text_search()), take: Some(3), ..notes() };
    let c = compiled(&q);
    assert_eq!(
        c.sql,
        format!(
            "SELECT {COLUMNS} {FROM} WHERE \"s_text\" @@ websearch_to_tsquery('english'::regconfig, $1) ORDER BY ts_rank(\"s_text\", websearch_to_tsquery('english'::regconfig, $1)) DESC, \"created_at\" DESC, \"id\" DESC LIMIT $2"
        )
    );
    assert_eq!(binds(&c), vec!["red fox", "3"]);
    let trgm = SearchQuery { mode: Some(SearchMode::Trgm), ..text_search() };
    let c = compiled(&Query { search: Some(trgm), ..notes() });
    assert_eq!(
        c.sql,
        format!(
            "SELECT {COLUMNS} {FROM} WHERE (\"f_body\" ILIKE $2 OR \"f_kind\" ILIKE $2) ORDER BY GREATEST(similarity(\"f_body\", $1), similarity(\"f_kind\", $1)) DESC, \"created_at\" DESC, \"id\" DESC LIMIT $3"
        )
    );
    assert_eq!(binds(&c), vec!["red fox", "%red fox%", "4096"]);
    let marked = SearchQuery { snippet: Some(true), ..text_search() };
    let c = compiled(&Query { search: Some(marked), ..notes() });
    assert!(c.sql.starts_with(&format!(
        "SELECT {COLUMNS}, ts_headline('english'::regconfig, concat_ws(' ', \"f_body\", \"f_kind\"), websearch_to_tsquery('english'::regconfig, $1), 'StartSel=<mark>, StopSel=</mark>, MaxWords=35, MinWords=15') FROM"
    )));
}

#[test]
fn text_searches_refuse_what_they_cannot_run() {
    let message = |x: SearchQuery| refused(&Query { search: Some(x), ..notes() }).message;
    assert_eq!(
        message(SearchQuery { query: " \t".into(), ..text_search() }),
        "search query text must not be empty"
    );
    assert_eq!(
        message(SearchQuery { query: "x".repeat(4097), ..text_search() }),
        "search query text must be at most 4096 bytes"
    );
    assert_eq!(
        message(SearchQuery { index: "by_kind".into(), ..text_search() }),
        "search index 'by_kind' not found"
    );
    assert_eq!(
        message(SearchQuery {
            mode: Some(SearchMode::Trgm),
            snippet: Some(true),
            ..text_search()
        }),
        "snippet is only supported in tsquery mode"
    );
}

#[test]
fn a_ranked_search_is_paged_by_its_rank() {
    let t = table();
    let ctx = everyone();
    let sctx = CompileSearchCtx {
        db: "app",
        table_name: "Notes",
        table_def: &t,
        ctx: &ctx,
        include_deleted: false,
    };
    let cursor = encode_cursor(&vec![n(2), n(7), s("i")]).unwrap();
    let page = Paginate { cursor: Some(cursor), num_items: 2 };
    let c = compile_search(&sctx, &text_search(), None, Some(&page)).unwrap();
    let rank = "ts_rank(\"s_text\", websearch_to_tsquery('english'::regconfig, $1))";
    assert_eq!(
        c.sql,
        format!(
            "SELECT {COLUMNS}, {rank}::float8 {FROM} WHERE \"s_text\" @@ websearch_to_tsquery('english'::regconfig, $1) AND ({rank} < $2 OR {rank} = $3 AND \"created_at\" < $4::bigint OR {rank} = $5 AND \"created_at\" = $6::bigint AND \"id\" < $7) ORDER BY {rank} DESC, \"created_at\" DESC, \"id\" DESC LIMIT $8"
        )
    );
    assert_eq!(c.binds.len(), 8);
    let c = compile_vector_search(&sctx, &vector_search(), Some(&page)).unwrap();
    assert!(c.sql.ends_with(
        "FROM cand WHERE (dist > $3 OR dist = $4 AND \"created_at\" < $5::bigint OR dist = $6 AND \"created_at\" = $7::bigint AND \"id\" < $8) ORDER BY dist ASC, \"created_at\" DESC, \"id\" DESC LIMIT $9"
    ), "{}", c.sql);
    let first = Paginate { cursor: None, num_items: 2 };
    let c = compile_hybrid_search(&sctx, &hybrid_search(), Some(&first)).unwrap();
    assert!(c.sql.ends_with(
        "score FROM topk ORDER BY score DESC, \"created_at\" DESC, \"id\" DESC LIMIT $5"
    ), "{}", c.sql);
    assert_eq!(binds(&c), vec!["fox", "[1,2]", "60", "9", "3"]);
    let short = Paginate { cursor: Some(encode_cursor(&vec![n(2)]).unwrap()), num_items: 2 };
    let e = compile_search(&sctx, &text_search(), None, Some(&short)).unwrap_err();
    assert_eq!(e.message, "cursor has 1 value(s) but this query sorts over 3 column(s)");
}

#[test]
fn vector_searches_find_the_nearest() {
    let c = compiled(&Query { vector_search: Some(vector_search()), ..notes() });
    assert_eq!(
        c.sql,
        format!(
            "SELECT {COLUMNS} {FROM} WHERE \"v_vec\" IS NOT NULL ORDER BY \"v_vec\" <-> $1::vector LIMIT $2"
        )
    );
    assert_eq!(binds(&c), vec!["[1,0.5]", "7"]);
    let message =
        |x: VectorSearchQuery| refused(&Query { vector_search: Some(x), ..notes() }).message;
    assert_eq!(
        message(VectorSearchQuery { vector: vec![], ..vector_search() }),
        "vectorSearch vector length 0 != index 'Vec' dimensions 2"
    );
    assert_eq!(
        message(VectorSearchQuery { limit: 0, ..vector_search() }),
        "vectorSearch limit must be 1..=256"
    );
    assert_eq!(
        message(VectorSearchQuery { limit: 257, ..vector_search() }),
        "vectorSearch limit must be 1..=256"
    );
    assert_eq!(
        message(VectorSearchQuery { index: "Text".into(), ..vector_search() }),
        "vector index 'Text' not found"
    );
    let odd = JsonNumber::Float("NaN".into());
    assert_eq!(
        message(VectorSearchQuery {
            vector: vec![odd, JsonNumber::from_i64(1)],
            ..vector_search()
        }),
        "vectorSearch query vector must contain only finite numbers"
    );
}

#[test]
fn hybrid_searches_fuse_both_rankings() {
    let c = compiled(&Query { hybrid_search: Some(hybrid_search()), ..notes() });
    assert!(c.sql.starts_with("WITH matched AS ( SELECT"), "{}", c.sql);
    assert!(c.sql.ends_with(&format!(
        "SELECT {COLUMNS} FROM ranked ORDER BY (1.0/($3 + r_text) + 1.0/($3 + r_vec)) DESC, \"created_at\" DESC, \"id\" DESC LIMIT $4"
    )), "{}", c.sql);
    assert_eq!(binds(&c), vec!["fox", "[1,2]", "60", "9"]);
    let message =
        |x: HybridSearchQuery| refused(&Query { hybrid_search: Some(x), ..notes() }).message;
    assert_eq!(
        message(HybridSearchQuery { query: "".into(), ..hybrid_search() }),
        "hybrid search query text must not be empty"
    );
    assert_eq!(
        message(HybridSearchQuery { limit: 4097, ..hybrid_search() }),
        "hybridSearch limit exceeds maximum of 4096"
    );
    assert_eq!(
        message(HybridSearchQuery { search_index: Some("Vec".into()), ..hybrid_search() }),
        "search index 'Vec' not found"
    );
    assert_eq!(
        message(HybridSearchQuery { vector: vec![], ..hybrid_search() }),
        "hybridSearch vector length 0 != vector index 'Vec' dimensions 2"
    );
    let mut t = table();
    t.indexes.pop();
    let q = Query { hybrid_search: Some(hybrid_search()), ..notes() };
    assert_eq!(
        compile_query("app", &schema_of(t), &q, &everyone(), false).unwrap_err().message,
        "hybrid search requires both a search index and a vector index on the table"
    );
}

#[test]
fn every_unindexed_test_is_warned_of() {
    let mut t = table();
    t.fields.insert("plain".into(), FieldType::String);
    t.fields.insert("also".into(), FieldType::String);
    let schema = schema_of(t);
    let leaf = |f: &str| FilterExpr::Exists { field: f.into() };
    let q = Query {
        filter: Some(FilterExpr::And {
            exprs: vec![
                leaf("plain"),
                FilterExpr::Not { expr: Box::new(leaf("also")) },
                leaf("plain"),
                leaf("kind"),
                leaf("owner"),
                leaf("ghost"),
            ],
        }),
        ..notes()
    };
    assert_eq!(
        collect_filter_warnings(&schema, &q),
        vec![
            "filter on field 'also' has no index; compiles to a jsonb extraction (sequential scan)",
            "filter on field 'plain' has no index; compiles to a jsonb extraction (sequential scan)",
            "filter on field 'plain' has no index; compiles to a jsonb extraction (sequential scan)",
        ]
    );
    assert!(collect_filter_warnings(&schema, &Query::of("Ghost".into())).is_empty());
}

#[test]
fn scans_combine_filter_and_row_conditions() {
    let mut t = table();
    t.owner_field = Some("owner".into());
    t.soft_delete = true;
    let filter = FilterExpr::Eq { field: "kind".into(), value: s("a") };
    let (sql, binds, next) =
        compile_scan_where(&t, &user("u"), Some("u"), Some(&filter), 0).unwrap();
    assert_eq!(
        sql,
        "\"f_kind\" = $1 AND (doc->>'owner') = $2 AND \"deleted_at\" IS NULL"
    );
    assert_eq!(next, 3);
    assert_eq!(binds.iter().map(shown).collect::<Vec<_>>(), vec!["a", "u"]);
}

fn row(id: &str, at: i64) -> Row {
    Row { id: id.into(), doc: obj(&[("kind", s(id)), ("rank", n(at))]), created_at: at, version: 1 }
}

fn merged(id: &str, at: i64) -> String {
    format!(
        "{:?}",
        merge_doc(id.into(), obj(&[("kind", s(id)), ("rank", n(at))]), at, 1).unwrap()
    )
}

#[test]
fn documents_carry_their_system_fields() {
    let d = merge_doc("i".into(), obj(&[("_id", n(0)), ("a", n(1))]), 5, 2).unwrap();
    assert!(d.get("_id").unwrap().same(&s("i")));
    assert!(d.get("_creationTime").unwrap().same(&n(5)));
    assert!(d.get("_version").unwrap().same(&n(2)));
    assert!(d.get("a").unwrap().same(&n(1)));
    let e = merge_doc("i".into(), n(1), 5, 2).unwrap_err();
    assert_eq!((e.code, e.message.as_str()), (ErrorCode::Internal, "stored doc is not a JSON object"));
}

#[test]
fn collected_rows_become_documents() {
    let rows = || vec![row("a", 1), row("b", 2)];
    match finish_collect("collect", rows()).unwrap() {
        QueryResult::Docs(d) => assert_eq!(format!("{:?}", d[1]), merged("b", 2)),
        other => panic!("{other:?}"),
    }
    let e = finish_collect("unique", rows()).unwrap_err();
    assert_eq!(
        (e.code, e.message.as_str()),
        (ErrorCode::PreconditionFailed, "unique query matched multiple documents")
    );
    assert!(matches!(finish_collect("unique", vec![]).unwrap(), QueryResult::Doc(None)));
    assert!(matches!(
        finish_collect("first", vec![row("a", 1)]).unwrap(),
        QueryResult::Doc(Some(_))
    ));
}

#[test]
fn a_full_page_names_the_next_one() {
    let ix = index("by_kind", &["kind", "rank"]);
    let rows = || vec![row("a", 1), row("b", 2), row("c", 3)];
    let page = match finish_paginate(Some(&ix), 1, 2, rows()).unwrap() {
        QueryResult::Paginated(p) => p,
        other => panic!("{other:?}"),
    };
    assert_eq!(page.docs.len(), 2);
    let next = decode_cursor(page.next_cursor.as_ref().unwrap()).unwrap();
    assert_eq!(format!("{next:?}"), format!("{:?}", vec![n(2), n(2), s("b")]));
    match finish_paginate(Some(&ix), 1, 3, rows()).unwrap() {
        QueryResult::Paginated(p) => {
            assert_eq!(p.docs.len(), 3);
            assert!(p.next_cursor.is_none());
        }
        other => panic!("{other:?}"),
    }
    let bare = index("by_ghost", &["ghost"]);
    let e = finish_paginate(Some(&bare), 0, 2, rows()).unwrap_err();
    assert_eq!(e.message, "stored doc is missing indexed field 'ghost'");
}

#[test]
fn pages_cover_every_row_once() {
    // By creation time, newest last; two rows share a time and are told apart by id.
    let all = [("a", 1), ("b", 2), ("c", 2), ("d", 3), ("e", 5)];
    for size in 1..7u32 {
        let mut seen: Vec<String> = Vec::new();
        let mut behind: Option<(i64, String)> = None;
        loop {
            let rows: Vec<Row> = all
                .iter()
                .filter(|(id, at)| match &behind {
                    Some((t, i)) => (*at, id.to_string()) > (*t, i.clone()),
                    None => true,
                })
                .take(size as usize + 1)
                .map(|(id, at)| row(id, *at))
                .collect();
            let page = match finish_paginate(None, 0, size, rows).unwrap() {
                QueryResult::Paginated(p) => p,
                other => panic!("{other:?}"),
            };
            assert!(page.docs.len() <= size as usize);
            for d in &page.docs {
                match d.get("_id") {
                    Some(Json::String(id)) => seen.push(id.clone()),
                    other => panic!("{other:?}"),
                }
            }
            let next = match page.next_cursor {
                Some(c) => decode_cursor(&c).unwrap(),
                None => break,
            };
            behind = match (&next[0], &next[1]) {
                (Json::Number(at), Json::String(id)) => Some((at.as_i64().unwrap(), id.clone())),
                other => panic!("{other:?}"),
            };
        }
        assert_eq!(seen, vec!["a", "b", "c", "d", "e"], "pages of {size}");
    }
}

#[test]
fn ranked_rows_carry_excerpts_and_ranks() {
    let ranked = |id: &str, rank: i64| RankedRow {
        row: row(id, rank),
        snippet: Some("<mark>x</mark>".into()),
        rank: JsonNumber::from_i64(rank),
    };
    match finish_ranked(vec![ranked("a", 9)]).unwrap() {
        QueryResult::Docs(d) => {
            assert!(d[0].get("_searchSnippet").unwrap().same(&s("<mark>x</mark>")))
        }
        other => panic!("{other:?}"),
    }
    match finish_ranked_paginated(1, vec![ranked("a", 9), ranked("b", 8)]).unwrap() {
        QueryResult::Paginated(p) => {
            assert_eq!(p.docs.len(), 1);
            let next = decode_cursor(&p.next_cursor.unwrap()).unwrap();
            assert_eq!(format!("{next:?}"), format!("{:?}", vec![n(9), n(9), s("a")]));
        }
        other => panic!("{other:?}"),
    }
}

#[test]
fn point_reads_hide_foreign_rows() {
    let mut t = table();
    t.owner_field = Some("kind".into());
    assert!(matches!(
        finish_point_read(&t, &user("a"), Some(row("a", 1))).unwrap(),
        QueryResult::Doc(Some(_))
    ));
    assert!(matches!(
        finish_point_read(&t, &user("b"), Some(row("a", 1))).unwrap(),
        QueryResult::Doc(None)
    ));
    assert!(matches!(
        finish_point_read(&t, &everyone(), Some(row("a", 1))).unwrap(),
        QueryResult::Doc(Some(_))
    ));
    assert!(matches!(finish_point_read(&t, &user("a"), None).unwrap(), QueryResult::Doc(None)));
    t.authorize = Some(FilterExpr::Gt { field: "rank".into(), value: n(5) });
    assert!(matches!(
        finish_point_read(&t, &user("a"), Some(row("a", 1))).unwrap(),
        QueryResult::Doc(None)
    ));
}

#[test]
fn missing_values_are_null() {
    assert_eq!(
        canonical(&finish_distinct(vec![Some(n(1)), None])),
        "[1,null]"
    );
    assert_eq!(
        canonical(&finish_groups(vec![(Some(s("a")), n(1)), (None, n(2))])),
        "[{\"key\":\"a\",\"value\":1},{\"key\":null,\"value\":2}]"
    );
}

#[test]
fn a_projection_keeps_system_fields() {
    let t = table();
    assert!(validate_projection(&t, &vec!["_id".into(), "kind".into()]).is_ok());
    assert!(validate_projection(&t, &vec![]).is_ok());
    let e = validate_projection(&t, &vec!["kind".into(), "_Id".into()]).unwrap_err();
    assert_eq!(e.message, "unknown projection field '_Id'");
    let mut r = finish_collect("collect", vec![row("a", 1)]).unwrap();
    project_result(&mut r, &vec!["rank".into()]);
    match &r {
        QueryResult::Docs(d) => {
            assert!(d[0].get("kind").is_none());
            assert!(d[0].get("rank").is_some());
            assert!(d[0].get("_version").is_some());
        }
        other => panic!("{other:?}"),
    }
}

#[test]
fn projected_reads_ignore_versions() {
    let answer = |version: i64| {
        QueryResult::Paginated(PaginatedResult {
            docs: vec![obj(&[("_version", n(version)), ("a", n(1))])],
            next_cursor: None,
        })
    };
    let projected = Query { fields: Some(vec!["a".into()]), ..notes() };
    assert_eq!(diff_canonical(&answer(1), &projected), diff_canonical(&answer(2), &projected));
    assert_ne!(diff_canonical(&answer(1), &notes()), diff_canonical(&answer(2), &notes()));
    assert_eq!(canonical(&QueryResult::Count(4)), "4");
    assert_eq!(canonical(&QueryResult::Doc(None)), "null");
    assert_eq!(canonical_of(Err("fault".into())), "");
}

#[test]
fn an_owner_is_asked_for_once() {
    let mut t = table();
    t.owner_field = Some("owner".into());
    let w = compile_query_window(&t, &notes(), &user("u1"), false).unwrap();
    assert_eq!(w.where_conditions, vec!["(doc->>'owner') = $1"]);
    assert!(w.binds.is_empty());
    assert_eq!(w.filter_binds.iter().map(shown).collect::<Vec<_>>(), vec!["u1"]);
    assert_eq!(w.limit_placeholder, 2);
}

#[test]
fn a_page_is_cut_by_its_window() {
    let t = table();
    let page = Paginate { num_items: 9_000, cursor: None };
    let q = Query { index: Some("by_kind".into()), eq: vec![s("a")], ..notes() };
    let w = compile_query_window(&t, &q, &everyone(), false).unwrap();
    let c = page_context(&w, &page);
    assert_eq!((c.num_items, c.eq_len), (4096, 1));
    assert_eq!(c.index_def.unwrap().name, "by_kind");
    assert_eq!((page_item_count(10), page_row_count(10)), (10, 11));
    assert_eq!((page_item_count(9_000), page_row_count(9_000)), (4096, 4097));
}

fn some_queries() -> Vec<Query> {
    let cursor = encode_cursor(&vec![n(5), s("x")]).unwrap();
    let window = || Query {
        index: Some("by_kind".into()),
        eq: vec![s("a")],
        filter: Some(FilterExpr::In { field: "body".into(), values: vec![s("x"), s("y")] }),
        ..notes()
    };
    vec![
        notes(),
        window(),
        Query { count: true, ..window() },
        Query { distinct: true, ..window() },
        Query {
            aggregate: Some(AggregateSpec {
                op: AggregateOp::Count,
                group_by: true,
            }),
            ..window()
        },
        Query { paginate: Some(Paginate { num_items: 3, cursor: Some(cursor) }), ..notes() },
        Query { get: Some("id1".into()), ..notes() },
        Query { search: Some(text_search()), ..notes() },
        Query { vector_search: Some(vector_search()), ..notes() },
        Query { hybrid_search: Some(hybrid_search()), ..notes() },
    ]
}

#[test]
fn placeholders_are_numbered_like_the_binds() {
    let mut t = table();
    t.owner_field = Some("owner".into());
    t.collaborators_field = Some("shared".into());
    t.soft_delete = true;
    let schema = schema_of(t);
    for q in some_queries() {
        let c = compile_query("app", &schema, &q, &user("u1"), false).unwrap().0;
        let mut marks: Vec<usize> = c
            .sql
            .split('$')
            .skip(1)
            .map(|part| {
                let digits: String = part.chars().take_while(char::is_ascii_digit).collect();
                digits.parse().unwrap()
            })
            .collect();
        marks.sort_unstable();
        marks.dedup();
        assert_eq!(marks, (1..=c.binds.len()).collect::<Vec<_>>(), "{}", c.sql);
    }
}

#[test]
fn hiding_deleted_rows_adds_a_condition() {
    let mut t = table();
    t.soft_delete = true;
    let keeps = schema_of(t);
    let none = schema_of(table());
    for q in some_queries() {
        let shown_all = compile_query("app", &keeps, &q, &everyone(), true).unwrap().0;
        let hidden = compile_query("app", &keeps, &q, &everyone(), false).unwrap().0;
        assert_eq!(binds(&shown_all), binds(&hidden));
        assert_eq!(shown_all.terminal, hidden.terminal);
        assert!(!shown_all.sql.contains("deleted_at"));
        let ties = [
            " AND \"deleted_at\" IS NULL",
            " WHERE \"deleted_at\" IS NULL",
            "\"deleted_at\" IS NULL AND ",
        ];
        assert!(
            ties.iter().any(|tie| hidden.sql.replacen(tie, "", 1) == shown_all.sql),
            "{}",
            hidden.sql
        );
        let a = compile_query("app", &none, &q, &everyone(), true).unwrap().0;
        let b = compile_query("app", &none, &q, &everyone(), false).unwrap().0;
        assert_eq!(a.sql, b.sql);
    }
}

#[test]
fn a_predicate_on_what_the_caller_lacks_is_never_met() {
    let mut t = table();
    t.authorize = Some(FilterExpr::Eq {
        field: "owner".into(),
        value: obj(&[("$email", Json::Bool(true))]),
    });
    let schema = schema_of(t);
    let c = compile_query("app", &schema, &notes(), &user("u1"), false).unwrap().0;
    assert_eq!(
        c.sql,
        format!("SELECT {COLUMNS} {FROM} WHERE FALSE ORDER BY \"created_at\" ASC, \"id\" ASC LIMIT $1")
    );
    assert_eq!(binds(&c), vec!["4096"]);
    let known = PrincipalCtx { email: Some("e@x".into()), ..user("u1") };
    let c = compile_query("app", &schema, &notes(), &known, false).unwrap().0;
    assert!(c.sql.contains("WHERE (doc->>'owner') = $1 ORDER"), "{}", c.sql);
    assert_eq!(binds(&c), vec!["e@x", "4096"]);
}

#[test]
fn a_predicate_with_a_written_null_is_refused() {
    let refusal = |f: FilterExpr| {
        let mut t = table();
        t.authorize = Some(f);
        compile_query("app", &schema_of(t), &notes(), &user("u1"), false).unwrap_err()
    };
    let null = |field: &str| FilterExpr::Eq { field: field.into(), value: Json::Null };
    let email = FilterExpr::Eq {
        field: "owner".into(),
        value: obj(&[("$email", Json::Bool(true))]),
    };
    let kind = "filter on field 'owner' value kind does not match declared field type";
    assert_eq!(refusal(null("owner")).message, kind);
    assert_eq!(refusal(null("owner")).code, ErrorCode::BadRequest);
    assert_eq!(
        refusal(null("kind")).message,
        "value does not match the type of the indexed field"
    );
    assert_eq!(refusal(FilterExpr::Not { expr: Box::new(null("owner")) }).message, kind);
    assert_eq!(refusal(FilterExpr::Or { exprs: vec![email, null("owner")] }).message, kind);
    assert_eq!(
        refusal(FilterExpr::In { field: "owner".into(), values: vec![s("a"), Json::Null] }).message,
        kind
    );
    // Callers that are no users are not held to the predicate.
    let mut t = table();
    t.authorize = Some(null("owner"));
    assert!(compile_query("app", &schema_of(t), &notes(), &everyone(), false).is_ok());
}
