//! Filters: compiled to statements, and tested on documents.
use rtdb::dsl::{EqBind, FilterExpr, PrincipalCtx};
use rtdb::json::{Json, JsonNumber};
use rtdb::query::filter::{compile_filter, compile_filter_at, compile_filter_literal};
use rtdb::query::row_auth::{filter_matches, resolve_predicate_markers};
use rtdb::schema::{FieldType, IndexDef, TableDef};
use rtdb::strmap::StrMap;

fn s(v: &str) -> Json {
    Json::String(v.to_string())
}

fn n(v: i64) -> Json {
    Json::Number(JsonNumber::from_i64(v))
}

fn obj(entries: &[(&str, Json)]) -> Json {
    let mut sorted: Vec<(String, Json)> =
        entries.iter().map(|(k, v)| (k.to_string(), v.copy())).collect();
    sorted.sort_by(|a, b| a.0.cmp(&b.0));
    Json::Object(sorted)
}

fn user_marker() -> Json {
    obj(&[("$user", Json::Bool(true))])
}

fn email_marker() -> Json {
    obj(&[("$email", Json::Bool(true))])
}

fn ctx(user: Option<&str>, email: Option<&str>) -> PrincipalCtx {
    PrincipalCtx {
        user_id: user.map(str::to_string),
        email: email.map(str::to_string),
        ..Default::default()
    }
}

fn plain_index(name: &str, fields: &[&str]) -> IndexDef {
    IndexDef {
        name: name.to_string(),
        fields: fields.iter().map(|f| f.to_string()).collect(),
        search: false,
        vector: None,
        unique: false,
        predicate: None,
        language: None,
    }
}

fn one_indexed_field_table(field: &str, ft: FieldType) -> TableDef {
    let mut fields = StrMap::new();
    fields.insert(field.to_string(), ft);
    let mut t = TableDef::with_fields(fields);
    t.indexes = vec![plain_index(&format!("by_{field}"), &[field])];
    t
}

fn test_table_with_fields(names: &[&str]) -> TableDef {
    let mut fields = StrMap::new();
    for name in names {
        fields.insert(name.to_string(), FieldType::String);
    }
    TableDef::with_fields(fields)
}

fn eq(field: &str, value: Json) -> FilterExpr {
    FilterExpr::Eq { field: field.to_string(), value }
}

fn check_literal_types() {
    let table = one_indexed_field_table("deleted", FieldType::Boolean);
    let sql = compile_filter_literal(&eq("deleted", Json::Bool(false)), &table).unwrap();
    assert_eq!(sql, "\"f_deleted\" = false");
}

fn check_literal_escapes() {
    let table = one_indexed_field_table("name", FieldType::String);
    let sql = compile_filter_literal(&eq("name", s("O'Brien")), &table).unwrap();
    assert_eq!(sql, "\"f_name\" = 'O''Brien'");
}

fn check_literal_is_inert() {
    let table = one_indexed_field_table("name", FieldType::String);
    let sql = compile_filter_literal(&eq("name", s("'; DROP TABLE x; --")), &table).unwrap();
    assert_eq!(sql, "\"f_name\" = '''; DROP TABLE x; --'");
    let outside_literal: String = sql
        .split('\'')
        .enumerate()
        .filter(|(i, _)| *i % 2 == 0)
        .map(|(_, s)| s)
        .collect();
    assert!(
        !outside_literal.contains(';'),
        "statement terminator leaked outside string literal: {outside_literal}"
    );
}

fn check_not_contains_exists() {
    let mut fields = StrMap::new();
    fields.insert("owner".to_string(), FieldType::String);
    fields.insert(
        "editors".to_string(),
        FieldType::Array { element: Box::new(FieldType::String) },
    );
    fields.insert("archivedat".to_string(), FieldType::String);
    let table = TableDef::with_fields(fields);
    let (sql, binds) = compile_filter(
        &FilterExpr::Not { expr: Box::new(eq("owner", s("a"))) },
        &table,
        1,
    )
    .unwrap();
    assert_eq!(sql, "NOT COALESCE(((doc->>'owner') = $1), FALSE)");
    assert_eq!(binds.len(), 1);
    let (sql, _) = compile_filter(
        &FilterExpr::Contains { field: "editors".into(), value: s("a") },
        &table,
        1,
    )
    .unwrap();
    assert_eq!(sql, "(doc->'editors') ? $1");
    let (sql, _) =
        compile_filter(&FilterExpr::Exists { field: "archivedat".into() }, &table, 1).unwrap();
    assert_eq!(sql, "(doc ? 'archivedat' AND doc->>'archivedat' IS NOT NULL)");
}

fn check_matches_all_variants() {
    let c = ctx(Some("u1"), Some("e@x"));
    let doc = obj(&[
        ("owner", s("u1")),
        ("editors", Json::Array(vec![s("u1"), s("u2")])),
        ("visibility", s("public")),
        ("archivedat", Json::Null),
        ("n", n(5)),
    ]);
    assert!(filter_matches(&doc, &eq("owner", user_marker()), &c));
    assert!(!filter_matches(&doc, &eq("owner", user_marker()), &ctx(Some("u9"), None)));
    let neq = |v: &str| FilterExpr::Neq { field: "owner".into(), value: s(v) };
    assert!(filter_matches(&doc, &neq("u9"), &c));
    assert!(!filter_matches(&doc, &neq("u1"), &c));
    let gt = |v: i64| FilterExpr::Gt { field: "n".into(), value: n(v) };
    assert!(filter_matches(&doc, &gt(3), &c));
    assert!(!filter_matches(&doc, &gt(7), &c));
    assert!(filter_matches(&doc, &FilterExpr::Gte { field: "n".into(), value: n(5) }, &c));
    assert!(filter_matches(&doc, &FilterExpr::Lt { field: "n".into(), value: n(7) }, &c));
    let lte = |v: i64| FilterExpr::Lte { field: "n".into(), value: n(v) };
    assert!(filter_matches(&doc, &lte(5), &c));
    assert!(!filter_matches(&doc, &lte(3), &c));
    assert!(filter_matches(
        &doc,
        &FilterExpr::In { field: "owner".into(), values: vec![s("u1"), s("u3")] },
        &c
    ));
    assert!(!filter_matches(
        &doc,
        &FilterExpr::In { field: "owner".into(), values: vec![s("u9")] },
        &c
    ));
    assert!(filter_matches(
        &doc,
        &FilterExpr::Contains { field: "editors".into(), value: user_marker() },
        &c
    ));
    assert!(filter_matches(
        &doc,
        &FilterExpr::And {
            exprs: vec![eq("owner", user_marker()), eq("visibility", s("public"))]
        },
        &c
    ));
    assert!(!filter_matches(
        &doc,
        &FilterExpr::And {
            exprs: vec![eq("owner", user_marker()), eq("visibility", s("private"))]
        },
        &c
    ));
    assert!(filter_matches(
        &doc,
        &FilterExpr::Or {
            exprs: vec![eq("visibility", s("public")), eq("owner", user_marker())]
        },
        &c
    ));
    assert!(filter_matches(
        &doc,
        &FilterExpr::Not {
            expr: Box::new(FilterExpr::Exists { field: "archivedat".into() })
        },
        &c
    ));
    assert!(filter_matches(
        &doc,
        &eq("owner", email_marker()),
        &ctx(Some("u1"), Some("u1"))
    ));
}

fn check_matches_is_conservative() {
    let c = ctx(Some("u1"), Some("e@x"));
    let doc = obj(&[("owner", s("u1")), ("archivedat", Json::Null), ("n", n(5))]);
    assert!(!filter_matches(
        &doc,
        &FilterExpr::Gt { field: "nosuchfield".into(), value: n(1) },
        &c
    ));
    assert!(!filter_matches(
        &doc,
        &FilterExpr::Neq { field: "nosuchfield".into(), value: s("x") },
        &c
    ));
    assert!(!filter_matches(&doc, &eq("nosuchfield", s("x")), &c));
    assert!(!filter_matches(
        &doc,
        &FilterExpr::Gt { field: "owner".into(), value: n(1) },
        &c
    ));
    assert!(!filter_matches(
        &doc,
        &FilterExpr::Lt { field: "owner".into(), value: n(1) },
        &c
    ));
    assert!(filter_matches(
        &doc,
        &FilterExpr::Not {
            expr: Box::new(FilterExpr::Exists { field: "absentfield".into() })
        },
        &c
    ));
    assert!(filter_matches(
        &doc,
        &FilterExpr::Not { expr: Box::new(eq("nosuchfield", s("anything"))) },
        &c
    ));
}

fn check_type_mismatch() {
    let table = test_table_with_fields(&["title"]);
    let pred = FilterExpr::Gt { field: "title".into(), value: n(5) };
    let err = compile_filter(&pred, &table, 1).unwrap_err();
    assert!(
        err.message.contains("value kind does not match"),
        "expected type-mismatch message, got: {}",
        err.message
    );
    let ok = FilterExpr::Gt { field: "title".into(), value: s("a") };
    assert!(compile_filter(&ok, &table, 1).is_ok());
}

#[test]
fn query_compile_filter_literal_emits_typed_literals_not_binds() {
    check_literal_types();
}

#[test]
fn mod_compile_filter_literal_emits_typed_literals_not_binds() {
    check_literal_types();
}

#[test]
fn query_compile_filter_literal_escapes_string_literals() {
    check_literal_escapes();
}

#[test]
fn mod_compile_filter_literal_escapes_string_literals() {
    check_literal_escapes();
}

#[test]
fn query_compile_filter_literal_neutralizes_sql_injection_payload() {
    check_literal_is_inert();
}

#[test]
fn mod_compile_filter_literal_neutralizes_sql_injection_payload() {
    check_literal_is_inert();
}

#[test]
fn query_compile_not_contains_exists() {
    check_not_contains_exists();
}

#[test]
fn mod_compile_not_contains_exists() {
    check_not_contains_exists();
}

#[test]
fn query_filter_matches_all_variants_and_principal() {
    check_matches_all_variants();
}

#[test]
fn mod_filter_matches_all_variants_and_principal() {
    check_matches_all_variants();
}

#[test]
fn query_filter_matches_overapproximates_safely() {
    check_matches_is_conservative();
}

#[test]
fn mod_filter_matches_overapproximates_safely() {
    check_matches_is_conservative();
}

#[test]
fn query_compile_filter_rejects_type_mismatched_comparison() {
    check_type_mismatch();
}

#[test]
fn mod_compile_filter_rejects_type_mismatched_comparison() {
    check_type_mismatch();
}

#[test]
fn placeholders_are_numbered_from_the_start_position() {
    let table = test_table_with_fields(&["a", "b"]);
    let f = FilterExpr::And {
        exprs: vec![
            eq("a", s("x")),
            FilterExpr::Or {
                exprs: vec![
                    eq("b", s("y")),
                    FilterExpr::In { field: "a".into(), values: vec![s("p"), s("q")] },
                ],
            },
        ],
    };
    let (one, binds) = compile_filter(&f, &table, 1).unwrap();
    let (five, same_binds) = compile_filter(&f, &table, 5).unwrap();
    assert_eq!(binds.len(), 4);
    assert_eq!(format!("{binds:?}"), format!("{same_binds:?}"));
    for k in 1..=4 {
        assert!(one.contains(&format!("${k}")), "{one}");
        assert!(five.contains(&format!("${}", k + 4)), "{five}");
    }
    assert!(matches!(&binds[0], EqBind::Text(t) if t == "x"));
}

#[test]
fn empty_and_unknown_filters_are_refused() {
    let table = test_table_with_fields(&["a"]);
    let refused = |f: FilterExpr| compile_filter(&f, &table, 1).unwrap_err().message;
    assert_eq!(refused(FilterExpr::And { exprs: vec![] }), "and filter requires at least one expr");
    assert_eq!(refused(FilterExpr::Or { exprs: vec![] }), "or filter requires at least one expr");
    assert_eq!(
        refused(FilterExpr::In { field: "a".into(), values: vec![] }),
        "in filter requires at least one value"
    );
    assert_eq!(refused(eq("zz", s("x"))), "filter references unknown field 'zz'");
    assert!(refused(eq("a", user_marker())).contains("markers are not allowed"));
    assert!(refused(FilterExpr::OlderThan { field: "a".into(), ms: 5 }).contains("olderThan"));
}

#[test]
fn relative_time_is_resolved_against_the_clock() {
    let mut fields = StrMap::new();
    fields.insert("at".to_string(), FieldType::Number);
    let table = TableDef::with_fields(fields);
    let f = FilterExpr::OlderThan { field: "at".into(), ms: 1_000 };
    let (sql, binds) = compile_filter_at(&f, &table, 1, Some(5_000)).unwrap();
    assert!(sql.contains("< $1"), "{sql}");
    assert_eq!(binds.len(), 1);
    assert!(format!("{binds:?}").contains("4000"), "{binds:?}");
}

#[test]
fn resolved_markers_mean_the_same() {
    let c = ctx(Some("u1"), Some("e@x"));
    let f = FilterExpr::Or {
        exprs: vec![eq("owner", user_marker()), eq("mail", email_marker())],
    };
    let r = resolve_predicate_markers(&f, &c);
    assert!(!format!("{r:?}").contains("$user"));
    assert!(!format!("{r:?}").contains("$email"));
    let mine = obj(&[("owner", s("u1"))]);
    let other = obj(&[("owner", s("u2")), ("mail", s("x@y"))]);
    assert_eq!(filter_matches(&mine, &f, &c), filter_matches(&mine, &r, &c));
    assert_eq!(filter_matches(&other, &f, &c), filter_matches(&other, &r, &c));
    assert!(filter_matches(&mine, &f, &c));
    assert!(!filter_matches(&other, &f, &c));
}

#[test]
fn numbers_compare_as_doubles() {
    let c = PrincipalCtx::default();
    let doc = obj(&[("x", Json::Number(JsonNumber::Float("2.5".to_string())))]);
    let lt = |v: Json| FilterExpr::Lt { field: "x".into(), value: v };
    assert!(filter_matches(&doc, &lt(n(3)), &c));
    assert!(!filter_matches(&doc, &lt(n(2)), &c));
    assert!(filter_matches(
        &doc,
        &FilterExpr::Gte { field: "x".into(), value: Json::Number(JsonNumber::Float("2.50".to_string())) },
        &c
    ));
}

#[test]
fn nothing_equals_a_property_the_caller_lacks() {
    let nobody = ctx(None, None);
    let doc = obj(&[("owner", s("u1")), ("mail", Json::Null)]);
    assert!(!filter_matches(&doc, &eq("owner", user_marker()), &nobody));
    assert!(!filter_matches(&doc, &eq("mail", email_marker()), &nobody));
    assert!(!filter_matches(&obj(&[]), &eq("mail", email_marker()), &nobody));
}
