//! Migration plans, conversions and statements.
use rtdb::dsl::{CaseWhen, Cast, EqBind, FilterExpr, ValueExpr};
use rtdb::error::ErrorCode;
use rtdb::json::{Json, JsonNumber};
use rtdb::migrate::apply::{
    apply_one, column_wanted, computed_field_names, computed_fields_referencing, follow_up, json_text_of,
    read_field_sql, recast_row_text, recompute_all_indexed, restamp_computed_field,
    write_field_sql, CompiledExpr, Facts, Statement, TypedColumn,
};
use rtdb::migrate::coerce::{coerce_value, recast_value};
use rtdb::migrate::effects::{DirectiveReport, MigrateBind, MigrationEffects};
use rtdb::migrate::plan::{
    cast_valid_for, plan_migration, validate_one, CondSource, Directive, ExprSource,
};
use rtdb::schema::{
    pg_schema, FieldType, IndexDef, SchemaDef, TableDef, VectorMetric, VectorSpec,
};
use rtdb::strmap::StrMap;
use rtdb::txn::OpKind;

fn s(v: &str) -> Json {
    Json::String(v.to_string())
}

fn n(v: i64) -> Json {
    Json::Number(JsonNumber::from_i64(v))
}

fn float(v: &str) -> Json {
    Json::Number(JsonNumber::Float(v.to_string()))
}

fn object(entries: &[(&str, Json)]) -> Json {
    Json::Object(entries.iter().map(|(k, v)| (k.to_string(), v.copy())).collect())
}

fn field(name: &str) -> ValueExpr {
    ValueExpr::Field { field: name.to_string() }
}

fn table(fields: Vec<(&str, FieldType)>) -> TableDef {
    let mut m = StrMap::new();
    for (name, ft) in fields {
        m.insert(name.to_string(), ft);
    }
    TableDef::with_fields(m)
}

fn schema(tables: Vec<(&str, TableDef)>) -> SchemaDef {
    let mut m = StrMap::new();
    for (name, t) in tables {
        m.insert(name.to_string(), t);
    }
    SchemaDef { tables: m }
}

fn users() -> TableDef {
    table(vec![("name", FieldType::String), ("age", FieldType::Number)])
}

fn one_table_schema() -> SchemaDef {
    schema(vec![("users", users())])
}

fn index(name: &str, fields: &[&str]) -> IndexDef {
    IndexDef {
        name: name.to_string(),
        fields: fields.iter().map(|f| f.to_string()).collect(),
        search: false,
        vector: None,
        unique: false,
        predicate: None,
        language: None,
    }
}

fn users_with_auth_and_index() -> TableDef {
    let mut t = table(vec![
        ("email", FieldType::String),
        ("ownerId", FieldType::String),
        ("collabs", FieldType::Array { element: Box::new(FieldType::String) }),
    ]);
    t.indexes = vec![index("by_owner", &["ownerId"])];
    t.owner_field = Some("ownerId".to_string());
    t.collaborators_field = Some("collabs".to_string());
    t
}

fn schema_with_auth_and_index() -> SchemaDef {
    schema(vec![("users", users_with_auth_and_index())])
}

fn rename_field(from: &str, to: &str) -> Directive {
    Directive::RenameField { table: "users".into(), from: from.into(), to: to.into() }
}

fn drop_field(name: &str) -> Directive {
    Directive::DropField { table: "users".into(), field: name.into() }
}

fn change_type(table: &str, name: &str, to: FieldType, cast: Cast) -> Directive {
    Directive::ChangeType { table: table.into(), field: name.into(), to, cast, default: None }
}

fn plan_error(old: &SchemaDef, ds: Vec<Directive>) -> String {
    plan_migration(old, &ds).unwrap_err().message
}

#[test]
fn directive_report_default_supports_spread() {
    let report = DirectiveReport {
        op: "renameField".into(),
        affected_rows: 3,
        ..Default::default()
    };
    assert_eq!(report.op, "renameField");
    assert_eq!(report.affected_rows, 3);
    assert!(report.cast_failures.is_empty());
    assert!(report.sample_changes.is_empty());
}

#[test]
fn plan_migration_revalidates_computed_after_change_type() {
    let mut t = users();
    t.fields.insert("count".into(), FieldType::Number);
    t.computed.insert(
        "age".into(),
        ValueExpr::Add {
            left: Box::new(field("count")),
            right: Box::new(ValueExpr::Literal { value: n(1) }),
        },
    );
    let old = schema(vec![("users", t)]);
    let d = || vec![change_type("users", "age", FieldType::String, Cast::ToString)];
    let err = plan_migration(&old, &d()).unwrap_err();
    assert!(err.message.contains("produces a number"), "{}", err.message);
    assert!(plan_migration(&one_table_schema(), &d()).is_ok());
}

#[test]
fn plan_rename_field_derives_schema() {
    let got = plan_migration(&one_table_schema(), &vec![rename_field("name", "fullName")]).unwrap();
    let t = got.table("users").unwrap();
    assert!(t.fields.contains_key("fullName"));
    assert!(!t.fields.contains_key("name"));
}

#[test]
fn plan_rename_field_follows_auto_increment_declaration() {
    let mut t = users();
    t.fields.insert("ticketNum".into(), FieldType::Int64);
    t.auto_increment_field = Some("ticketNum".into());
    let old = schema(vec![("users", t)]);
    let got = plan_migration(&old, &vec![rename_field("ticketNum", "number")]).unwrap();
    assert_eq!(
        got.table("users").unwrap().auto_increment_field,
        Some("number".to_string()),
        "the declaration follows the renamed field"
    );
}

#[test]
fn plan_rejects_missing_source_field() {
    assert!(plan_migration(&one_table_schema(), &vec![rename_field("nope", "x")]).is_err());
}

#[test]
fn plan_rejects_taken_rename_target() {
    assert!(plan_migration(&one_table_schema(), &vec![rename_field("name", "age")]).is_err());
}

#[test]
fn cast_matrix_locked() {
    for (cast, old) in [
        (Cast::ToString, FieldType::String),
        (Cast::ToString, FieldType::Number),
        (Cast::ToString, FieldType::Boolean),
        (Cast::ToString, FieldType::Int64),
        (Cast::ToNumber, FieldType::String),
        (Cast::ToNumber, FieldType::Boolean),
        (Cast::ToNumber, FieldType::Int64),
        (Cast::ToInt64, FieldType::String),
        (Cast::ToInt64, FieldType::Number),
        (Cast::ToBoolean, FieldType::String),
        (Cast::ToBoolean, FieldType::Number),
    ] {
        assert!(cast_valid_for(cast, &old), "{cast:?} should accept {old:?}");
    }
    let object = || FieldType::Object { fields: vec![] };
    for (cast, old) in [
        (Cast::ToString, object()),
        (Cast::ToNumber, object()),
        (Cast::ToInt64, object()),
        (Cast::ToBoolean, object()),
        (Cast::ToInt64, FieldType::Boolean),
        (Cast::ToBoolean, FieldType::Int64),
    ] {
        assert!(!cast_valid_for(cast, &old), "{cast:?} should reject {old:?}");
    }
}

#[test]
fn plan_rejects_cast_with_no_accepted_source() {
    let old = schema(vec![(
        "things",
        table(vec![("meta", FieldType::Object { fields: vec![] })]),
    )]);
    let d = vec![change_type("things", "meta", FieldType::String, Cast::ToString)];
    assert!(plan_migration(&old, &d).is_err());
    assert_eq!(
        plan_migration(&old, &d).unwrap_err().message,
        "cast ToString is not valid for things.meta"
    );
}

#[test]
fn plan_does_not_inspect_evalexpr_sql_text() {
    let d = vec![Directive::EvalExpr {
        table: "users".into(),
        set: "name".into(),
        expr: ExprSource::Legacy("x FROM other".into()),
        where_clause: None,
    }];
    assert!(
        plan_migration(&one_table_schema(), &d).is_ok(),
        "planning does not judge the text of an evalExpr"
    );
}

#[test]
fn plan_drop_table_removes_it() {
    let d = vec![Directive::DropTable { name: "users".into() }];
    let got = plan_migration(&one_table_schema(), &d).unwrap();
    assert!(got.tables.is_empty());
}

#[test]
fn plan_rename_field_fixes_index_owner_and_collab_refs() {
    let d = vec![rename_field("ownerId", "uid"), rename_field("collabs", "members")];
    let got = plan_migration(&schema_with_auth_and_index(), &d).unwrap();
    let t = got.table("users").unwrap();
    assert_eq!(t.indexes[0].fields, vec!["uid".to_string()]);
    assert_eq!(t.owner_field.as_deref(), Some("uid"));
    assert_eq!(t.collaborators_field.as_deref(), Some("members"));
    assert!(!t.fields.contains_key("ownerId"));
    assert!(!t.fields.contains_key("collabs"));
}

#[test]
fn plan_drop_field_clears_index_owner_and_collab_refs() {
    let d = vec![drop_field("ownerId"), drop_field("collabs")];
    let got = plan_migration(&schema_with_auth_and_index(), &d).unwrap();
    let t = got.table("users").unwrap();
    assert!(t.indexes[0].fields.is_empty(), "index pruned of dropped field");
    assert!(t.owner_field.is_none(), "ownerField cleared");
    assert!(t.collaborators_field.is_none(), "collaboratorsField cleared");
}

#[test]
fn plan_rename_field_carries_authorize_predicate() {
    let mut t = users_with_auth_and_index();
    t.fields.insert("visibility".into(), FieldType::String);
    t.authorize = Some(FilterExpr::Or {
        exprs: vec![
            FilterExpr::Eq {
                field: "ownerId".into(),
                value: object(&[("$user", Json::Bool(true))]),
            },
            FilterExpr::Eq { field: "visibility".into(), value: s("public") },
        ],
    });
    let old = schema(vec![("users", t)]);
    let got = plan_migration(&old, &vec![rename_field("ownerId", "uid")]).unwrap();
    let expr = got.table("users").unwrap().authorize.as_ref().expect("authorize preserved");
    match expr {
        FilterExpr::Or { exprs } => match (&exprs[0], &exprs[1]) {
            (FilterExpr::Eq { field: f0, .. }, FilterExpr::Eq { field: f1, .. }) => {
                assert_eq!(f0, "uid");
                assert_eq!(f1, "visibility");
            }
            other => panic!("expected two Eq leaves, got {other:?}"),
        },
        other => panic!("expected Or, got {other:?}"),
    }
}

#[test]
fn plan_drop_field_rejects_when_authorize_references_it() {
    let mut t = users_with_auth_and_index();
    t.fields.insert("visibility".into(), FieldType::String);
    t.authorize = Some(FilterExpr::Eq { field: "visibility".into(), value: s("public") });
    let old = schema(vec![("users", t)]);
    let err = plan_migration(&old, &vec![drop_field("visibility")]).unwrap_err();
    assert_eq!(err.code, ErrorCode::BadRequest);
    assert!(
        err.message.contains("authorize"),
        "should explain the authorize conflict: {}",
        err.message
    );
    assert!(plan_migration(&old, &vec![drop_field("email")]).is_ok());
}

fn name_expr(given: &str) -> ValueExpr {
    ValueExpr::Concat {
        parts: vec![
            field("age"),
            ValueExpr::Case {
                whens: vec![CaseWhen {
                    when: FilterExpr::Exists { field: given.into() },
                    outcome: field(given),
                }],
                otherwise: Box::new(ValueExpr::Literal { value: s("") }),
            },
        ],
    }
}

#[test]
fn plan_rename_field_rewrites_computed_refs_and_key() {
    let mut t = users();
    t.fields.insert("first".into(), FieldType::String);
    t.fields.insert("nick".into(), FieldType::String);
    t.computed.insert("name".into(), name_expr("first"));
    t.computed.insert("nick".into(), field("age"));
    let old = schema(vec![("users", t)]);
    let d = vec![rename_field("first", "givenName"), rename_field("nick", "handle")];
    let got = plan_migration(&old, &d).unwrap();
    let t = got.table("users").unwrap();
    let found = t.computed.get("name").expect("name entry preserved");
    assert_eq!(format!("{found:?}"), format!("{:?}", name_expr("givenName")));
    assert!(t.computed.contains_key("handle"));
    assert!(!t.computed.contains_key("nick"));
}

#[test]
fn plan_drop_field_rejects_computed_reference_and_drops_keyed_entry() {
    let mut t = users();
    t.computed.insert("age".into(), field("name"));
    let old = schema(vec![("users", t)]);
    let err = plan_migration(&old, &vec![drop_field("name")]).unwrap_err();
    assert_eq!(err.code, ErrorCode::BadRequest);
    assert!(
        err.message.contains("computed field 'users.age'"),
        "should name the computed field: {}",
        err.message
    );
    let got = plan_migration(&old, &vec![drop_field("age")]).unwrap();
    assert!(
        got.table("users").unwrap().computed.is_empty(),
        "entry keyed on the dropped field is removed"
    );
}

#[test]
fn plan_rejects_evalexpr_set_with_stray_quote() {
    let d = vec![Directive::EvalExpr {
        table: "users".into(),
        set: "name' WHERE 1=1".into(),
        expr: ExprSource::Legacy("'x'".into()),
        where_clause: None,
    }];
    let err = plan_migration(&one_table_schema(), &d).unwrap_err();
    assert_eq!(err.code, ErrorCode::BadRequest);
    assert!(
        err.message.contains("valid field name"),
        "should explain the set-name rejection: {}",
        err.message
    );
}

#[test]
fn plan_rename_table_rewrites_self_referential_id() {
    let old = schema(vec![(
        "node",
        table(vec![
            ("name", FieldType::String),
            ("parent", FieldType::Id { table: "node".into(), on_delete: None }),
        ]),
    )]);
    let d = vec![Directive::RenameTable { from: "node".into(), to: "nodes".into() }];
    let got = plan_migration(&old, &d).unwrap();
    assert!(got.tables.contains_key("nodes"));
    let parent = got.table("nodes").unwrap().fields.get("parent").unwrap();
    assert!(
        matches!(parent, FieldType::Id { table, on_delete: None } if table == "nodes"),
        "self-referential Id must follow the rename"
    );
}

#[test]
fn plan_rename_table_rewrites_cross_table_id_refs() {
    let old = schema(vec![
        ("user", table(vec![("name", FieldType::String)])),
        (
            "account",
            table(vec![("owner", FieldType::Id { table: "user".into(), on_delete: None })]),
        ),
    ]);
    let d = vec![Directive::RenameTable { from: "user".into(), to: "users".into() }];
    let got = plan_migration(&old, &d).unwrap();
    let owner = got.table("account").unwrap().fields.get("owner").unwrap();
    assert!(
        matches!(owner, FieldType::Id { table, on_delete: None } if table == "users"),
        "cross-table Id must follow the rename"
    );
}

fn coerced(cast: Cast, v: Json) -> Option<String> {
    coerce_value(cast, &v).map(|j| format!("{j:?}"))
}

fn shown(v: Json) -> Option<String> {
    Some(format!("{v:?}"))
}

#[test]
fn coerce_value_emits_target_forms() {
    assert_eq!(coerced(Cast::ToNumber, s("42")), shown(float("42.0")));
    assert_eq!(coerced(Cast::ToNumber, Json::Bool(true)), shown(float("1.0")));
    assert_eq!(coerced(Cast::ToNumber, Json::Bool(false)), shown(float("0.0")));
    assert!(coerced(Cast::ToNumber, s("NaN")).is_none());
    assert!(coerced(Cast::ToNumber, s("inf")).is_none());
    assert!(coerced(Cast::ToNumber, s("not-a-number")).is_none());
    assert_eq!(coerced(Cast::ToInt64, s("123")), shown(s("123")));
    assert_eq!(coerced(Cast::ToInt64, n(456)), shown(s("456")));
    assert!(coerced(Cast::ToInt64, float("456.5")).is_none());
    assert!(coerced(Cast::ToInt64, s("not-an-int")).is_none());
    assert_eq!(coerced(Cast::ToString, n(42)), shown(s("42")));
    assert_eq!(coerced(Cast::ToString, Json::Bool(true)), shown(s("true")));
    assert_eq!(coerced(Cast::ToBoolean, s("true")), shown(Json::Bool(true)));
    assert_eq!(coerced(Cast::ToBoolean, s("0")), shown(Json::Bool(false)));
    assert_eq!(coerced(Cast::ToBoolean, float("0.0")), shown(Json::Bool(false)));
    assert_eq!(coerced(Cast::ToBoolean, n(3)), shown(Json::Bool(true)));
    assert!(coerced(Cast::ToBoolean, s("maybe")).is_none());
    assert!(coerced(Cast::ToString, object(&[("a", n(1))])).is_none());
    assert!(coerced(Cast::ToNumber, Json::Array(vec![n(1)])).is_none());
    assert!(coerced(Cast::ToInt64, Json::Null).is_none());
}

#[test]
fn coerced_numbers_keep_their_text() {
    assert_eq!(coerced(Cast::ToString, float("2.5")), shown(s("2.5")));
    assert_eq!(coerced(Cast::ToInt64, s("-9223372036854775808")), shown(s("-9223372036854775808")));
    assert!(coerced(Cast::ToInt64, s("9223372036854775808")).is_none());
    assert_eq!(coerced(Cast::ToInt64, n(-7)), shown(s("-7")));
    assert_eq!(coerced(Cast::ToNumber, s("1e3")), shown(float("1000.0")));
    assert_eq!(coerced(Cast::ToBoolean, n(0)), shown(Json::Bool(false)));
    assert_eq!(coerced(Cast::ToBoolean, float("-0.0")), shown(Json::Bool(false)));
}

#[test]
fn unconvertible_rows_take_the_converted_default() {
    let d = Some(Json::Bool(true));
    let v = recast_value("users", "7", Cast::ToNumber, &s("x"), "\"x\"", &d).unwrap();
    assert_eq!(format!("{v:?}"), format!("{:?}", float("1.0")));
    let e = recast_value("users", "7", Cast::ToNumber, &s("x"), "\"x\"", &None).unwrap_err();
    assert_eq!(
        e.message,
        "changeType cannot coerce value in users.7 (\"x\") and no default given"
    );
}

#[test]
fn every_directive_says_what_is_missing() {
    let old = one_table_schema();
    assert_eq!(
        plan_error(&old, vec![rename_field("nope", "x")]),
        "renamed field 'users.nope' does not exist"
    );
    assert_eq!(
        plan_error(&old, vec![rename_field("name", "age")]),
        "rename target 'users.age' already exists"
    );
    assert_eq!(
        plan_error(&old, vec![rename_field("nope", "age")]),
        "rename target 'users.age' already exists"
    );
    assert_eq!(
        plan_error(&old, vec![Directive::RenameTable { from: "a".into(), to: "users".into() }]),
        "rename target table 'users' already exists"
    );
    assert_eq!(
        plan_error(&old, vec![Directive::RenameTable { from: "a".into(), to: "b".into() }]),
        "renamed table 'a' does not exist"
    );
    assert_eq!(
        plan_error(&old, vec![change_type("users", "nope", FieldType::String, Cast::ToString)]),
        "changed field 'users.nope' does not exist"
    );
    assert_eq!(
        plan_error(&old, vec![drop_field("nope")]),
        "dropped field 'users.nope' does not exist"
    );
    assert_eq!(
        plan_error(&old, vec![Directive::DropTable { name: "nope".into() }]),
        "dropped table 'nope' does not exist"
    );
    assert_eq!(
        plan_error(
            &old,
            vec![Directive::DropIndex { table: "users".into(), name: "nope".into() }]
        ),
        "dropped index 'users.nope' does not exist"
    );
    assert_eq!(
        plan_error(
            &old,
            vec![Directive::SetDefault {
                table: "users".into(),
                field: "nope".into(),
                value: n(1)
            }]
        ),
        "setDefault target 'users.nope' does not exist"
    );
    assert_eq!(
        plan_error(
            &old,
            vec![Directive::DropField { table: "ghosts".into(), field: "x".into() }]
        ),
        "table 'ghosts' does not exist"
    );
    assert_eq!(
        plan_error(
            &old,
            vec![Directive::EvalExpr {
                table: "users".into(),
                set: "name".into(),
                expr: ExprSource::Typed(field("ghost")),
                where_clause: None
            }]
        ),
        "evalExpr 'expr' references undeclared field 'ghost'"
    );
    assert_eq!(
        plan_error(
            &old,
            vec![Directive::EvalExpr {
                table: "users".into(),
                set: "name".into(),
                expr: ExprSource::Typed(field("age")),
                where_clause: Some(CondSource::Typed(FilterExpr::Exists {
                    field: "ghost".into()
                }))
            }]
        ),
        "filter references unknown field 'ghost'"
    );
}

#[test]
fn later_directives_meet_the_schema_earlier_ones_leave() {
    let d = vec![
        Directive::RenameTable { from: "users".into(), to: "people".into() },
        Directive::RenameField {
            table: "people".into(),
            from: "name".into(),
            to: "label".into(),
        },
        change_type("people", "age", FieldType::String, Cast::ToString),
    ];
    let whole = plan_migration(&one_table_schema(), &d).unwrap();
    let mut step = one_table_schema();
    for x in &d {
        step = validate_one(step, x).unwrap();
    }
    assert_eq!(format!("{whole:?}"), format!("{step:?}"));
    assert!(matches!(
        whole.table("people").unwrap().fields.get("age"),
        Some(FieldType::String)
    ));
}

#[test]
fn renaming_back_restores_the_schema() {
    let mut t = users_with_auth_and_index();
    t.computed.insert("email".into(), field("ownerId"));
    t.defaults.insert("ownerId".into(), s("nobody"));
    t.authorize = Some(FilterExpr::Exists { field: "ownerId".into() });
    let old = schema(vec![("users", t)]);
    let d = vec![rename_field("ownerId", "uid"), rename_field("uid", "ownerId")];
    let got = plan_migration(&old, &d).unwrap();
    assert_eq!(format!("{got:?}"), format!("{old:?}"));
}

#[test]
fn changing_a_type_drops_its_default() {
    let mut t = users();
    t.defaults.insert("age".into(), n(3));
    t.defaults.insert("name".into(), s("x"));
    let old = schema(vec![("users", t)]);
    let d = vec![change_type("users", "age", FieldType::String, Cast::ToString)];
    let got = plan_migration(&old, &d).unwrap();
    let t = got.table("users").unwrap();
    assert!(!t.defaults.contains_key("age"));
    assert!(t.defaults.contains_key("name"));
}

fn facts() -> Facts {
    Facts { indexed: false, still_indexed: vec![], indexable: true, column: None, expr: None }
}

fn age_column() -> TypedColumn {
    TypedColumn {
        field: "age".into(),
        pg_type: "double precision".into(),
        expr: "(doc->>'age')::double precision".into(),
    }
}

fn texts(v: &[Statement]) -> Vec<String> {
    v.iter().map(|s| s.sql.clone()).collect()
}

#[test]
fn rename_field_moves_column_and_key() {
    let old = one_table_schema();
    let sn = pg_schema("app");
    let d = rename_field("name", "fullName");
    let p = apply_one(&sn, &old, &old, &d, Facts { indexed: true, ..facts() }).unwrap();
    assert_eq!(
        texts(&p.first),
        vec![format!(
            "ALTER TABLE \"{sn}\".\"t_users\" RENAME COLUMN \"f_name\" TO \"f_fullname\""
        )]
    );
    assert_eq!(
        p.ids.unwrap().sql,
        format!("SELECT id FROM \"{sn}\".\"t_users\" WHERE doc ? 'name'")
    );
    assert_eq!(
        texts(&p.rest),
        vec![format!(
            "UPDATE \"{sn}\".\"t_users\" SET doc = jsonb_set(doc - 'name', '{{\"fullName\"}}', doc->'name', true) WHERE doc ? 'name'"
        )]
    );
    let e = apply_one(&sn, &old, &old, &rename_field("a'b", "c"), facts()).unwrap_err();
    assert_eq!(e.message, "invalid field identifier 'a'b'");
}

#[test]
fn rename_and_drop_table_take_the_sequence_along() {
    let old = one_table_schema();
    let d = Directive::RenameTable { from: "users".into(), to: "people".into() };
    let p = apply_one("s", &old, &old, &d, facts()).unwrap();
    assert_eq!(
        texts(&p.first),
        vec![
            "ALTER TABLE \"s\".\"t_users\" RENAME TO \"t_people\"".to_string(),
            "ALTER SEQUENCE IF EXISTS \"s\".\"seq_users\" RENAME TO \"seq_people\"".to_string(),
        ]
    );
    assert!(p.ids.is_none());
    let d = Directive::DropTable { name: "users".into() };
    let p = apply_one("s", &old, &old, &d, facts()).unwrap();
    assert_eq!(p.ids.unwrap().sql, "SELECT id FROM \"s\".\"t_users\" WHERE true");
    assert_eq!(
        texts(&p.rest),
        vec![
            "DROP TABLE \"s\".\"t_users\"".to_string(),
            "DROP SEQUENCE IF EXISTS \"s\".\"seq_users\"".to_string(),
        ]
    );
}

#[test]
fn a_field_that_an_index_needs_is_not_dropped() {
    let mut t = users();
    t.indexes = vec![index("by_age", &["age"]), index("by_both", &["name", "age"])];
    let mut v = index("by_vec", &["embedding"]);
    v.vector = Some(VectorSpec {
        dimensions: 3,
        metric: VectorMetric::Cosine,
        filter_fields: vec!["name".into()],
    });
    t.indexes.push(v);
    let old = schema(vec![("users", t)]);
    let e = apply_one("s", &old, &old, &drop_field("age"), facts()).unwrap_err();
    assert_eq!(
        e.message,
        "drop index 'by_age', 'by_both' before dropping field 'users.age'"
    );
    let e = apply_one("s", &old, &old, &drop_field("name"), facts()).unwrap_err();
    assert_eq!(
        e.message,
        "drop index 'by_both', 'by_vec' before dropping field 'users.name'"
    );
    let p = apply_one("s", &one_table_schema(), &old, &drop_field("age"), facts()).unwrap();
    assert_eq!(
        texts(&p.rest),
        vec![
            "UPDATE \"s\".\"t_users\" SET doc = doc - 'age' WHERE doc ? 'age'".to_string(),
            "ALTER TABLE \"s\".\"t_users\" DROP COLUMN IF EXISTS \"f_age\"".to_string(),
        ]
    );
}

#[test]
fn a_dropped_index_takes_what_it_alone_needed() {
    let mut t = users();
    let mut ix = index("Find", &["name", "age"]);
    ix.search = true;
    ix.vector = Some(VectorSpec {
        dimensions: 3,
        metric: VectorMetric::Cosine,
        filter_fields: vec![],
    });
    t.indexes = vec![ix];
    let old = schema(vec![("Users", t)]);
    let d = Directive::DropIndex { table: "Users".into(), name: "Find".into() };
    let p = apply_one(
        "s",
        &old,
        &old,
        &d,
        Facts { still_indexed: vec!["age".into()], ..facts() },
    )
    .unwrap();
    assert_eq!(
        texts(&p.first),
        vec![
            "DROP INDEX IF EXISTS \"s\".\"i_users_find\"".to_string(),
            "DROP INDEX IF EXISTS \"s\".\"tg_users_find\"".to_string(),
            "ALTER TABLE \"s\".\"t_users\" DROP COLUMN IF EXISTS \"s_find\"".to_string(),
            "ALTER TABLE \"s\".\"t_users\" DROP COLUMN IF EXISTS \"v_find\"".to_string(),
            "ALTER TABLE \"s\".\"t_users\" DROP COLUMN IF EXISTS \"f_name\"".to_string(),
        ]
    );
    let d = Directive::DropIndex { table: "Users".into(), name: "x\"y".into() };
    let e = apply_one("s", &old, &old, &d, facts()).unwrap_err();
    assert_eq!(e.message, "invalid index identifier 'x\"y'");
}

#[test]
fn a_default_is_bound_as_text_and_its_column_read_anew() {
    let old = one_table_schema();
    let d = Directive::SetDefault {
        table: "users".into(),
        field: "age".into(),
        value: object(&[("a", n(1)), ("b", Json::Array(vec![Json::Null, s("x")]))]),
    };
    let p = apply_one("s", &old, &old, &d, Facts { column: Some(age_column()), ..facts() }).unwrap();
    assert_eq!(
        p.ids.unwrap().sql,
        "SELECT id FROM \"s\".\"t_users\" WHERE NOT doc ? 'age'"
    );
    assert_eq!(
        p.rest[0].sql,
        "UPDATE \"s\".\"t_users\" SET doc = jsonb_set(doc, '{\"age\"}', $1::jsonb, true) WHERE NOT doc ? 'age'"
    );
    assert!(matches!(
        &p.rest[0].binds[0],
        MigrateBind::Text(t) if t == "{\"a\":1,\"b\":[null,\"x\"]}"
    ));
    assert!(!p.rest[0].needs_ids);
    assert_eq!(
        p.rest[1].sql,
        "UPDATE \"s\".\"t_users\" SET \"f_age\" = (doc->>'age')::double precision WHERE id = ANY($1)"
    );
    assert!(p.rest[1].needs_ids);
}

#[test]
fn changing_a_type_recasts_the_column() {
    let old = one_table_schema();
    let d = change_type("users", "age", FieldType::String, Cast::ToString);
    let p = apply_one("s", &old, &old, &d, Facts { column: Some(age_column()), ..facts() }).unwrap();
    assert_eq!(
        texts(&p.rest),
        vec![
            "ALTER TABLE \"s\".\"t_users\" ALTER COLUMN \"f_age\" TYPE double precision USING ((doc->>'age')::double precision)"
                .to_string()
        ]
    );
    let e = apply_one("s", &old, &old, &d, Facts { indexable: false, ..facts() }).unwrap_err();
    assert_eq!(e.message, "changeType target for users.age is not indexable");
    let d = Directive::ChangeType {
        table: "users".into(),
        field: "age".into(),
        to: FieldType::Number,
        cast: Cast::ToNumber,
        default: Some(s("x")),
    };
    let e = apply_one("s", &old, &old, &d, facts()).unwrap_err();
    assert_eq!(
        e.message,
        "changeType default for users.age is not representable under cast ToNumber"
    );
    assert_eq!(
        read_field_sql("s", "users", "age"),
        "SELECT doc->'age' FROM \"s\".\"t_users\" WHERE id = $1"
    );
    assert_eq!(
        write_field_sql("s", "users", "age"),
        "UPDATE \"s\".\"t_users\" SET doc = jsonb_set(doc, '{\"age\"}', $1::jsonb, true) WHERE id = $2"
    );
}

#[test]
fn an_evaluation_numbers_its_condition_behind_its_expression() {
    let old = one_table_schema();
    let d = Directive::EvalExpr {
        table: "users".into(),
        set: "name".into(),
        expr: ExprSource::Typed(ValueExpr::Literal { value: s("x") }),
        where_clause: Some(CondSource::Typed(FilterExpr::Eq {
            field: "name".into(),
            value: s("y"),
        })),
    };
    let compiled =
        || Some(CompiledExpr { sql: "$1".into(), binds: vec![MigrateBind::Json(s("x"))] });
    let p = apply_one("s", &old, &old, &d, Facts { expr: compiled(), ..facts() }).unwrap();
    let ids = p.ids.unwrap();
    assert_eq!(ids.sql, "SELECT id FROM \"s\".\"t_users\" WHERE (doc->>'name') = $1");
    assert_eq!(ids.binds.len(), 1);
    assert_eq!(
        p.rest[0].sql,
        "UPDATE \"s\".\"t_users\" SET doc = jsonb_set(doc, '{\"name\"}', to_jsonb(($1)), true) WHERE (doc->>'name') = $2"
    );
    assert!(matches!(&p.rest[0].binds[0], MigrateBind::Json(_)));
    assert!(matches!(&p.rest[0].binds[1], MigrateBind::Text(t) if t == "y"));
    let d = Directive::EvalExpr {
        table: "users".into(),
        set: "name".into(),
        expr: ExprSource::Typed(ValueExpr::Now),
        where_clause: Some(CondSource::Legacy("true".into())),
    };
    let e = apply_one("s", &old, &old, &d, Facts { expr: compiled(), ..facts() }).unwrap_err();
    assert!(e.message.contains("requires a typed 'where'"), "{}", e.message);
    let d = Directive::EvalExpr {
        table: "users".into(),
        set: "name".into(),
        expr: ExprSource::Legacy("upper(doc->>'name')".into()),
        where_clause: Some(CondSource::Legacy("doc ? 'name'".into())),
    };
    let p = apply_one("s", &old, &old, &d, facts()).unwrap();
    assert_eq!(
        p.rest[0].sql,
        "UPDATE \"s\".\"t_users\" SET doc = jsonb_set(doc, '{\"name\"}', to_jsonb((upper(doc->>'name'))), true) WHERE doc ? 'name'"
    );
}

#[test]
fn computed_fields_are_stamped_and_columns_read_anew() {
    let mut t = users();
    t.computed.insert("name".into(), field("age"));
    t.computed.insert("age".into(), ValueExpr::Now);
    assert_eq!(computed_field_names(&t), vec!["age".to_string(), "name".to_string()]);
    assert_eq!(computed_fields_referencing(&t, "age"), vec!["name".to_string()]);
    assert!(computed_fields_referencing(&t, "other").is_empty());
    let st = restamp_computed_field(
        "s",
        "users",
        "name",
        CompiledExpr { sql: "doc->'age'".into(), binds: vec![] },
    )
    .unwrap();
    assert_eq!(
        st.sql,
        "UPDATE \"s\".\"t_users\" SET doc = CASE WHEN to_jsonb((doc->'age')) IS NULL THEN doc - 'name' ELSE jsonb_set(doc, '{\"name\"}', to_jsonb((doc->'age')), true) END WHERE id = ANY($1)"
    );
    assert!(st.needs_ids);
    assert!(recompute_all_indexed("s", "users", &vec![]).is_none());
    let all = recompute_all_indexed("s", "users", &vec![age_column(), age_column()]).unwrap();
    assert_eq!(
        all.sql,
        "UPDATE \"s\".\"t_users\" SET \"f_age\" = (doc->>'age')::double precision, \"f_age\" = (doc->>'age')::double precision WHERE id = ANY($1)"
    );
}

#[test]
fn effects_collect_reports_tables_and_writes() {
    let mut fx = MigrationEffects::default();
    let ids = vec!["1".to_string(), "2".to_string()];
    fx.record(&rename_field("a", "b"), &ids, 5);
    fx.record(&Directive::RenameTable { from: "users".into(), to: "people".into() }, &vec![], 0);
    fx.record(&Directive::DropTable { name: "old".into() }, &ids, 0);
    assert_eq!(
        fx.reports.iter().map(|r| (r.op.clone(), r.affected_rows)).collect::<Vec<_>>(),
        vec![
            ("renameField".to_string(), 5),
            ("renameTable".to_string(), 0),
            ("dropTable".to_string(), 2),
        ]
    );
    assert_eq!(
        fx.touched.key_list(),
        vec!["old".to_string(), "people".to_string(), "users".to_string()]
    );
    assert_eq!(fx.ops.len(), 4);
    assert_eq!(fx.ops[0].kind, OpKind::Patch);
    assert_eq!(fx.ops[0].table, "users");
    assert_eq!(fx.ops[3].kind, OpKind::Delete);
    assert_eq!(fx.ops[3].id, "2");
    assert!(fx.reports.iter().all(|r| r.cast_failures.is_empty() && r.sample_changes.is_empty()));
}

#[test]
fn filter_binds_carry_over() {
    assert!(matches!(MigrateBind::of(&EqBind::Bool(true)), MigrateBind::Bool(true)));
    assert!(matches!(MigrateBind::of(&EqBind::I64(-4)), MigrateBind::I64(-4)));
    assert!(matches!(
        MigrateBind::of(&EqBind::Num(JsonNumber::from_i64(2))),
        MigrateBind::Num(JsonNumber::PosInt(2))
    ));
    assert_eq!(json_text_of(&float("2.50")).unwrap(), "2.5");
}

#[test]
fn rewritten_fields_renew_what_reads_them() {
    let mut t = users();
    t.fields.insert("label".into(), FieldType::String);
    t.computed.insert("label".into(), field("name"));
    t.computed.insert("age".into(), ValueExpr::Now);
    let derived = schema(vec![("users", t)]);
    let set = |f: &str| Directive::SetDefault {
        table: "users".into(),
        field: f.into(),
        value: n(1),
    };
    let f = follow_up(&derived, &set("name")).unwrap();
    assert_eq!((f.fields, f.columns), (vec!["label".to_string()], true));
    let f = follow_up(&derived, &set("label")).unwrap();
    assert_eq!((f.fields, f.columns), (vec![], false));
    let eval = Directive::EvalExpr {
        table: "users".into(),
        set: "other".into(),
        expr: ExprSource::Legacy("1".into()),
        where_clause: None,
    };
    let f = follow_up(&derived, &eval).unwrap();
    assert_eq!((f.fields, f.columns), (vec!["age".to_string(), "label".to_string()], true));
    let f = follow_up(&derived, &drop_field("name")).unwrap();
    assert_eq!((f.fields, f.columns), (vec![], false));
    let e = follow_up(&schema(vec![]), &set("name")).unwrap_err();
    assert_eq!((e.code, e.message.as_str()), (ErrorCode::Internal, "table 'users' missing from schema"));
}

#[test]
fn converted_rows_are_written_as_json() {
    let text = |cast, v: &Json, d: &Option<Json>| recast_row_text("users", "7", cast, v, d);
    assert_eq!(text(Cast::ToString, &n(5), &None).unwrap(), "\"5\"");
    assert_eq!(text(Cast::ToNumber, &s("x"), &Some(s("2"))).unwrap(), "2.0");
    assert_eq!(
        text(Cast::ToInt64, &object(&[("a", n(1))]), &None).unwrap_err().message,
        "changeType cannot coerce value in users.7 ({\"a\":1}) and no default given"
    );
}

#[test]
fn renaming_a_table_follows_ids_at_any_depth() {
    let id = |t: &str| FieldType::Id { table: t.into(), on_delete: Some("cascade".into()) };
    let optional = |inner: FieldType| FieldType::Optional { inner: Box::new(inner) };
    let array = |element: FieldType| FieldType::Array { element: Box::new(element) };
    let record = |value: FieldType| FieldType::Record { value: Box::new(value) };
    let fields = |t: &str| {
        vec![
            ("a", optional(id(t))),
            ("b", array(id(t))),
            ("c", FieldType::Object { fields: vec![("x".into(), record(array(id(t))))] }),
            ("d", FieldType::Union { variants: vec![FieldType::Null, id(t), id("other")] }),
        ]
    };
    let old = schema(vec![("user", users()), ("account", table(fields("user")))]);
    let d = vec![Directive::RenameTable { from: "user".into(), to: "people".into() }];
    let got = plan_migration(&old, &d).unwrap();
    let account = got.table("account").unwrap();
    for (name, want) in fields("people") {
        let ft = account.fields.get(name).unwrap();
        assert_eq!(format!("{ft:?}"), format!("{want:?}"), "{name}");
    }
}

#[test]
fn a_conversion_yields_the_type_it_declares() {
    let old = one_table_schema();
    let refusal =
        |to: FieldType, cast: Cast| plan_error(&old, vec![change_type("users", "age", to, cast)]);
    assert_eq!(
        refusal(FieldType::Boolean, Cast::ToString),
        "cast ToString is not valid for users.age"
    );
    let accepted = [
        FieldType::String,
        FieldType::Any,
        FieldType::Optional { inner: Box::new(FieldType::String) },
        FieldType::Union { variants: vec![FieldType::Null, FieldType::String] },
        FieldType::Id { table: "users".into(), on_delete: None },
        FieldType::Bytes,
        FieldType::Literal { value: s("x") },
    ];
    for to in [
        FieldType::Union { variants: vec![FieldType::Null, FieldType::Boolean] },
        FieldType::Literal { value: n(1) },
        FieldType::Array { element: Box::new(FieldType::String) },
    ] {
        assert_eq!(refusal(to, Cast::ToString), "cast ToString is not valid for users.age");
    }
    for to in accepted {
        let got =
            plan_migration(&old, &vec![change_type("users", "age", to.copy(), Cast::ToString)])
                .unwrap();
        let ft = got.table("users").unwrap().fields.get("age").unwrap();
        assert_eq!(format!("{ft:?}"), format!("{to:?}"));
    }
}

#[test]
fn directives_work_on_the_columns_that_are_there() {
    let names = |v: &[&str]| v.iter().map(|n| n.to_string()).collect::<Vec<_>>();
    let (before, after) = (names(&["age"]), names(&["name"]));
    let set = |f: &str| Directive::SetDefault {
        table: "users".into(),
        field: f.into(),
        value: n(1),
    };
    let change = |f: &str| change_type("users", f, FieldType::String, Cast::ToString);
    assert!(column_wanted(&rename_field("age", "years"), &before, &after));
    assert!(!column_wanted(&rename_field("name", "label"), &before, &after));
    assert!(column_wanted(&set("name"), &before, &after));
    assert!(!column_wanted(&set("age"), &before, &after));
    assert!(column_wanted(&change("age"), &before, &after));
    assert!(!column_wanted(&change("name"), &before, &after));
    assert!(!column_wanted(&drop_field("age"), &before, &after));
}
