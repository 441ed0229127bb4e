//! The values everything else is built on: texts, numbers, documents and maps.
use rtdb::dsl::PrincipalCtx;
use rtdb::error::ErrorCode;
use rtdb::idmap::IdMap;
use rtdb::json::{put_entry, Json, JsonNumber};
use rtdb::schema::{authorize_table, pg_col, pg_schema, pg_table, validate_db_name, FieldType};
use rtdb::strmap::StrMap;
use rtdb::text::{
    before, dec_i64, dec_u64, double_quotes, is_blank, is_valid_identifier, join, lower, parse_i64,
};

#[test]
fn integers_are_written_in_decimal() {
    assert_eq!(dec_i64(i64::MIN), "-9223372036854775808");
    assert_eq!(dec_i64(0), "0");
    assert_eq!(dec_u64(u64::MAX), "18446744073709551615");
}

#[test]
fn integers_are_read_like_rust_reads_them() {
    for text in [
        "", "-", "+", "0", "-0", "+7", "007", "9223372036854775807", "9223372036854775808",
        "-9223372036854775808", "-9223372036854775809", "1.0", " 1", "1 ", "--1", "99999999999999999999",
    ] {
        assert_eq!(parse_i64(text), text.parse::<i64>().ok(), "{text:?}");
    }
}

#[test]
fn texts_are_quoted_lowered_and_joined() {
    assert_eq!(double_quotes("a'b''"), "a''b''''");
    assert_eq!(lower("ÄbC-1"), "Äbc-1");
    assert_eq!(join(&vec!["a".into(), "b".into(), "c".into()], ", "), "a, b, c");
    assert_eq!(join(&vec![], ", "), "");
    assert!(is_blank(" \t\n"));
    assert!(!is_blank(" x "));
}

#[test]
fn texts_are_ordered_like_rust_orders_them() {
    for a in ["", "a", "ab", "b", "Z", "é", "z\u{10000}"] {
        for b in ["", "a", "ab", "b", "Z", "é", "z\u{10000}"] {
            assert_eq!(before(a, b), a < b, "{a:?} {b:?}");
        }
    }
}

#[test]
fn identifiers_hold_letters_digits_and_underscores() {
    assert!(is_valid_identifier("a_9", 3));
    assert!(!is_valid_identifier("a_9", 2));
    for text in ["", "_a", "9a", "a b", "a\"b", "a'b", "é"] {
        assert!(!is_valid_identifier(text, 63), "{text:?}");
    }
}

#[test]
fn what_is_put_is_found_in_its_place() {
    let mut entries = vec![
        ("b".to_string(), Json::Bool(true)),
        ("d".to_string(), Json::Null),
    ];
    put_entry(&mut entries, "c".into(), Json::Bool(false));
    put_entry(&mut entries, "b".into(), Json::Null);
    let keys: Vec<&str> = entries.iter().map(|e| e.0.as_str()).collect();
    assert_eq!(keys, vec!["b", "c", "d"]);
    let doc = Json::Object(entries);
    assert!(doc.get("b").unwrap().same(&Json::Null));
    assert!(doc.get("c").unwrap().same(&Json::Bool(false)));
    assert!(doc.get("a").is_none());
    assert!(doc.copy().same(&doc));
    assert!(!doc.same(&Json::Null));
}

#[test]
fn numbers_know_their_integers() {
    assert_eq!(JsonNumber::from_i64(-3).as_i64(), Some(-3));
    assert_eq!(JsonNumber::PosInt(u64::MAX).as_i64(), None);
    assert_eq!(JsonNumber::Float("1.5".into()).as_i64(), None);
    assert!(JsonNumber::from_i64(0).is_zero());
    assert!(!JsonNumber::from_i64(-1).is_zero());
}

#[test]
fn maps_keep_their_keys_in_order() {
    let mut m: StrMap<FieldType> = StrMap::new();
    for k in ["b", "a", "c", "a"] {
        m.insert(k.to_string(), FieldType::String);
    }
    assert_eq!(m.key_list(), vec!["a", "b", "c"]);
    assert!(m.remove("b").is_some());
    assert!(m.remove("b").is_none());
    assert_eq!((m.len(), m.contains_key("b"), m.contains_key("c")), (2, false, true));

    let mut ids: IdMap<u64> = IdMap::new();
    assert!(ids.is_empty());
    for k in [9, 1, 5, 1] {
        ids.insert(k, k + 10);
    }
    assert_eq!((0..ids.len()).map(|i| ids.key_at(i)).collect::<Vec<_>>(), vec![1, 5, 9]);
    ids.set_at(1, 7);
    assert_eq!(ids.get(5), Some(&7));
    assert_eq!(ids.remove(5), Some(7));
    assert_eq!(ids.remove(5), None);
    assert_eq!(ids.get(9), Some(&19));
}

#[test]
fn database_names_name_schemas() {
    for name in ["a", "my-app_1", "9lives"] {
        assert!(validate_db_name(name).is_ok(), "{name:?}");
    }
    for name in ["", "_a", "-a", "a b", "a\"b"] {
        let e = validate_db_name(name).unwrap_err();
        assert_eq!(e.code, ErrorCode::BadRequest);
        assert_eq!(e.message, format!("invalid database name '{name}'"));
    }
    for text in [pg_col("f"), pg_table("f"), pg_schema("f")] {
        assert_ne!(text, "f");
        assert!(text.contains('f'));
    }
}

#[test]
fn credentials_are_limited_to_their_tables() {
    let open = PrincipalCtx { user_id: None, email: None, tables: None };
    let narrow = PrincipalCtx { user_id: None, email: None, tables: Some(vec!["notes".into()]) };
    assert!(authorize_table(&open, "users").is_ok());
    assert!(authorize_table(&narrow, "notes").is_ok());
    let e = authorize_table(&narrow, "users").unwrap_err();
    assert_eq!(e.code, ErrorCode::Forbidden);
    assert_eq!(e.message, "table 'users' is not allowed for this credential");
}

#[test]
fn optional_types_are_seen_through() {
    let t = FieldType::Optional { inner: Box::new(FieldType::Number) };
    assert!(matches!(t.base(), FieldType::Number));
    assert!(matches!(FieldType::String.base(), FieldType::String));
}
