//! The activity feed, notifications between instances, kept results, and the
//! vocabulary of the wire.
use rtdb::error::ErrorCode;
use rtdb::json::{Json, JsonNumber};
use rtdb::mutation_log::{
    after_cleanup, cached_results, check_sql, cleanup_sql, ensure_table_sql, expires_at,
    store_sql, stored_value, AfterCleanup, DEFAULT_DEDUP_TTL_MS,
};
use rtdb::notify::{
    accepts_presence, accepts_write_set, generate_instance_id, identity_bytes, instance_id_of, listen_next, op_payloads,
    received_event, spool_reference, write_set_route, write_set_source, Listening, Route,
    WriteSetNotifyPayload, WriteSetSource,
    LISTEN_BACKOFF_MS, OP_FEED_CHANNEL, PRESENCE_CHANNEL, WRITE_SET_CHANNEL,
};
use rtdb::op_feed::OpFeed;
use rtdb::presence::manager::PresenceNotifyPayload;
use rtdb::protocol::{ScheduleKind, ScheduleStatus, StepRetry, UserKind, WorkflowStatus};
use rtdb::txn::{DocOp, OpKind, WriteSet};

fn op(table: &str, id: &str, kind: OpKind) -> DocOp {
    DocOp { table: table.into(), id: id.into(), kind }
}

#[test]
fn events_are_numbered_and_the_ring_is_bounded() {
    let mut f = OpFeed::with_epoch(3, "e".into());
    let sent = f.publish(
        "db",
        Some("o"),
        &vec![op("t", "1", OpKind::Insert), op("u", "2", OpKind::Patch)],
        77,
    );
    assert_eq!(sent.iter().map(|e| e.seq).collect::<Vec<_>>(), vec![1, 2]);
    assert!(sent.iter().all(|e| e.ts == 77 && e.feed_epoch == "e" && e.db == "db"));
    assert_eq!(sent[0].owner.as_deref(), Some("o"));
    f.publish("db2", None, &vec![op("t", "3", OpKind::Delete), op("t", "4", OpKind::Patch)], 78);
    assert_eq!(f.ring.len(), 3);
    let all = f.recent(None, None, 10);
    assert_eq!(all.iter().map(|e| e.seq).collect::<Vec<_>>(), vec![2, 3, 4]);
    assert_eq!(f.recent(None, None, 2)[0].seq, 3);
    assert_eq!(f.recent(Some("db"), None, 10).len(), 1);
    assert_eq!(
        f.recent(Some("db2"), Some("t"), 1).iter().map(|e| e.doc_id.clone()).collect::<Vec<_>>(),
        vec!["4"]
    );
    assert!(f.recent(None, Some("nope"), 10).is_empty());
    assert!(f.recent(None, None, 0).is_empty());
}

#[test]
fn a_ring_without_room_keeps_the_newest_event() {
    let mut f = OpFeed::with_epoch(0, "e".into());
    f.publish("db", None, &vec![op("t", "1", OpKind::Insert), op("t", "2", OpKind::Insert)], 0);
    assert_eq!(f.recent(None, None, 10).len(), 1);
    assert_eq!(f.recent(None, None, 10)[0].doc_id, "2");
}

#[test]
fn every_feed_has_an_identity() {
    let a = OpFeed::new(1);
    let b = OpFeed::new(1);
    assert_eq!(a.feed_epoch.len(), 32);
    assert!(a.feed_epoch.chars().all(|c| c.is_ascii_hexdigit() && !c.is_ascii_uppercase()));
    assert_ne!(a.feed_epoch, b.feed_epoch);
}

#[test]
fn writes_reach_other_instances_with_their_time() {
    let ps = op_payloads(
        "A",
        "db",
        Some("o"),
        "mutate",
        &vec![op("t", "1", OpKind::Delete), op("t", "2", OpKind::Patch)],
        9,
    );
    assert_eq!(ps.len(), 2);
    assert_eq!(ps[0].source, "mutate");
    assert!(received_event(ps[0].clone(), "A").is_none());
    let e = received_event(ps[0].clone(), "B").unwrap();
    let mut f = OpFeed::with_epoch(5, "b".into());
    f.publish("db", None, &vec![op("x", "0", OpKind::Insert)], 1);
    let seen = f.publish_injected(e);
    assert_eq!((seen.seq, seen.ts, seen.feed_epoch.as_str()), (2, 9, "b"));
    assert_eq!(seen.kind, OpKind::Delete);
    assert_eq!(seen.owner.as_deref(), Some("o"));
}

#[test]
fn instance_ids_are_hexadecimal() {
    assert_eq!(instance_id_of(&vec![0, 15, 16, 255]), "000f10ff");
    assert_eq!(instance_id_of(&vec![]), "");
    assert_eq!(identity_bytes(Some(vec![7, 0, 1])), vec![7, 0, 1]);
    assert_eq!(instance_id_of(&identity_bytes(None)), "00000000");
    let id = generate_instance_id();
    assert_eq!(id.len(), 8);
    assert!(id.chars().all(|c| c.is_ascii_hexdigit()));
}

#[test]
fn large_write_sets_are_spooled() {
    assert_eq!(write_set_route(&"x".repeat(7499)), Route::Inline);
    assert_eq!(write_set_route(&"x".repeat(7500)), Route::Spool);
    assert_eq!(write_set_route(&"é".repeat(3750)), Route::Spool);
    assert_eq!(write_set_source("{\"a\":1}"), WriteSetSource::Inline);
    assert_eq!(
        write_set_source("00000000-0000-0000-0000-0000000000ff"),
        WriteSetSource::Spooled(255)
    );
    assert_eq!(write_set_source("hello"), WriteSetSource::Neither);
    assert_eq!(write_set_source(""), WriteSetSource::Neither);
}

#[test]
fn a_spooled_write_set_is_found() {
    let id: u128 = 0x0123_4567_89ab_cdef_0011_2233_4455_66ff;
    assert_eq!(spool_reference(id), "01234567-89ab-cdef-0011-2233445566ff");
    for id in [0, 1, id, u128::MAX] {
        assert_eq!(write_set_source(&spool_reference(id)), WriteSetSource::Spooled(id));
    }
}

#[test]
fn own_presence_reports_are_skipped() {
    let p = PresenceNotifyPayload {
        instance_id: "A".into(),
        db: "db".into(),
        room: "r".into(),
        members: vec![],
    };
    assert!(!accepts_presence(&p, "A"));
    assert!(accepts_presence(&p, "B"));
}

#[test]
fn foreign_write_sets_need_a_schema() {
    let p = WriteSetNotifyPayload {
        instance_id: "A".into(),
        db: "db".into(),
        write_set: WriteSet { tables: vec![], docs: vec![], ops: vec![] },
    };
    assert!(accepts_write_set(&p, "B", true));
    assert!(!accepts_write_set(&p, "B", false));
    assert!(!accepts_write_set(&p, "A", true));
    assert!(!accepts_write_set(&p, "A", false));
}

#[test]
fn a_listener_starts_over_after_any_failure() {
    assert_eq!(listen_next(Listening::Connect, true), (Listening::Subscribe, 0));
    assert_eq!(listen_next(Listening::Subscribe, true), (Listening::Receive, 0));
    assert_eq!(listen_next(Listening::Receive, true), (Listening::Receive, 0));
    for did in [Listening::Connect, Listening::Subscribe, Listening::Receive] {
        assert_eq!(listen_next(did, false), (Listening::Connect, LISTEN_BACKOFF_MS));
    }
    assert_eq!(LISTEN_BACKOFF_MS, 2000);
    assert_eq!(
        (OP_FEED_CHANNEL, PRESENCE_CHANNEL, WRITE_SET_CHANNEL),
        ("rtdb_ops", "rtdb_presence", "rtdb_write_sets")
    );
}

#[test]
fn kept_results_are_replayed() {
    assert_eq!(DEFAULT_DEDUP_TTL_MS, 5 * 60 * 1000);
    assert_eq!(expires_at(10, 5), 15);
    let results = vec![Json::Null, Json::Number(JsonNumber::from_i64(3))];
    let row = stored_value(&results);
    let back = cached_results(Some(row)).unwrap().unwrap();
    assert_eq!(format!("{back:?}"), format!("{results:?}"));
    assert!(cached_results(None).unwrap().is_none());
    let e = cached_results(Some(Json::Bool(true))).unwrap_err();
    assert_eq!(e.code, ErrorCode::Internal);
    assert_eq!(e.message, "failed to read cached mutation result");
}

#[test]
fn statements_name_the_schema_of_the_database() {
    assert!(check_sql("app").unwrap().ends_with(
        "\".mutations WHERE mut_id = $1 AND expires_at > $2"
    ));
    assert!(cleanup_sql("app").unwrap().starts_with("DELETE FROM \""));
    assert_eq!(
        ensure_table_sql("app").unwrap(),
        "CREATE TABLE IF NOT EXISTS \"db_app\".mutations (
            mut_id text PRIMARY KEY,
            result jsonb NOT NULL,
            expires_at bigint NOT NULL
        )"
    );
    assert_eq!(
        store_sql("app").unwrap(),
        "INSERT INTO \"db_app\".mutations (mut_id, result, expires_at) VALUES ($1, $2, $3)
         ON CONFLICT (mut_id) DO NOTHING"
    );
    assert_eq!(check_sql("a\"b").unwrap_err().code, ErrorCode::BadRequest);
    assert_eq!(after_cleanup(true, None), AfterCleanup::GoOn);
    assert_eq!(after_cleanup(false, Some(false)), AfterCleanup::End);
    assert_eq!(after_cleanup(false, Some(true)), AfterCleanup::Report);
    assert_eq!(after_cleanup(false, None), AfterCleanup::Report);
}

#[test]
fn workflow_status_wire_is_snake_case() {
    assert_eq!(WorkflowStatus::Pending.as_wire_str(), "pending");
    assert_eq!("failed".parse::<WorkflowStatus>().unwrap(), WorkflowStatus::Failed);
    assert!("bogus".parse::<WorkflowStatus>().is_err());
    assert_eq!(
        "bogus".parse::<WorkflowStatus>().unwrap_err(),
        "unknown WorkflowStatus: bogus"
    );
}

#[test]
fn workflow_status_round_trips_all_variants() {
    let all = [
        (WorkflowStatus::Pending, "pending"),
        (WorkflowStatus::Running, "running"),
        (WorkflowStatus::Success, "success"),
        (WorkflowStatus::Failed, "failed"),
        (WorkflowStatus::Cancelled, "cancelled"),
    ];
    for (variant, wire) in all {
        assert_eq!(wire.parse::<WorkflowStatus>().unwrap(), variant);
        assert_eq!(variant.as_wire_str(), wire);
    }
}

#[test]
fn kinds_round_trip() {
    for k in [UserKind::User, UserKind::Machine] {
        assert_eq!(UserKind::from_wire_str(k.as_wire_str()).unwrap(), k);
    }
    for k in [ScheduleKind::Oneshot, ScheduleKind::Cron, ScheduleKind::Interval] {
        assert_eq!(ScheduleKind::from_wire_str(k.as_wire_str()).unwrap(), k);
    }
    for k in [
        ScheduleStatus::Pending,
        ScheduleStatus::Running,
        ScheduleStatus::Paused,
        ScheduleStatus::Error,
    ] {
        assert_eq!(ScheduleStatus::from_wire_str(k.as_wire_str()).unwrap(), k);
    }
    assert_eq!(UserKind::from_wire_str("x").unwrap_err(), "unknown UserKind: x");
    assert_eq!("machine".parse::<UserKind>().unwrap(), UserKind::Machine);
    assert_eq!("User".parse::<UserKind>().unwrap_err(), "unknown UserKind: User");
    assert_eq!("interval".parse::<ScheduleKind>().unwrap(), ScheduleKind::Interval);
    assert_eq!("paused".parse::<ScheduleStatus>().unwrap(), ScheduleStatus::Paused);
    assert_eq!("cronx".parse::<ScheduleKind>().unwrap_err(), "unknown ScheduleKind: cronx");
    assert_eq!("".parse::<ScheduleStatus>().unwrap_err(), "unknown ScheduleStatus: ");
}

#[test]
fn retries_have_usual_waits() {
    let d = StepRetry::default();
    assert_eq!((d.max_attempts, d.initial_retry_ms, d.max_retry_ms), (3, 1_000, 60_000));
    let r = StepRetry::with_defaults(4, None, None);
    assert_eq!((r.max_attempts, r.initial_retry_ms, r.max_retry_ms), (4, 1_000, 60_000));
    let r = StepRetry::with_defaults(5, Some(500), Some(2000));
    assert_eq!((r.max_attempts, r.initial_retry_ms, r.max_retry_ms), (5, 500, 2000));
}
