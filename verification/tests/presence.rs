//! Rooms, sessions, expiry, broadcasts, and the exchange between instances.
use rtdb::error::ErrorCode;
use rtdb::json::{Json, JsonNumber};
use rtdb::presence::config::{Config, PresenceConfig};
use rtdb::presence::manager::PresenceManager;
use rtdb::metrics::counters::Metrics;
use rtdb::presence::sweep::{pause_after, tally_expiries, tally_flush, Pause};
use rtdb::presence::union::{build_union, PeerMembers};
use rtdb::protocol::{AuthedUser, PresenceMember, UserKind};

fn cfg() -> PresenceConfig {
    PresenceConfig {
        enabled: true,
        max_state_bytes: 1024,
        max_room_size: 100,
        max_rooms_per_conn: 32,
        max_room_bytes: 256,
        broadcast_interval_ms: 0,
        update_limit_per_sec: 20,
        max_ttl_ms: 300_000,
        beat_interval_ms: 5000,
        beat_timeout_ms: 15000,
    }
}

fn user(email: &str) -> AuthedUser {
    AuthedUser {
        kind: UserKind::User,
        email: Some(email.into()),
        name: None,
        github_login: None,
        github_id: None,
    }
}

fn manager(c: PresenceConfig) -> PresenceManager {
    PresenceManager::new(c, false, "test".to_string())
}

fn mgr() -> PresenceManager {
    manager(cfg())
}

fn n(v: i64) -> Json {
    Json::Number(JsonNumber::from_i64(v))
}

fn obj(key: &str, v: Json) -> Json {
    Json::Object(vec![(key.to_string(), v)])
}

fn shown(j: &Json) -> String {
    format!("{j:?}")
}

fn join(m: &mut PresenceManager, conn: u64, room: &str) -> Result<(), ErrorCode> {
    m.join("db", conn, room, None, user("a@b.com"), conn + 100, 0)
        .map(|_| ())
        .map_err(|e| e.code)
}

#[test]
fn join_then_snapshot_lists_the_member() {
    let mut m = mgr();
    m.join("db", 1, "room", None, user("a@b.com"), 9, 0).unwrap();
    let members = m.snapshot("db", "room");
    assert_eq!(members.len(), 1);
    assert_eq!(members[0].user.email.as_deref(), Some("a@b.com"));
    assert_eq!(members[0].connection_id, "1");
}

#[test]
fn update_state_changes_the_blob() {
    let mut m = mgr();
    join(&mut m, 1, "room").unwrap();
    m.update_state("db", 1, "room", obj("x", n(5)), None, 1).unwrap();
    assert_eq!(shown(&m.snapshot("db", "room")[0].state), shown(&obj("x", n(5))));
}

#[test]
fn update_state_when_not_joined_errors() {
    let mut m = mgr();
    let err = m.update_state("db", 1, "room", Json::Object(vec![]), None, 0).unwrap_err();
    assert_eq!(err.code, ErrorCode::BadRequest);
    assert_eq!(err.message, "not present in room");
}

#[test]
fn leave_removes_the_member() {
    let mut m = mgr();
    join(&mut m, 1, "room").unwrap();
    m.leave("db", 1, "room");
    assert!(m.snapshot("db", "room").is_empty());
}

#[test]
fn remove_conn_evicts_every_room_the_conn_was_in() {
    let mut m = mgr();
    join(&mut m, 1, "a").unwrap();
    join(&mut m, 1, "b").unwrap();
    join(&mut m, 2, "a").unwrap();
    m.remove_conn("db", 1);
    assert_eq!(m.snapshot("db", "a").len(), 1);
    assert!(m.snapshot("db", "b").is_empty());
}

#[test]
fn repeated_rejoin_does_not_inflate_rooms_per_conn_cap() {
    let mut c = cfg();
    c.max_rooms_per_conn = 4;
    let mut m = manager(c);
    join(&mut m, 1, "a").unwrap();
    for _ in 0..5 {
        join(&mut m, 1, "a").unwrap();
    }
    join(&mut m, 1, "b").unwrap();
    join(&mut m, 1, "c").unwrap();
    join(&mut m, 1, "d").unwrap();
    assert_eq!(join(&mut m, 1, "e").unwrap_err(), ErrorCode::Forbidden);
    assert!(m.snapshot("db", "e").is_empty());
}

#[test]
fn flush_once_sends_a_snapshot_to_each_member() {
    let mut m = mgr();
    m.join("db", 1, "room", Some(obj("x", n(1))), user("a@b.com"), 11, 0).unwrap();
    m.join("db", 2, "room", None, user("b@b.com"), 12, 0).unwrap();
    let out = m.flush_once();
    assert_eq!(out.len(), 1);
    assert_eq!(out[0].room, "room");
    assert_eq!(out[0].members.len(), 2);
    assert_eq!(out[0].channels, vec![11, 12]);
}

#[test]
fn flush_once_coalesces_multiple_updates_into_one_snapshot() {
    let mut m = mgr();
    join(&mut m, 1, "room").unwrap();
    join(&mut m, 2, "room").unwrap();
    for k in 1..=3 {
        m.update_state("db", 1, "room", obj("n", n(k)), None, k).unwrap();
    }
    let out = m.flush_once();
    assert_eq!(out.len(), 1, "expected exactly one snapshot");
    let mine = out[0].members.iter().find(|x| x.connection_id == "1").unwrap();
    assert_eq!(shown(&mine.state), shown(&obj("n", n(3))));
}

#[test]
fn flush_once_clears_the_dirty_set() {
    let mut m = mgr();
    join(&mut m, 1, "room").unwrap();
    m.flush_once();
    join(&mut m, 2, "room").unwrap();
    assert_eq!(m.flush_once()[0].channels, vec![101, 102]);
    assert!(m.flush_once().is_empty(), "dirty set was cleared; no further snapshot");
}

#[test]
fn oversize_state_is_rejected_bad_request() {
    let mut c = cfg();
    c.max_state_bytes = 8;
    let mut m = manager(c);
    let big = obj("big", Json::String("0123456789".into()));
    let err = m.join("db", 1, "room", Some(big), user("a@b.com"), 1, 0).unwrap_err();
    assert_eq!(err.code, ErrorCode::BadRequest);
    assert_eq!(err.message, "presence state too large");
}

#[test]
fn a_state_of_exactly_the_limit_fits() {
    let mut c = cfg();
    c.max_state_bytes = 7;
    let mut m = manager(c);
    // {"k":1} is seven bytes.
    assert!(m.join("db", 1, "r", Some(obj("k", n(1))), user("a"), 1, 0).is_ok());
    assert!(m.join("db", 2, "r", Some(obj("k", n(10))), user("a"), 1, 0).is_err());
}

#[test]
fn empty_room_name_is_rejected() {
    let mut m = mgr();
    assert_eq!(join(&mut m, 1, "").unwrap_err(), ErrorCode::BadRequest);
}

#[test]
fn room_names_are_limited_in_bytes() {
    let mut c = cfg();
    c.max_room_bytes = 4;
    let mut m = manager(c);
    join(&mut m, 1, "abcd").unwrap();
    join(&mut m, 1, "éé").unwrap();
    assert_eq!(join(&mut m, 1, "ééé").unwrap_err(), ErrorCode::BadRequest);
}

#[test]
fn room_full_is_rejected_forbidden() {
    let mut c = cfg();
    c.max_room_size = 1;
    let mut m = manager(c);
    join(&mut m, 1, "room").unwrap();
    assert_eq!(join(&mut m, 2, "room").unwrap_err(), ErrorCode::Forbidden);
}

#[test]
fn too_many_rooms_per_conn_is_rejected_forbidden() {
    let mut c = cfg();
    c.max_rooms_per_conn = 1;
    let mut m = manager(c);
    join(&mut m, 1, "a").unwrap();
    assert_eq!(join(&mut m, 1, "b").unwrap_err(), ErrorCode::Forbidden);
}

#[test]
fn presence_state_rate_limit_denies_after_cap() {
    let mut c = cfg();
    c.update_limit_per_sec = 2;
    let mut m = manager(c);
    join(&mut m, 1, "room").unwrap();
    assert!(m.update_state("db", 1, "room", obj("n", n(1)), None, 10).is_ok());
    assert!(m.update_state("db", 1, "room", obj("n", n(2)), None, 20).is_ok());
    let err = m.update_state("db", 1, "room", obj("n", n(3)), None, 30).unwrap_err();
    assert_eq!(err.code, ErrorCode::RateLimited);
    assert_eq!(err.retry_after, Some(1));
    assert_eq!(shown(&m.snapshot("db", "room")[0].state), shown(&obj("n", n(2))));
    assert!(m.update_state("db", 1, "room", obj("n", n(4)), None, 1010).is_ok());
}

#[test]
fn feature_disabled_rejects_join_forbidden() {
    let mut c = cfg();
    c.enabled = false;
    let mut m = manager(c);
    assert_eq!(join(&mut m, 1, "room").unwrap_err(), ErrorCode::Forbidden);
    let err = m.update_state("db", 1, "room", Json::Null, None, 0).unwrap_err();
    assert_eq!(err.message, "presence not enabled");
}

#[test]
fn update_state_arms_ttl_that_expires_to_null_not_remove() {
    let mut m = mgr();
    join(&mut m, 1, "room").unwrap();
    join(&mut m, 2, "room").unwrap();
    let typing = obj("typing", Json::Bool(true));
    m.update_state("db", 1, "room", typing.copy(), Some(60), 1_000).unwrap();
    let members = m.snapshot("db", "room");
    let conn1 = members.iter().find(|x| x.connection_id == "1").unwrap();
    assert_eq!(shown(&conn1.state), shown(&typing));
    assert_eq!(members.len(), 2);
    assert!(m.expire_once(1_059).cleared.is_empty());
    let swept = m.expire_once(1_080);
    assert_eq!(swept.cleared.len(), 1);
    assert_eq!(swept.cleared[0].conn, 1);
    assert_eq!(swept.cleared[0].room, "room");
    let members = m.snapshot("db", "room");
    let conn1 = members.iter().find(|x| x.connection_id == "1").unwrap();
    assert_eq!(shown(&conn1.state), shown(&Json::Null));
    assert_eq!(members.len(), 2, "expiry clears state, not membership");
    let out = m.flush_once();
    let conn1 = out[0].members.iter().find(|x| x.connection_id == "1").unwrap();
    assert_eq!(shown(&conn1.state), shown(&Json::Null));
    assert!(out[0].channels.contains(&102));
}

#[test]
fn omitted_ttl_is_permanent_and_does_not_expire() {
    let mut m = mgr();
    join(&mut m, 1, "room").unwrap();
    m.update_state("db", 1, "room", obj("x", n(1)), None, 0).unwrap();
    assert!(m.expire_once(i64::MAX).cleared.is_empty(), "no ttl armed -> nothing expires");
    assert_eq!(shown(&m.snapshot("db", "room")[0].state), shown(&obj("x", n(1))));
}

#[test]
fn ttl_refresh_re_arms_and_a_non_ttl_update_clears_it() {
    let mut m = mgr();
    join(&mut m, 1, "room").unwrap();
    m.update_state("db", 1, "room", obj("t", Json::Bool(true)), Some(200), 0).unwrap();
    m.update_state("db", 1, "room", obj("t", Json::Bool(false)), None, 1).unwrap();
    assert!(m.expire_once(220).cleared.is_empty(), "ttl was cleared by the non-ttl update");
    assert_eq!(
        shown(&m.snapshot("db", "room")[0].state),
        shown(&obj("t", Json::Bool(false)))
    );
}

#[test]
fn ttl_validation_rejects_zero_and_over_cap() {
    let mut m = mgr();
    join(&mut m, 1, "room").unwrap();
    let mut refused = |t: u64| {
        m.update_state("db", 1, "room", Json::Object(vec![]), Some(t), 0).unwrap_err()
    };
    assert_eq!(refused(0).code, ErrorCode::BadRequest);
    assert_eq!(refused(0).message, "ttl must be positive");
    assert_eq!(refused(300_001).code, ErrorCode::BadRequest);
    assert_eq!(refused(300_001).message, "ttl exceeds maximum");
}

#[test]
fn expire_once_with_nothing_expired_is_idle() {
    let mut m = mgr();
    join(&mut m, 1, "room").unwrap();
    assert!(m.expire_once(1_000).cleared.is_empty());
}

#[test]
fn limits_come_from_the_configuration() {
    let c = Config {
        presence_enabled: true,
        presence_max_state_bytes: 1,
        presence_max_room_size: 2,
        presence_max_rooms_per_conn: 3,
        presence_max_room_bytes: 4,
        presence_broadcast_interval_ms: 5,
        presence_update_limit_per_sec: 6,
        presence_max_ttl_ms: 7,
        presence_beat_interval_ms: 8,
        presence_beat_timeout_ms: 9,
    };
    let p = PresenceConfig::from_config(&c);
    assert!(p.enabled);
    assert_eq!(p.max_state_bytes, 1);
    assert_eq!(p.max_room_size, 2);
    assert_eq!(p.max_rooms_per_conn, 3);
    assert_eq!(p.max_room_bytes, 4);
    assert_eq!(p.broadcast_interval_ms, 5);
    assert_eq!(p.update_limit_per_sec, 6);
    assert_eq!(p.max_ttl_ms, 7);
    assert_eq!(p.beat_interval_ms, 8);
    assert_eq!(p.beat_timeout_ms, 9);
    assert_eq!(manager(p).config().max_room_size, 2);
}

#[test]
fn counts_span_databases() {
    let mut m = mgr();
    join(&mut m, 1, "a").unwrap();
    join(&mut m, 2, "a").unwrap();
    join(&mut m, 1, "b").unwrap();
    m.join("other", 1, "a", None, user("x"), 1, 0).unwrap();
    assert_eq!(m.counts(), (3, 4));
    m.drop_db("db");
    assert_eq!(m.counts(), (1, 1));
    assert!(m.flush_once().iter().all(|b| b.db == "other"));
}

fn member(id: &str) -> PresenceMember {
    PresenceMember { connection_id: id.into(), user: user("p"), state: Json::Null }
}

fn ids(v: &[PresenceMember]) -> Vec<String> {
    v.iter().map(|m| m.connection_id.clone()).collect()
}

#[test]
fn a_union_lists_local_members_first_and_peers_in_order() {
    let local = vec![member("9"), member("1"), member("9")];
    let peers = vec![
        PeerMembers { instance_id: "bb".into(), members: vec![member("1"), member("1")] },
        PeerMembers { instance_id: "aa".into(), members: vec![member("2"), member("1")] },
    ];
    assert_eq!(
        ids(&build_union(&local, &peers, 100)),
        vec!["9", "1", "aa:1", "aa:2", "bb:1"]
    );
    assert_eq!(ids(&build_union(&local, &peers, 3)), vec!["9", "1", "aa:1"]);
    assert_eq!(ids(&build_union(&local, &peers, 2)), vec!["9", "1"]);
}

#[test]
fn peers_are_ordered_by_instance_before_connection() {
    let peers = vec![
        PeerMembers { instance_id: "a!".into(), members: vec![member("1")] },
        PeerMembers { instance_id: "a".into(), members: vec![member("2"), member("1")] },
    ];
    assert_eq!(ids(&build_union(&vec![], &peers, 10)), vec!["a:1", "a:2", "a!:1"]);
}

#[test]
fn flushes_and_expiries_are_counted() {
    let mut metrics = Metrics::new();
    let mut m = mgr();
    join(&mut m, 1, "r").unwrap();
    join(&mut m, 2, "r").unwrap();
    join(&mut m, 1, "q").unwrap();
    let out = m.flush_once();
    tally_flush(&out, &mut metrics);
    assert_eq!(out.len(), 2);
    assert_eq!(metrics.presence_broadcasts_total(), 1);
    tally_flush(&m.flush_once(), &mut metrics);
    assert_eq!(metrics.presence_broadcasts_total(), 1);
    m.update_state("db", 1, "r", n(1), Some(10), 0).unwrap();
    let swept = m.expire_once(1_000);
    assert_eq!(swept.cleared.len(), 1);
    tally_expiries(&swept, &mut metrics);
    assert_eq!(metrics.presence_ttl_expiries_total(), 1);
    assert_eq!(metrics.presence_broadcasts_total(), 1);
}

#[test]
fn instances_exchange_their_rooms() {
    let mut a = PresenceManager::new(cfg(), true, "A".into());
    let mut b = PresenceManager::new(cfg(), true, "B".into());
    let told = a.join("db", 1, "room", None, user("a"), 7, 0).unwrap().unwrap();
    assert_eq!(told.instance_id, "A");
    assert_eq!(told.members.len(), 1);
    b.join("db", 1, "room", None, user("b"), 8, 0).unwrap();
    b.ingest_peer_snapshot("A", "db", "room", told.members, 1_000);
    let out = b.flush_once();
    assert_eq!(ids(&out[0].members), vec!["1", "A:1"]);
    assert_eq!(out[0].channels, vec![8]);
    b.expire_peers(16_000);
    assert!(b.flush_once().is_empty());
    b.expire_peers(16_001);
    assert_eq!(ids(&b.flush_once()[0].members), vec!["1"]);
    let gone = a.leave("db", 1, "room").unwrap();
    assert!(gone.members.is_empty());
    assert!(a.leave("db", 1, "room").is_none());
    assert_eq!(b.beat_all_rooms().len(), 1);
    assert!(a.beat_all_rooms().is_empty());
    assert!(mgr().join("db", 1, "r", None, user("x"), 1, 0).unwrap().is_none());
}

#[test]
fn a_new_report_replaces_the_old_one() {
    let mut b = PresenceManager::new(cfg(), true, "B".into());
    b.ingest_peer_snapshot("A", "db", "room", vec![member("1"), member("2")], 0);
    b.ingest_peer_snapshot("A", "db", "room", vec![member("3")], 1);
    b.ingest_peer_snapshot("C", "db", "room", vec![member("1")], 1);
    assert_eq!(ids(&b.room_members("db", "room")), vec!["A:3", "C:1"]);
    b.drop_db("db");
    assert!(b.room_members("db", "room").is_empty());
}

#[test]
fn sweeping_tells_of_each_room_once() {
    let mut a = PresenceManager::new(cfg(), true, "A".into());
    for conn in [1, 2] {
        for room in ["x", "y"] {
            a.join("db", conn, room, None, user("u"), conn, 0).unwrap();
            a.update_state("db", conn, room, Json::Bool(true), Some(5), 0).unwrap();
        }
    }
    let swept = a.expire_once(10);
    assert_eq!(swept.cleared.len(), 4);
    assert_eq!(
        swept.payloads.iter().map(|p| p.room.clone()).collect::<Vec<_>>(),
        vec!["x", "y"]
    );
    assert!(swept.payloads.iter().all(|p| p.members.len() == 2));
}

#[test]
fn the_flush_loop_sleeps_only_when_idle() {
    assert_eq!(pause_after(50, false, false), Pause::NextTick);
    assert_eq!(pause_after(0, true, false), Pause::Yield);
    assert_eq!(pause_after(0, false, true), Pause::Yield);
    assert_eq!(pause_after(0, false, false), Pause::Sleep(1));
}

#[test]
fn leaving_undoes_joining() {
    let mut m = mgr();
    join(&mut m, 1, "a").unwrap();
    let before = format!("{:?}", m.dbs);
    join(&mut m, 1, "b").unwrap();
    m.leave("db", 1, "b");
    assert_eq!(format!("{:?}", m.dbs), before);
}
