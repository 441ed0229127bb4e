//! Counters, latency windows and their export.
use rtdb::metrics::counters::{uptime_seconds, Metrics, MetricsSnapshot, QuotaKind, SkipClass};
use rtdb::metrics::latency::{LatencySamples, LatencyStats, LATENCY_BUF_CAP};
use rtdb::metrics::scrape::render_prometheus;

fn empty_snapshot() -> MetricsSnapshot {
    Metrics::default().snapshot(0, 0, 0, 0, 0, 0, 0)
}

#[test]
fn render_prometheus_includes_counters_gauges_and_build_info() {
    let snap = MetricsSnapshot {
        queries_total: 5,
        mutations_total: 3,
        uploads_total: 1,
        ws_connections: 2,
        active_subscriptions: 7,
        pool_size: 10,
        pool_idle: 4,
        uptime_seconds: 99,
        query_latency: LatencyStats::default(),
        mutate_latency: LatencyStats::default(),
        subscribe_latency: LatencyStats::default(),
        subs_reruns_total: 11,
        subs_skips_point_total: 12,
        subs_skips_indexed_total: 13,
        subs_skips_ordered_total: 14,
        subs_skip_verifications_total: 15,
        subs_missed_pushes_total: 0,
        ttl_expired_total: 0,
        image_transforms_hit_total: 0,
        image_transforms_miss_total: 0,
        image_transforms_error_total: 0,
        image_transform_bytes_total: 0,
        presence_updates_total: 0,
        presence_broadcasts_total: 0,
        presence_ttl_expiries_total: 0,
        presence_rooms: 0,
        presence_sessions: 0,
        per_db_subs: Vec::new(),
        quota_rejections_tables_total: 0,
        quota_rejections_storage_total: 0,
        quota_rejections_subs_total: 0,
        admin_auth_failures_total: 0,
        per_db_quota: Vec::new(),
    };
    let body = render_prometheus(&snap, "0.0.0", "abc");
    assert!(
        body.contains("# TYPE rtdb_queries_total counter"),
        "missing counter TYPE: {body}"
    );
    assert!(
        body.contains("# TYPE rtdb_ws_connections gauge"),
        "missing gauge TYPE: {body}"
    );
    assert!(
        body.contains("# TYPE rtdb_presence_rooms gauge"),
        "missing presence_rooms gauge TYPE: {body}"
    );
    assert!(
        body.contains("# TYPE rtdb_presence_sessions gauge"),
        "missing presence_sessions gauge TYPE: {body}"
    );
    assert!(
        body.contains("rtdb_build_info{version=\"0.0.0\",git_commit=\"abc\"} 1"),
        "missing build_info sample: {body}"
    );
}

#[test]
fn render_prometheus_includes_invalidation_counters_with_class_labels() {
    let snap = MetricsSnapshot {
        subs_reruns_total: 4,
        subs_skips_point_total: 1,
        subs_skips_indexed_total: 2,
        subs_skips_ordered_total: 3,
        subs_skip_verifications_total: 7,
        subs_missed_pushes_total: 9,
        ..empty_snapshot()
    };
    let body = render_prometheus(&snap, "0.0.0", "abc");
    assert!(body.contains("# TYPE rtdb_subs_skips_total counter"), "{body}");
    assert!(body.contains("rtdb_subs_skips_total{class=\"point\"} 1"), "{body}");
    assert!(body.contains("rtdb_subs_skips_total{class=\"indexed\"} 2"), "{body}");
    assert!(body.contains("rtdb_subs_skips_total{class=\"ordered\"} 3"), "{body}");
    assert!(body.contains("rtdb_subs_reruns_total 4"), "{body}");
    assert!(body.contains("rtdb_subs_skip_verifications_total 7"), "{body}");
    assert!(body.contains("rtdb_subs_missed_pushes_total 9"), "{body}");
}

#[test]
fn skip_and_verification_counters_land_in_the_snapshot() {
    let mut m = Metrics::default();
    m.record_subs_skip("db-a", SkipClass::Point);
    m.record_subs_skip("db-a", SkipClass::Indexed);
    m.record_subs_skip("db-b", SkipClass::Indexed);
    m.record_subs_skip("db-a", SkipClass::Ordered);
    m.record_subs_rerun("db-a");
    m.record_subs_skip_verification();
    m.record_subs_missed_push("db-b");
    assert_eq!(m.totals.subs_skips_point_total, 1);
    assert_eq!(m.totals.subs_skips_indexed_total, 2);
    assert_eq!(m.totals.subs_skips_ordered_total, 1);
    assert_eq!(m.totals.subs_reruns_total, 1);
    assert_eq!(m.totals.subs_skip_verifications_total, 1);
    assert_eq!(m.totals.subs_missed_pushes_total, 1);
    let rows = m.per_db_subs_snapshot();
    assert_eq!(rows.len(), 2, "two dbs recorded");
    assert_eq!(rows[0].db, "db-a");
    assert_eq!(rows[0].skips_point, 1);
    assert_eq!(rows[0].skips_indexed, 1);
    assert_eq!(rows[0].skips_ordered, 1);
    assert_eq!(rows[0].reruns, 1);
    assert_eq!(rows[0].missed, 0);
    assert_eq!(rows[1].db, "db-b");
    assert_eq!(rows[1].skips_indexed, 1);
    assert_eq!(rows[1].missed, 1);
    assert_eq!(
        rows.iter().map(|r| r.skips_indexed).sum::<u64>(),
        m.totals.subs_skips_indexed_total
    );
}

#[test]
fn quota_rejections_land_in_snapshot_and_prometheus() {
    let mut m = Metrics::default();
    m.record_quota_rejection("db-a", QuotaKind::Tables);
    m.record_quota_rejection("db-a", QuotaKind::Storage);
    m.record_quota_rejection("db-b", QuotaKind::Storage);
    m.record_quota_rejection("db-a", QuotaKind::Subs);
    assert_eq!(m.totals.quota_rejections_tables_total, 1);
    assert_eq!(m.totals.quota_rejections_storage_total, 2);
    assert_eq!(m.totals.quota_rejections_subs_total, 1);
    let rows = m.per_db_quota_snapshot();
    assert_eq!(rows.len(), 2, "two dbs recorded");
    assert_eq!(rows[0].db, "db-a");
    assert_eq!(rows[0].tables, 1);
    assert_eq!(rows[0].storage, 1);
    assert_eq!(rows[0].subs, 1);
    assert_eq!(rows[1].db, "db-b");
    assert_eq!(rows[1].storage, 1);
    assert_eq!(rows[1].tables, 0);
    assert_eq!(rows[1].subs, 0);
    assert_eq!(
        rows.iter().map(|r| r.storage).sum::<u64>(),
        m.totals.quota_rejections_storage_total
    );
    let snap = MetricsSnapshot {
        quota_rejections_tables_total: 1,
        quota_rejections_storage_total: 2,
        quota_rejections_subs_total: 3,
        ..empty_snapshot()
    };
    let body = render_prometheus(&snap, "0.0.0", "abc");
    assert!(body.contains("# TYPE rtdb_quota_rejections_total counter"), "{body}");
    assert!(body.contains("rtdb_quota_rejections_total{kind=\"tables\"} 1"), "{body}");
    assert!(body.contains("rtdb_quota_rejections_total{kind=\"storage\"} 2"), "{body}");
    assert!(body.contains("rtdb_quota_rejections_total{kind=\"subs\"} 3"), "{body}");
    assert!(!body.contains("db-a"), "per-db leaked into scrape: {body}");
    let recorded = render_prometheus(&m.snapshot(0, 0, 0, 0, 0, 0, 0), "0.0.0", "abc");
    assert!(!recorded.contains("db-a"), "per-db leaked into scrape: {recorded}");
}

#[test]
fn latency_samples_percentiles_nearest_rank() {
    let mut s = LatencySamples::default();
    for us in [100_u64, 200, 300, 400, 500, 600, 700, 800, 900, 1000] {
        s.record(us);
    }
    let p = s.percentiles();
    assert_eq!(p.p50, 500);
    assert_eq!(p.p95, 1000);
    assert_eq!(p.p99, 1000);
}

#[test]
fn latency_samples_empty_returns_zeros() {
    let s = LatencySamples::default();
    let p = s.percentiles();
    assert_eq!(p, LatencyStats::default());
    assert_eq!((p.p50, p.p95, p.p99), (0, 0, 0));
}

#[test]
fn latency_samples_ring_overwrite_evicts_oldest() {
    let mut s = LatencySamples::default();
    for us in 1..=1024_u64 {
        s.record(us);
    }
    assert_eq!(s.len, LATENCY_BUF_CAP);
    assert_eq!(s.buf.len(), LATENCY_BUF_CAP);
    assert_eq!(s.next, 0, "next wraps to 0 once the buffer is exactly full");

    s.record(9999);
    assert_eq!(s.len, LATENCY_BUF_CAP, "len stays capped after overwrite");
    assert_eq!(s.buf.len(), LATENCY_BUF_CAP, "buffer must not grow past cap");
    assert_eq!(s.buf[0], 9999, "overwrite lands at position 0 (FIFO)");
    assert_eq!(s.next, 1, "next advances past the overwritten slot");
    assert!(!s.buf.contains(&1_u64), "value 1 (oldest) must be evicted");
    assert!(s.buf.contains(&9999_u64), "new sample must be present");

    s.record(8888);
    assert_eq!(s.buf[1], 8888, "second overwrite advances to position 1");
    assert_eq!(s.next, 2);
    assert!(!s.buf.contains(&2_u64), "value 2 must be evicted");

    let p = s.percentiles();
    assert!(p.p50 <= p.p95);
    assert!(p.p95 <= p.p99);
}

#[test]
fn latency_samples_single_sample_is_all_percentiles() {
    let mut s = LatencySamples::default();
    s.record(4242);
    let p = s.percentiles();
    assert_eq!((p.p50, p.p95, p.p99), (4242, 4242, 4242));
}

#[test]
fn presence_counters_record() {
    let mut m = Metrics::default();
    m.record_presence_update();
    m.record_presence_update();
    m.record_presence_broadcast();
    m.record_presence_ttl_expiry();
    assert_eq!(m.presence_updates_total(), 2);
    assert_eq!(m.presence_broadcasts_total(), 1);
    assert_eq!(m.presence_ttl_expiries_total(), 1);
}

#[test]
fn percentile_ranks_agree_with_the_rounded_up_share_of_the_samples() {
    let mut s = LatencySamples::default();
    for n in 1..=1024_u64 {
        s.record(n);
        let p = s.percentiles();
        let at = |share: f64| -> u64 { ((share * n as f64).ceil() as u64).max(1).min(n) };
        assert_eq!((p.p50, p.p95, p.p99), (at(0.5), at(0.95), at(0.99)), "n = {n}");
    }
}

#[test]
fn every_counter_has_its_own_recorder() {
    let mut m = Metrics::new();
    m.record_query();
    m.record_mutation();
    m.record_mutation();
    m.record_upload();
    m.record_image_transform_hit();
    m.record_image_transform_miss(40);
    m.record_image_transform_miss(2);
    m.record_image_transform_error();
    m.record_admin_auth_failure();
    m.record_ttl_expired();
    m.ws_connect();
    m.ws_connect();
    m.ws_disconnect();
    m.record_query_duration(10);
    m.record_mutation_duration(20);
    m.record_subscribe_duration(30);
    let s = m.snapshot(7, 10, 4, 1_500_000_000, 100_999_999_999, 2, 3);
    assert_eq!(s.queries_total, 1);
    assert_eq!(s.mutations_total, 2);
    assert_eq!(s.uploads_total, 1);
    assert_eq!(s.image_transforms_hit_total, 1);
    assert_eq!(s.image_transforms_miss_total, 2);
    assert_eq!(s.image_transform_bytes_total, 42);
    assert_eq!(s.image_transforms_error_total, 1);
    assert_eq!(s.admin_auth_failures_total, 1);
    assert_eq!(s.ttl_expired_total, 1);
    assert_eq!(s.ws_connections, 1);
    assert_eq!(s.query_latency.p50, 10);
    assert_eq!(s.mutate_latency.p95, 20);
    assert_eq!(s.subscribe_latency.p99, 30);
    assert_eq!(s.active_subscriptions, 7);
    assert_eq!((s.pool_size, s.pool_idle), (10, 4));
    assert_eq!(s.uptime_seconds, 99);
    assert_eq!((s.presence_rooms, s.presence_sessions), (2, 3));
    let body = render_prometheus(&s, "1.2.3", "deadbeef");
    assert!(body.starts_with(
        "# HELP rtdb_queries_total Total query requests served (HTTP /api/query + WS).\n# TYPE rtdb_queries_total counter\nrtdb_queries_total 1\n"
    ));
    assert!(body.ends_with("rtdb_build_info{version=\"1.2.3\",git_commit=\"deadbeef\"} 1\n"));
    assert!(body.contains("changed — invalidation under-approximated. ALERT ON ANY INCREASE.\n"));
}

#[test]
fn a_connection_gauge_may_go_below_zero() {
    let mut m = Metrics::new();
    m.ws_disconnect();
    assert_eq!(m.totals.ws_connections, -1);
    let body = render_prometheus(&m.snapshot(0, 0, 0, 0, 0, 0, 0), "v", "c");
    assert!(body.contains("\nrtdb_ws_connections -1\n"));
}

#[test]
fn uptime_is_in_whole_seconds() {
    assert_eq!(uptime_seconds(0, 0), 0);
    assert_eq!(uptime_seconds(5, 1_000_000_004), 0);
    assert_eq!(uptime_seconds(5, 1_000_000_005), 1);
    assert_eq!(uptime_seconds(0, 99_999_999_999), 99);
    // A start in the future.
    assert_eq!(uptime_seconds(9_000_000_000, 1), 0);
    assert_eq!(Metrics::new().snapshot(0, 0, 0, 9_000_000_000, 1, 0, 0).uptime_seconds, 0);
}

#[test]
fn rows_of_databases_add_up_to_the_totals() {
    let mut m = Metrics::new();
    for i in 0..20_u32 {
        let db = format!("db{}", i % 3);
        match i % 5 {
            0 => m.record_subs_rerun(&db),
            1 => m.record_subs_skip(&db, SkipClass::Point),
            2 => m.record_subs_skip(&db, SkipClass::Ordered),
            3 => m.record_subs_missed_push(&db),
            _ => m.record_quota_rejection(&db, QuotaKind::Tables),
        }
        m.record_query();
    }
    let subs = m.per_db_subs_snapshot();
    assert_eq!(subs.iter().map(|r| r.reruns).sum::<u64>(), m.totals.subs_reruns_total);
    assert_eq!(subs.iter().map(|r| r.skips_point).sum::<u64>(), m.totals.subs_skips_point_total);
    assert_eq!(subs.iter().map(|r| r.skips_ordered).sum::<u64>(), m.totals.subs_skips_ordered_total);
    assert_eq!(subs.iter().map(|r| r.missed).sum::<u64>(), m.totals.subs_missed_pushes_total);
    assert_eq!(m.totals.subs_reruns_total, 4);
    let quota = m.per_db_quota_snapshot();
    assert_eq!(quota.iter().map(|r| r.tables).sum::<u64>(), 4);
    assert_eq!(m.totals.quota_rejections_tables_total, 4);
}
