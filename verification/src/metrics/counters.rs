//! Counters of what the server did, with breakdowns per database.
#[allow(unused_imports)]
use vstd::prelude::*;
#[allow(unused_imports)]
use vstd::string::*;

use crate::metrics::latency;
use crate::metrics::latency::{LatencySamples, LatencyStats};
use crate::strmap;
use crate::strmap::StrMap;

verus! {

/// The class of read set that proved a re-run needless.
#[derive(Debug, Clone, Copy, PartialEq, Eq, Structural)]
pub enum SkipClass {
    Point,
    Indexed,
    Ordered,
}

/// The quota that a request was over.
#[derive(Debug, Clone, Copy, PartialEq, Eq, Structural)]
pub enum QuotaKind {
    Tables,
    Storage,
    Subs,
}

/// Invalidation counters of one database.
#[derive(Debug, Clone, Copy, PartialEq, Eq, Structural)]
pub struct DbSubCounters {
    pub reruns: u64,
    pub skips_point: u64,
    pub skips_indexed: u64,
    pub skips_ordered: u64,
    pub missed: u64,
}

impl View for DbSubCounters {
    type V = DbSubCounters;

    open spec fn view(&self) -> DbSubCounters {
        *self
    }
}

/// Quota rejections of one database.
#[derive(Debug, Clone, Copy, PartialEq, Eq, Structural)]
pub struct QuotaCounters {
    pub tables: u64,
    pub storage: u64,
    pub subs: u64,
}

impl View for QuotaCounters {
    type V = QuotaCounters;

    open spec fn view(&self) -> QuotaCounters {
        *self
    }
}

/// Invalidation counters of a named database.
#[derive(Debug, Clone)]
pub struct DbSubCounterRow {
    pub db: String,
    pub reruns: u64,
    pub skips_point: u64,
    pub skips_indexed: u64,
    pub skips_ordered: u64,
    pub missed: u64,
}

/// The mathematical form of a row: the database and its counters.
impl View for DbSubCounterRow {
    type V = (Seq<char>, DbSubCounters);

    open spec fn view(&self) -> (Seq<char>, DbSubCounters) {
        (
            self.db@,
            DbSubCounters {
                reruns: self.reruns,
                skips_point: self.skips_point,
                skips_indexed: self.skips_indexed,
                skips_ordered: self.skips_ordered,
                missed: self.missed,
            },
        )
    }
}

/// Quota rejections of a named database.
#[derive(Debug, Clone)]
pub struct DbQuotaCounterRow {
    pub db: String,
    pub tables: u64,
    pub storage: u64,
    pub subs: u64,
}

/// The mathematical form of a row: the database and its counters.
impl View for DbQuotaCounterRow {
    type V = (Seq<char>, QuotaCounters);

    open spec fn view(&self) -> (Seq<char>, QuotaCounters) {
        (
            self.db@,
            QuotaCounters { tables: self.tables, storage: self.storage, subs: self.subs },
        )
    }
}

/// The counters over all databases.
#[derive(Debug, Clone, Copy, PartialEq, Eq, Structural)]
pub struct Totals {
    pub queries_total: u64,
    pub mutations_total: u64,
    pub uploads_total: u64,
    pub image_transforms_hit_total: u64,
    pub image_transforms_miss_total: u64,
    pub image_transforms_error_total: u64,
    pub image_transform_bytes_total: u64,
    pub presence_updates_total: u64,
    pub presence_broadcasts_total: u64,
    pub presence_ttl_expiries_total: u64,
    pub subs_reruns_total: u64,
    pub subs_skips_point_total: u64,
    pub subs_skips_indexed_total: u64,
    pub subs_skips_ordered_total: u64,
    pub subs_skip_verifications_total: u64,
    pub subs_missed_pushes_total: u64,
    pub ttl_expired_total: u64,
    pub quota_rejections_tables_total: u64,
    pub quota_rejections_storage_total: u64,
    pub quota_rejections_subs_total: u64,
    pub admin_auth_failures_total: u64,
    pub ws_connections: i64,
}

/// The metrics of a server process.
#[derive(Debug)]
pub struct Metrics {
    pub totals: Totals,
    pub query_latency: LatencySamples,
    pub mutate_latency: LatencySamples,
    pub subscribe_latency: LatencySamples,
    pub per_db_subs: StrMap<DbSubCounters>,
    pub per_db_quota: StrMap<QuotaCounters>,
}

/// The mathematical form of the metrics.
pub struct MetricsV {
    pub totals: Totals,
    pub query_latency: Seq<u64>,
    pub mutate_latency: Seq<u64>,
    pub subscribe_latency: Seq<u64>,
    pub per_db_subs: Map<Seq<char>, DbSubCounters>,
    pub per_db_quota: Map<Seq<char>, QuotaCounters>,
}

impl View for Metrics {
    type V = MetricsV;

    open spec fn view(&self) -> MetricsV {
        MetricsV {
            totals: self.totals,
            query_latency: self.query_latency@,
            mutate_latency: self.mutate_latency@,
            subscribe_latency: self.subscribe_latency@,
            per_db_subs: self.per_db_subs@,
            per_db_quota: self.per_db_quota@,
        }
    }
}

/// All counters at zero.
pub open spec fn no_totals() -> Totals {
    Totals {
        queries_total: 0,
        mutations_total: 0,
        uploads_total: 0,
        image_transforms_hit_total: 0,
        image_transforms_miss_total: 0,
        image_transforms_error_total: 0,
        image_transform_bytes_total: 0,
        presence_updates_total: 0,
        presence_broadcasts_total: 0,
        presence_ttl_expiries_total: 0,
        subs_reruns_total: 0,
        subs_skips_point_total: 0,
        subs_skips_indexed_total: 0,
        subs_skips_ordered_total: 0,
        subs_skip_verifications_total: 0,
        subs_missed_pushes_total: 0,
        ttl_expired_total: 0,
        quota_rejections_tables_total: 0,
        quota_rejections_storage_total: 0,
        quota_rejections_subs_total: 0,
        admin_auth_failures_total: 0,
        ws_connections: 0,
    }
}

/// The metrics of a process that has done nothing.
pub open spec fn no_metrics() -> MetricsV {
    MetricsV {
        totals: no_totals(),
        query_latency: Seq::empty(),
        mutate_latency: Seq::empty(),
        subscribe_latency: Seq::empty(),
        per_db_subs: Map::empty(),
        per_db_quota: Map::empty(),
    }
}

/// A counter after an increment; it wraps at the end of its range.
pub open spec fn raised(n: u64, by: u64) -> u64 {
    if n + by <= u64::MAX {
        (n + by) as u64
    } else {
        (n + by - 0x1_0000_0000_0000_0000) as u64
    }
}

fn raise(n: u64, by: u64) -> (r: u64)
    ensures
        r == raised(n, by),
{
    n.wrapping_add(by)
}

/// A gauge after a change by one; it wraps at the ends of its range.
pub open spec fn shifted(n: i64, by: int) -> i64 {
    if n + by > i64::MAX {
        (n + by - 0x1_0000_0000_0000_0000) as i64
    } else if n + by < i64::MIN {
        (n + by + 0x1_0000_0000_0000_0000) as i64
    } else {
        (n + by) as i64
    }
}

/// The invalidation counters of a database; zeros where it has none yet.
pub open spec fn subs_of(m: Map<Seq<char>, DbSubCounters>, db: Seq<char>) -> DbSubCounters {
    if m.contains_key(db) {
        m[db]
    } else {
        DbSubCounters { reruns: 0, skips_point: 0, skips_indexed: 0, skips_ordered: 0, missed: 0 }
    }
}

/// The quota rejections of a database; zeros where it has none yet.
pub open spec fn quota_of(m: Map<Seq<char>, QuotaCounters>, db: Seq<char>) -> QuotaCounters {
    if m.contains_key(db) {
        m[db]
    } else {
        QuotaCounters { tables: 0, storage: 0, subs: 0 }
    }
}

/// The metrics after a subscription of a database was re-run.
pub open spec fn after_rerun(m: MetricsV, db: Seq<char>) -> MetricsV {
    let c = subs_of(m.per_db_subs, db);
    MetricsV {
        totals: Totals {
            subs_reruns_total: raised(m.totals.subs_reruns_total, 1),
            ..m.totals
        },
        per_db_subs: m.per_db_subs.insert(db, DbSubCounters { reruns: raised(c.reruns, 1), ..c }),
        ..m
    }
}

/// The metrics after a re-run of a database was skipped.
pub open spec fn after_skip(m: MetricsV, db: Seq<char>, class: SkipClass) -> MetricsV {
    let c = subs_of(m.per_db_subs, db);
    let t = m.totals;
    MetricsV {
        totals: match class {
            SkipClass::Point => Totals {
                subs_skips_point_total: raised(t.subs_skips_point_total, 1),
                ..t
            },
            SkipClass::Indexed => Totals {
                subs_skips_indexed_total: raised(t.subs_skips_indexed_total, 1),
                ..t
            },
            SkipClass::Ordered => Totals {
                subs_skips_ordered_total: raised(t.subs_skips_ordered_total, 1),
                ..t
            },
        },
        per_db_subs: m.per_db_subs.insert(
            db,
            match class {
                SkipClass::Point => DbSubCounters { skips_point: raised(c.skips_point, 1), ..c },
                SkipClass::Indexed => DbSubCounters {
                    skips_indexed: raised(c.skips_indexed, 1),
                    ..c
                },
                SkipClass::Ordered => DbSubCounters {
                    skips_ordered: raised(c.skips_ordered, 1),
                    ..c
                },
            },
        ),
        ..m
    }
}

/// The metrics after a skip turned out wrong.
pub open spec fn after_missed(m: MetricsV, db: Seq<char>) -> MetricsV {
    let c = subs_of(m.per_db_subs, db);
    MetricsV {
        totals: Totals {
            subs_missed_pushes_total: raised(m.totals.subs_missed_pushes_total, 1),
            ..m.totals
        },
        per_db_subs: m.per_db_subs.insert(db, DbSubCounters { missed: raised(c.missed, 1), ..c }),
        ..m
    }
}

/// The metrics after a request of a database was over a quota.
pub open spec fn after_rejection(m: MetricsV, db: Seq<char>, kind: QuotaKind) -> MetricsV {
    let c = quota_of(m.per_db_quota, db);
    let t = m.totals;
    MetricsV {
        totals: match kind {
            QuotaKind::Tables => Totals {
                quota_rejections_tables_total: raised(t.quota_rejections_tables_total, 1),
                ..t
            },
            QuotaKind::Storage => Totals {
                quota_rejections_storage_total: raised(t.quota_rejections_storage_total, 1),
                ..t
            },
            QuotaKind::Subs => Totals {
                quota_rejections_subs_total: raised(t.quota_rejections_subs_total, 1),
                ..t
            },
        },
        per_db_quota: m.per_db_quota.insert(
            db,
            match kind {
                QuotaKind::Tables => QuotaCounters { tables: raised(c.tables, 1), ..c },
                QuotaKind::Storage => QuotaCounters { storage: raised(c.storage, 1), ..c },
                QuotaKind::Subs => QuotaCounters { subs: raised(c.subs, 1), ..c },
            },
        ),
        ..m
    }
}

/// The views of rows of invalidation counters.
pub open spec fn sub_rows(v: Seq<DbSubCounterRow>) -> Seq<(Seq<char>, DbSubCounters)> {
    Seq::new(v.len(), |i: int| v[i]@)
}

/// The views of rows of quota rejections.
pub open spec fn quota_rows(v: Seq<DbQuotaCounterRow>) -> Seq<(Seq<char>, QuotaCounters)> {
    Seq::new(v.len(), |i: int| v[i]@)
}

/// The rows are the entries of the map, one each, by ascending name.
pub open spec fn lists<V>(rows: Seq<(Seq<char>, V)>, m: Map<Seq<char>, V>) -> bool {
    &&& forall|i: int, j: int|
        0 <= i < j < rows.len() ==> crate::text::chars_lt(
            (#[trigger] rows[i]).0,
            (#[trigger] rows[j]).0,
        )
    &&& forall|i: int|
        0 <= i < rows.len() ==> m.contains_key((#[trigger] rows[i]).0) && m[rows[i].0] == rows[i].1
    &&& forall|k: Seq<char>| #[trigger]
        m.contains_key(k) ==> exists|i: int| 0 <= i < rows.len() && (#[trigger] rows[i]).0 == k
}

/// The nanoseconds of a second.
pub const SECOND_NS: u64 = 1_000_000_000;

/// The whole seconds since the start; none have passed where the start is in the
/// future.
pub open spec fn uptime(started_ns: u64, now_ns: u64) -> u64 {
    if now_ns < started_ns {
        0
    } else {
        ((now_ns - started_ns) / SECOND_NS as int) as u64
    }
}

/// The whole seconds since the start, in times in nanoseconds since the epoch.
pub fn uptime_seconds(started_ns: u64, now_ns: u64) -> (s: u64)
    ensures
        s == uptime(started_ns, now_ns),
{
    if now_ns < started_ns {
        0
    } else {
        (now_ns - started_ns) / SECOND_NS
    }
}

/// A reading of all the metrics.
#[derive(Debug)]
pub struct MetricsSnapshot {
    pub queries_total: u64,
    pub mutations_total: u64,
    pub uploads_total: u64,
    pub image_transforms_hit_total: u64,
    pub image_transforms_miss_total: u64,
    pub image_transforms_error_total: u64,
    pub image_transform_bytes_total: u64,
    pub presence_updates_total: u64,
    pub presence_broadcasts_total: u64,
    pub presence_ttl_expiries_total: u64,
    pub subs_reruns_total: u64,
    pub subs_skips_point_total: u64,
    pub subs_skips_indexed_total: u64,
    pub subs_skips_ordered_total: u64,
    pub subs_skip_verifications_total: u64,
    pub subs_missed_pushes_total: u64,
    pub ttl_expired_total: u64,
    pub quota_rejections_tables_total: u64,
    pub quota_rejections_storage_total: u64,
    pub quota_rejections_subs_total: u64,
    pub admin_auth_failures_total: u64,
    pub ws_connections: i64,
    pub active_subscriptions: usize,
    pub pool_size: i64,
    pub pool_idle: i64,
    pub uptime_seconds: u64,
    pub query_latency: LatencyStats,
    pub mutate_latency: LatencyStats,
    pub subscribe_latency: LatencyStats,
    pub presence_rooms: usize,
    pub presence_sessions: usize,
    pub per_db_subs: Vec<DbSubCounterRow>,
    pub per_db_quota: Vec<DbQuotaCounterRow>,
}

impl Metrics {
    /// The latency windows are in order.
    pub open spec fn wf(&self) -> bool {
        self.query_latency.wf() && self.mutate_latency.wf() && self.subscribe_latency.wf()
    }

    /// Metrics of a process that has done nothing.
    pub fn new() -> (m: Metrics)
        ensures
            m.wf(),
            m@ == no_metrics(),
    {
        Metrics {
            totals: Totals {
                queries_total: 0,
                mutations_total: 0,
                uploads_total: 0,
                image_transforms_hit_total: 0,
                image_transforms_miss_total: 0,
                image_transforms_error_total: 0,
                image_transform_bytes_total: 0,
                presence_updates_total: 0,
                presence_broadcasts_total: 0,
                presence_ttl_expiries_total: 0,
                subs_reruns_total: 0,
                subs_skips_point_total: 0,
                subs_skips_indexed_total: 0,
                subs_skips_ordered_total: 0,
                subs_skip_verifications_total: 0,
                subs_missed_pushes_total: 0,
                ttl_expired_total: 0,
                quota_rejections_tables_total: 0,
                quota_rejections_storage_total: 0,
                quota_rejections_subs_total: 0,
                admin_auth_failures_total: 0,
                ws_connections: 0,
            },
            query_latency: LatencySamples::default(),
            mutate_latency: LatencySamples::default(),
            subscribe_latency: LatencySamples::default(),
            per_db_subs: StrMap::new(),
            per_db_quota: StrMap::new(),
        }
    }

    /// Counts a query.
    pub fn record_query(&mut self)
        ensures
            old(self).wf() ==> final(self).wf(),
            final(self)@ == (MetricsV {
                totals: (Totals {
                    queries_total: raised(old(self)@.totals.queries_total, 1),
                    ..old(self)@.totals
                }),
                ..old(self)@
            }),
    {
        self.totals.queries_total = raise(self.totals.queries_total, 1);
    }

    /// Counts a mutation.
    pub fn record_mutation(&mut self)
        ensures
            old(self).wf() ==> final(self).wf(),
            final(self)@ == (MetricsV {
                totals: (Totals {
                    mutations_total: raised(old(self)@.totals.mutations_total, 1),
                    ..old(self)@.totals
                }),
                ..old(self)@
            }),
    {
        self.totals.mutations_total = raise(self.totals.mutations_total, 1);
    }

    /// Counts an upload.
    pub fn record_upload(&mut self)
        ensures
            old(self).wf() ==> final(self).wf(),
            final(self)@ == (MetricsV {
                totals: (Totals {
                    uploads_total: raised(old(self)@.totals.uploads_total, 1),
                    ..old(self)@.totals
                }),
                ..old(self)@
            }),
    {
        self.totals.uploads_total = raise(self.totals.uploads_total, 1);
    }

    /// Counts an image transform served from the cache.
    pub fn record_image_transform_hit(&mut self)
        ensures
            old(self).wf() ==> final(self).wf(),
            final(self)@ == (MetricsV {
                totals: (Totals {
                    image_transforms_hit_total: raised(old(self)@.totals.image_transforms_hit_total, 1),
                    ..old(self)@.totals
                }),
                ..old(self)@
            }),
    {
        self.totals.image_transforms_hit_total = raise(self.totals.image_transforms_hit_total, 1);
    }

    /// Counts an image transform that failed.
    pub fn record_image_transform_error(&mut self)
        ensures
            old(self).wf() ==> final(self).wf(),
            final(self)@ == (MetricsV {
                totals: (Totals {
                    image_transforms_error_total: raised(old(self)@.totals.image_transforms_error_total, 1),
                    ..old(self)@.totals
                }),
                ..old(self)@
            }),
    {
        self.totals.image_transforms_error_total = raise(self.totals.image_transforms_error_total, 1);
    }

    /// Counts a failed login with the admin key.
    pub fn record_admin_auth_failure(&mut self)
        ensures
            old(self).wf() ==> final(self).wf(),
            final(self)@ == (MetricsV {
                totals: (Totals {
                    admin_auth_failures_total: raised(old(self)@.totals.admin_auth_failures_total, 1),
                    ..old(self)@.totals
                }),
                ..old(self)@
            }),
    {
        self.totals.admin_auth_failures_total = raise(self.totals.admin_auth_failures_total, 1);
    }

    /// Counts an inbound presence update.
    pub fn record_presence_update(&mut self)
        ensures
            old(self).wf() ==> final(self).wf(),
            final(self)@ == (MetricsV {
                totals: (Totals {
                    presence_updates_total: raised(old(self)@.totals.presence_updates_total, 1),
                    ..old(self)@.totals
                }),
                ..old(self)@
            }),
    {
        self.totals.presence_updates_total = raise(self.totals.presence_updates_total, 1);
    }

    /// Counts a flush that broadcast presence states.
    pub fn record_presence_broadcast(&mut self)
        ensures
            old(self).wf() ==> final(self).wf(),
            final(self)@ == (MetricsV {
                totals: (Totals {
                    presence_broadcasts_total: raised(old(self)@.totals.presence_broadcasts_total, 1),
                    ..old(self)@.totals
                }),
                ..old(self)@
            }),
    {
        self.totals.presence_broadcasts_total = raise(self.totals.presence_broadcasts_total, 1);
    }

    /// Counts a presence state that expired.
    pub fn record_presence_ttl_expiry(&mut self)
        ensures
            old(self).wf() ==> final(self).wf(),
            final(self)@ == (MetricsV {
                totals: (Totals {
                    presence_ttl_expiries_total: raised(old(self)@.totals.presence_ttl_expiries_total, 1),
                    ..old(self)@.totals
                }),
                ..old(self)@
            }),
    {
        self.totals.presence_ttl_expiries_total = raise(self.totals.presence_ttl_expiries_total, 1);
    }

    /// Counts a skipped re-run that was verified, whatever the outcome.
    pub fn record_subs_skip_verification(&mut self)
        ensures
            old(self).wf() ==> final(self).wf(),
            final(self)@ == (MetricsV {
                totals: (Totals {
                    subs_skip_verifications_total: raised(old(self)@.totals.subs_skip_verifications_total, 1),
                    ..old(self)@.totals
                }),
                ..old(self)@
            }),
    {
        self.totals.subs_skip_verifications_total = raise(self.totals.subs_skip_verifications_total, 1);
    }

    /// Counts an expired document that was deleted.
    pub fn record_ttl_expired(&mut self)
        ensures
            old(self).wf() ==> final(self).wf(),
            final(self)@ == (MetricsV {
                totals: (Totals {
                    ttl_expired_total: raised(old(self)@.totals.ttl_expired_total, 1),
                    ..old(self)@.totals
                }),
                ..old(self)@
            }),
    {
        self.totals.ttl_expired_total = raise(self.totals.ttl_expired_total, 1);
    }

    /// Counts an image transform that was computed, and what it emitted.
    pub fn record_image_transform_miss(&mut self, out_bytes: u64)
        ensures
            old(self).wf() ==> final(self).wf(),
            final(self)@ == (MetricsV {
                totals: (Totals {
                    image_transforms_miss_total: raised(
                        old(self)@.totals.image_transforms_miss_total,
                        1,
                    ),
                    image_transform_bytes_total: raised(
                        old(self)@.totals.image_transform_bytes_total,
                        out_bytes,
                    ),
                    ..old(self)@.totals
                }),
                ..old(self)@
            }),
    {
        self.totals.image_transforms_miss_total = raise(
            self.totals.image_transforms_miss_total,
            1,
        );
        self.totals.image_transform_bytes_total = raise(
            self.totals.image_transform_bytes_total,
            out_bytes,
        );
    }

    /// How many presence updates came in.
    pub fn presence_updates_total(&self) -> (n: u64)
        ensures
            n == self@.totals.presence_updates_total,
    {
        self.totals.presence_updates_total
    }

    /// How many flushes broadcast presence states.
    pub fn presence_broadcasts_total(&self) -> (n: u64)
        ensures
            n == self@.totals.presence_broadcasts_total,
    {
        self.totals.presence_broadcasts_total
    }

    /// How many presence states expired.
    pub fn presence_ttl_expiries_total(&self) -> (n: u64)
        ensures
            n == self@.totals.presence_ttl_expiries_total,
    {
        self.totals.presence_ttl_expiries_total
    }

    /// Counts a connection that opened.
    pub fn ws_connect(&mut self)
        ensures
            old(self).wf() ==> final(self).wf(),
            final(self)@ == (MetricsV {
                totals: (Totals {
                    ws_connections: shifted(old(self)@.totals.ws_connections, 1),
                    ..old(self)@.totals
                }),
                ..old(self)@
            }),
    {
        self.totals.ws_connections = self.totals.ws_connections.wrapping_add(1);
    }

    /// Counts a connection that closed.
    pub fn ws_disconnect(&mut self)
        ensures
            old(self).wf() ==> final(self).wf(),
            final(self)@ == (MetricsV {
                totals: (Totals {
                    ws_connections: shifted(old(self)@.totals.ws_connections, -1),
                    ..old(self)@.totals
                }),
                ..old(self)@
            }),
    {
        self.totals.ws_connections = self.totals.ws_connections.wrapping_sub(1);
    }

    /// Adds the duration of a query, in microseconds.
    pub fn record_query_duration(&mut self, us: u64)
        requires
            old(self).wf(),
        ensures
            final(self).wf(),
            final(self)@ == (MetricsV {
                query_latency: latency::recorded(old(self)@.query_latency, us),
                ..old(self)@
            }),
    {
        self.query_latency.record(us);
    }

    /// Adds the duration of a mutation, in microseconds.
    pub fn record_mutation_duration(&mut self, us: u64)
        requires
            old(self).wf(),
        ensures
            final(self).wf(),
            final(self)@ == (MetricsV {
                mutate_latency: latency::recorded(old(self)@.mutate_latency, us),
                ..old(self)@
            }),
    {
        self.mutate_latency.record(us);
    }

    /// Adds the duration of a subscription's first query, in microseconds.
    pub fn record_subscribe_duration(&mut self, us: u64)
        requires
            old(self).wf(),
        ensures
            final(self).wf(),
            final(self)@ == (MetricsV {
                subscribe_latency: latency::recorded(old(self)@.subscribe_latency, us),
                ..old(self)@
            }),
    {
        self.subscribe_latency.record(us);
    }

    fn db_subs(&self, db: &str) -> (c: DbSubCounters)
        ensures
            c == subs_of(self@.per_db_subs, db@),
    {
        match self.per_db_subs.get(db) {
            Some(c) => *c,
            None => DbSubCounters {
                reruns: 0,
                skips_point: 0,
                skips_indexed: 0,
                skips_ordered: 0,
                missed: 0,
            },
        }
    }

    /// Counts a re-run of a subscription, for all and for its database.
    pub fn record_subs_rerun(&mut self, db: &str)
        ensures
            old(self).wf() ==> final(self).wf(),
            final(self)@ == after_rerun(old(self)@, db@),
    {
        let mut c = self.db_subs(db);
        c.reruns = raise(c.reruns, 1);
        self.totals.subs_reruns_total = raise(self.totals.subs_reruns_total, 1);
        self.per_db_subs.insert(db.to_owned(), c);
    }

    /// Counts a skipped re-run by its class, for all and for its database.
    pub fn record_subs_skip(&mut self, db: &str, class: SkipClass)
        ensures
            old(self).wf() ==> final(self).wf(),
            final(self)@ == after_skip(old(self)@, db@, class),
    {
        let mut c = self.db_subs(db);
        match class {
            SkipClass::Point => {
                self.totals.subs_skips_point_total = raise(self.totals.subs_skips_point_total, 1);
                c.skips_point = raise(c.skips_point, 1);
            },
            SkipClass::Indexed => {
                self.totals.subs_skips_indexed_total = raise(
                    self.totals.subs_skips_indexed_total,
                    1,
                );
                c.skips_indexed = raise(c.skips_indexed, 1);
            },
            SkipClass::Ordered => {
                self.totals.subs_skips_ordered_total = raise(
                    self.totals.subs_skips_ordered_total,
                    1,
                );
                c.skips_ordered = raise(c.skips_ordered, 1);
            },
        }
        self.per_db_subs.insert(db.to_owned(), c);
    }

    /// Counts a verified skip that was wrong, for all and for its database.
    pub fn record_subs_missed_push(&mut self, db: &str)
        ensures
            old(self).wf() ==> final(self).wf(),
            final(self)@ == after_missed(old(self)@, db@),
    {
        let mut c = self.db_subs(db);
        c.missed = raise(c.missed, 1);
        self.totals.subs_missed_pushes_total = raise(self.totals.subs_missed_pushes_total, 1);
        self.per_db_subs.insert(db.to_owned(), c);
    }

    /// Counts a quota rejection by its kind, for all and for its database.
    pub fn record_quota_rejection(&mut self, db: &str, kind: QuotaKind)
        ensures
            old(self).wf() ==> final(self).wf(),
            final(self)@ == after_rejection(old(self)@, db@, kind),
    {
        let mut c = match self.per_db_quota.get(db) {
            Some(c) => *c,
            None => QuotaCounters { tables: 0, storage: 0, subs: 0 },
        };
        match kind {
            QuotaKind::Tables => {
                self.totals.quota_rejections_tables_total = raise(
                    self.totals.quota_rejections_tables_total,
                    1,
                );
                c.tables = raise(c.tables, 1);
            },
            QuotaKind::Storage => {
                self.totals.quota_rejections_storage_total = raise(
                    self.totals.quota_rejections_storage_total,
                    1,
                );
                c.storage = raise(c.storage, 1);
            },
            QuotaKind::Subs => {
                self.totals.quota_rejections_subs_total = raise(
                    self.totals.quota_rejections_subs_total,
                    1,
                );
                c.subs = raise(c.subs, 1);
            },
        }
        self.per_db_quota.insert(db.to_owned(), c);
    }

    /// The invalidation counters per database, by ascending name.
    pub fn per_db_subs_snapshot(&self) -> (r: Vec<DbSubCounterRow>)
        ensures
            lists(sub_rows(r@), self@.per_db_subs),
    {
        let mut rows: Vec<DbSubCounterRow> = Vec::new();
        let n: usize = self.per_db_subs.len();
        proof {
            self.per_db_subs.lemma_keys();
        }
        let ghost keys = self.per_db_subs.keys();
        let mut i: usize = 0;
        while i < n
            invariant
                i <= n,
                n == keys.len(),
                keys == self.per_db_subs.keys(),
                strmap::ascending(keys),
                rows@.len() == i,
                forall|k: int|
                    0 <= k < i ==> (#[trigger] rows@[k])@ == (
                        keys[k],
                        self.per_db_subs@[keys[k]],
                    ),
            decreases n - i,
        {
            let c = *self.per_db_subs.value_at(i);
            rows.push(
                DbSubCounterRow {
                    db: self.per_db_subs.key_at(i).clone(),
                    reruns: c.reruns,
                    skips_point: c.skips_point,
                    skips_indexed: c.skips_indexed,
                    skips_ordered: c.skips_ordered,
                    missed: c.missed,
                },
            );
            i = i + 1;
        }
        proof {
            let vs = sub_rows(rows@);
            let m = self@.per_db_subs;
            assert forall|k: int| 0 <= k < vs.len() implies m.contains_key((#[trigger] vs[k]).0)
                && m[vs[k].0] == vs[k].1 by {
                assert(rows@[k]@.0 == keys[k]);
                assert(keys.contains(keys[k]));
            }
            assert forall|a: int, b: int| 0 <= a < b < vs.len() implies crate::text::chars_lt(
                (#[trigger] vs[a]).0,
                (#[trigger] vs[b]).0,
            ) by {
                assert(rows@[a]@.0 == keys[a]);
                assert(rows@[b]@.0 == keys[b]);
            }
            assert forall|k: Seq<char>| #[trigger] m.contains_key(k) implies exists|p: int|
                0 <= p < vs.len() && (#[trigger] vs[p]).0 == k by {
                assert(keys.contains(k));
                let p = keys.index_of(k);
                assert(rows@[p]@.0 == keys[p]);
                assert(vs[p].0 == k);
            }
        }
        rows
    }

    /// The quota rejections per database, by ascending name.
    pub fn per_db_quota_snapshot(&self) -> (r: Vec<DbQuotaCounterRow>)
        ensures
            lists(quota_rows(r@), self@.per_db_quota),
    {
        let mut rows: Vec<DbQuotaCounterRow> = Vec::new();
        let n: usize = self.per_db_quota.len();
        proof {
            self.per_db_quota.lemma_keys();
        }
        let ghost keys = self.per_db_quota.keys();
        let mut i: usize = 0;
        while i < n
            invariant
                i <= n,
                n == keys.len(),
                keys == self.per_db_quota.keys(),
                strmap::ascending(keys),
                rows@.len() == i,
                forall|k: int|
                    0 <= k < i ==> (#[trigger] rows@[k])@ == (
                        keys[k],
                        self.per_db_quota@[keys[k]],
                    ),
            decreases n - i,
        {
            let c = *self.per_db_quota.value_at(i);
            rows.push(
                DbQuotaCounterRow {
                    db: self.per_db_quota.key_at(i).clone(),
                    tables: c.tables,
                    storage: c.storage,
                    subs: c.subs,
                },
            );
            i = i + 1;
        }
        proof {
            let vs = quota_rows(rows@);
            let m = self@.per_db_quota;
            assert forall|k: int| 0 <= k < vs.len() implies m.contains_key((#[trigger] vs[k]).0)
                && m[vs[k].0] == vs[k].1 by {
                assert(rows@[k]@.0 == keys[k]);
                assert(keys.contains(keys[k]));
            }
            assert forall|a: int, b: int| 0 <= a < b < vs.len() implies crate::text::chars_lt(
                (#[trigger] vs[a]).0,
                (#[trigger] vs[b]).0,
            ) by {
                assert(rows@[a]@.0 == keys[a]);
                assert(rows@[b]@.0 == keys[b]);
            }
            assert forall|k: Seq<char>| #[trigger] m.contains_key(k) implies exists|p: int|
                0 <= p < vs.len() && (#[trigger] vs[p]).0 == k by {
                assert(keys.contains(k));
                let p = keys.index_of(k);
                assert(rows@[p]@.0 == keys[p]);
                assert(vs[p].0 == k);
            }
        }
        rows
    }

    /// Reads all the metrics; the rest of the reading is what the caller found.
    /// Times are in nanoseconds since the epoch.
    pub fn snapshot(
        &self,
        active_subscriptions: usize,
        pool_size: i64,
        pool_idle: i64,
        started_ns: u64,
        now_ns: u64,
        presence_rooms: usize,
        presence_sessions: usize,
    ) -> (r: MetricsSnapshot)
        requires
            self.wf(),
        ensures
            r.queries_total == self@.totals.queries_total,
            r.mutations_total == self@.totals.mutations_total,
            r.uploads_total == self@.totals.uploads_total,
            r.image_transforms_hit_total == self@.totals.image_transforms_hit_total,
            r.image_transforms_miss_total == self@.totals.image_transforms_miss_total,
            r.image_transforms_error_total == self@.totals.image_transforms_error_total,
            r.image_transform_bytes_total == self@.totals.image_transform_bytes_total,
            r.presence_updates_total == self@.totals.presence_updates_total,
            r.presence_broadcasts_total == self@.totals.presence_broadcasts_total,
            r.presence_ttl_expiries_total == self@.totals.presence_ttl_expiries_total,
            r.subs_reruns_total == self@.totals.subs_reruns_total,
            r.subs_skips_point_total == self@.totals.subs_skips_point_total,
            r.subs_skips_indexed_total == self@.totals.subs_skips_indexed_total,
            r.subs_skips_ordered_total == self@.totals.subs_skips_ordered_total,
            r.subs_skip_verifications_total == self@.totals.subs_skip_verifications_total,
            r.subs_missed_pushes_total == self@.totals.subs_missed_pushes_total,
            r.ttl_expired_total == self@.totals.ttl_expired_total,
            r.quota_rejections_tables_total == self@.totals.quota_rejections_tables_total,
            r.quota_rejections_storage_total == self@.totals.quota_rejections_storage_total,
            r.quota_rejections_subs_total == self@.totals.quota_rejections_subs_total,
            r.admin_auth_failures_total == self@.totals.admin_auth_failures_total,
            r.ws_connections == self@.totals.ws_connections,
            r.active_subscriptions == active_subscriptions,
            r.pool_size == pool_size,
            r.pool_idle == pool_idle,
            r.uptime_seconds == uptime(started_ns, now_ns),
            latency::are_percentiles(self@.query_latency, r.query_latency),
            latency::are_percentiles(self@.mutate_latency, r.mutate_latency),
            latency::are_percentiles(self@.subscribe_latency, r.subscribe_latency),
            r.presence_rooms == presence_rooms,
            r.presence_sessions == presence_sessions,
            lists(sub_rows(r.per_db_subs@), self@.per_db_subs),
            lists(quota_rows(r.per_db_quota@), self@.per_db_quota),
    {
        MetricsSnapshot {
            queries_total: self.totals.queries_total,
            mutations_total: self.totals.mutations_total,
            uploads_total: self.totals.uploads_total,
            image_transforms_hit_total: self.totals.image_transforms_hit_total,
            image_transforms_miss_total: self.totals.image_transforms_miss_total,
            image_transforms_error_total: self.totals.image_transforms_error_total,
            image_transform_bytes_total: self.totals.image_transform_bytes_total,
            presence_updates_total: self.totals.presence_updates_total,
            presence_broadcasts_total: self.totals.presence_broadcasts_total,
            presence_ttl_expiries_total: self.totals.presence_ttl_expiries_total,
            subs_reruns_total: self.totals.subs_reruns_total,
            subs_skips_point_total: self.totals.subs_skips_point_total,
            subs_skips_indexed_total: self.totals.subs_skips_indexed_total,
            subs_skips_ordered_total: self.totals.subs_skips_ordered_total,
            subs_skip_verifications_total: self.totals.subs_skip_verifications_total,
            subs_missed_pushes_total: self.totals.subs_missed_pushes_total,
            ttl_expired_total: self.totals.ttl_expired_total,
            quota_rejections_tables_total: self.totals.quota_rejections_tables_total,
            quota_rejections_storage_total: self.totals.quota_rejections_storage_total,
            quota_rejections_subs_total: self.totals.quota_rejections_subs_total,
            admin_auth_failures_total: self.totals.admin_auth_failures_total,
            ws_connections: self.totals.ws_connections,
            active_subscriptions,
            pool_size,
            pool_idle,
            uptime_seconds: uptime_seconds(started_ns, now_ns),
            query_latency: self.query_latency.percentiles(),
            mutate_latency: self.mutate_latency.percentiles(),
            subscribe_latency: self.subscribe_latency.percentiles(),
            presence_rooms,
            presence_sessions,
            per_db_subs: self.per_db_subs_snapshot(),
            per_db_quota: self.per_db_quota_snapshot(),
        }
    }
}

impl Default for Metrics {
    fn default() -> (m: Metrics)
        ensures
            m.wf(),
            m@ == no_metrics(),
    {
        Metrics::new()
    }
}

} // verus!
