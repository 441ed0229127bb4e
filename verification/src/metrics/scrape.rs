//! The metrics in the text format that a scraper reads.
#[allow(unused_imports)]
use vstd::prelude::*;
#[allow(unused_imports)]
use vstd::string::*;

use crate::metrics::counters::MetricsSnapshot;
use crate::text;
use crate::text::{cat2, cat5, cat8, dec_i64, dec_u64, dec_usize};

verus! {

/// The two lines that open a metric.
pub open spec fn header(name: Seq<char>, kind: Seq<char>, help: Seq<char>) -> Seq<char> {
    "# HELP "@ + name + " "@ + help + "\n# TYPE "@ + name + " "@ + kind + "\n"@
}

/// A line with a value of a metric.
pub open spec fn sample(name: Seq<char>, labels: Seq<char>, value: Seq<char>) -> Seq<char> {
    name + labels + " "@ + value + "\n"@
}

fn begin(out: String, name: &str, kind: &str, help: &str) -> (r: String)
    ensures
        r@ == out@ + header(name@, kind@, help@),
{
    let lines = cat8("# HELP ", name, " ", help, "\n# TYPE ", name, " ", kind);
    cat2(out.as_str(), cat2(lines.as_str(), "\n").as_str())
}

fn put(out: String, name: &str, labels: &str, value: &str) -> (r: String)
    ensures
        r@ == out@ + sample(name@, labels@, value@),
{
    cat2(out.as_str(), cat5(name, labels, " ", value, "\n").as_str())
}

/// The labels that identify the build.
pub open spec fn build_labels(version: Seq<char>, git_commit: Seq<char>) -> Seq<char> {
    "{version=\""@ + version + "\",git_commit=\""@ + git_commit + "\"}"@
}

/// The text that a scraper reads.
pub open spec fn scrape(s: MetricsSnapshot, version: Seq<char>, git_commit: Seq<char>) -> Seq<
    char,
> {
    let out = Seq::empty();
    let out = out + header("rtdb_queries_total"@, "counter"@, "Total query requests served (HTTP /api/query + WS)."@);
    let out = out + sample("rtdb_queries_total"@, ""@, text::dec(s.queries_total as nat));
    let out = out + header("rtdb_mutations_total"@, "counter"@, "Total mutation transactions committed (HTTP /api/mutate + WS)."@);
    let out = out + sample("rtdb_mutations_total"@, ""@, text::dec(s.mutations_total as nat));
    let out = out + header("rtdb_uploads_total"@, "counter"@, "Total file storage uploads (POST /api/storage/{db})."@);
    let out = out + sample("rtdb_uploads_total"@, ""@, text::dec(s.uploads_total as nat));
    let out = out + header("rtdb_subs_skips_total"@, "counter"@, "Subscription re-runs skipped because the read set proved every written document irrelevant."@);
    let out = out + sample("rtdb_subs_skips_total"@, "{class=\"point\"}"@, text::dec(s.subs_skips_point_total as nat));
    let out = out + sample("rtdb_subs_skips_total"@, "{class=\"indexed\"}"@, text::dec(s.subs_skips_indexed_total as nat));
    let out = out + sample("rtdb_subs_skips_total"@, "{class=\"ordered\"}"@, text::dec(s.subs_skips_ordered_total as nat));
    let out = out + header("rtdb_subs_reruns_total"@, "counter"@, "Subscriptions re-run by fan_out (read set could not prove irrelevance)."@);
    let out = out + sample("rtdb_subs_reruns_total"@, ""@, text::dec(s.subs_reruns_total as nat));
    let out = out + header("rtdb_subs_skip_verifications_total"@, "counter"@, "Skips shadow-verified by re-running the query and comparing (sampled)."@);
    let out = out + sample("rtdb_subs_skip_verifications_total"@, ""@, text::dec(s.subs_skip_verifications_total as nat));
    let out = out + header("rtdb_subs_missed_pushes_total"@, "counter"@, "Verified skips whose result had changed — invalidation under-approximated. ALERT ON ANY INCREASE."@);
    let out = out + sample("rtdb_subs_missed_pushes_total"@, ""@, text::dec(s.subs_missed_pushes_total as nat));
    let out = out + header("rtdb_quota_rejections_total"@, "counter"@, "Resource-quota rejections by kind."@);
    let out = out + sample("rtdb_quota_rejections_total"@, "{kind=\"tables\"}"@, text::dec(s.quota_rejections_tables_total as nat));
    let out = out + sample("rtdb_quota_rejections_total"@, "{kind=\"storage\"}"@, text::dec(s.quota_rejections_storage_total as nat));
    let out = out + sample("rtdb_quota_rejections_total"@, "{kind=\"subs\"}"@, text::dec(s.quota_rejections_subs_total as nat));
    let out = out + header("rtdb_admin_auth_failures_total"@, "counter"@, "Admin-key login failures at POST /admin/login (brute-force signal)."@);
    let out = out + sample("rtdb_admin_auth_failures_total"@, ""@, text::dec(s.admin_auth_failures_total as nat));
    let out = out + header("rtdb_ttl_expired_total"@, "counter"@, "Total expired documents deleted by the TTL reaper across all dbs/tables."@);
    let out = out + sample("rtdb_ttl_expired_total"@, ""@, text::dec(s.ttl_expired_total as nat));
    let out = out + header("rtdb_image_transforms_total"@, "counter"@, "Image transforms served, by result."@);
    let out = out + sample("rtdb_image_transforms_total"@, "{result=\"hit\"}"@, text::dec(s.image_transforms_hit_total as nat));
    let out = out + sample("rtdb_image_transforms_total"@, "{result=\"miss\"}"@, text::dec(s.image_transforms_miss_total as nat));
    let out = out + sample("rtdb_image_transforms_total"@, "{result=\"error\"}"@, text::dec(s.image_transforms_error_total as nat));
    let out = out + header("rtdb_image_transform_bytes_total"@, "counter"@, "Total bytes emitted by image transforms."@);
    let out = out + sample("rtdb_image_transform_bytes_total"@, ""@, text::dec(s.image_transform_bytes_total as nat));
    let out = out + header("rtdb_presence_updates_total"@, "counter"@, "Inbound presence/update frames processed."@);
    let out = out + sample("rtdb_presence_updates_total"@, ""@, text::dec(s.presence_updates_total as nat));
    let out = out + header("rtdb_presence_broadcasts_total"@, "counter"@, "Presence-state broadcasts fanned out to subscribers."@);
    let out = out + sample("rtdb_presence_broadcasts_total"@, ""@, text::dec(s.presence_broadcasts_total as nat));
    let out = out + header("rtdb_presence_ttl_expiries_total"@, "counter"@, "Presence sessions whose per-state TTL expired."@);
    let out = out + sample("rtdb_presence_ttl_expiries_total"@, ""@, text::dec(s.presence_ttl_expiries_total as nat));
    let out = out + header("rtdb_presence_rooms"@, "gauge"@, "Distinct presence rooms across all dbs."@);
    let out = out + sample("rtdb_presence_rooms"@, ""@, text::dec(s.presence_rooms as nat));
    let out = out + header("rtdb_presence_sessions"@, "gauge"@, "Total presence sessions across all rooms."@);
    let out = out + sample("rtdb_presence_sessions"@, ""@, text::dec(s.presence_sessions as nat));
    let out = out + header("rtdb_ws_connections"@, "gauge"@, "Current open /sync WebSocket connections."@);
    let out = out + sample("rtdb_ws_connections"@, ""@, text::dec_int(s.ws_connections as int));
    let out = out + header("rtdb_active_subscriptions"@, "gauge"@, "Current active live-query subscriptions."@);
    let out = out + sample("rtdb_active_subscriptions"@, ""@, text::dec(s.active_subscriptions as nat));
    let out = out + header("rtdb_pool_size"@, "gauge"@, "Postgres connection pool size (total connections)."@);
    let out = out + sample("rtdb_pool_size"@, ""@, text::dec_int(s.pool_size as int));
    let out = out + header("rtdb_pool_idle"@, "gauge"@, "Postgres connection pool idle connections."@);
    let out = out + sample("rtdb_pool_idle"@, ""@, text::dec_int(s.pool_idle as int));
    let out = out + header("rtdb_uptime_seconds"@, "gauge"@, "Server uptime in seconds since boot."@);
    let out = out + sample("rtdb_uptime_seconds"@, ""@, text::dec(s.uptime_seconds as nat));
    let out = out + header("rtdb_build_info"@, "gauge"@, "Build identity (version, git_commit)."@);
    out + sample("rtdb_build_info"@, build_labels(version, git_commit), "1"@)
}

/// Renders the metrics for a scraper. What is known per database stays out.
pub fn render_prometheus(s: &MetricsSnapshot, version: &str, git_commit: &str) -> (r: String)
    ensures
        r@ == scrape(*s, version@, git_commit@),
{
    let out = String::new();
    assert(out@ =~= Seq::<char>::empty());
    let out = begin(out, "rtdb_queries_total", "counter", "Total query requests served (HTTP /api/query + WS).");
    let out = put(out, "rtdb_queries_total", "", dec_u64(s.queries_total).as_str());
    let out = begin(out, "rtdb_mutations_total", "counter", "Total mutation transactions committed (HTTP /api/mutate + WS).");
    let out = put(out, "rtdb_mutations_total", "", dec_u64(s.mutations_total).as_str());
    let out = begin(out, "rtdb_uploads_total", "counter", "Total file storage uploads (POST /api/storage/{db}).");
    let out = put(out, "rtdb_uploads_total", "", dec_u64(s.uploads_total).as_str());
    let out = begin(out, "rtdb_subs_skips_total", "counter", "Subscription re-runs skipped because the read set proved every written document irrelevant.");
    let out = put(out, "rtdb_subs_skips_total", "{class=\"point\"}", dec_u64(s.subs_skips_point_total).as_str());
    let out = put(out, "rtdb_subs_skips_total", "{class=\"indexed\"}", dec_u64(s.subs_skips_indexed_total).as_str());
    let out = put(out, "rtdb_subs_skips_total", "{class=\"ordered\"}", dec_u64(s.subs_skips_ordered_total).as_str());
    let out = begin(out, "rtdb_subs_reruns_total", "counter", "Subscriptions re-run by fan_out (read set could not prove irrelevance).");
    let out = put(out, "rtdb_subs_reruns_total", "", dec_u64(s.subs_reruns_total).as_str());
    let out = begin(out, "rtdb_subs_skip_verifications_total", "counter", "Skips shadow-verified by re-running the query and comparing (sampled).");
    let out = put(out, "rtdb_subs_skip_verifications_total", "", dec_u64(s.subs_skip_verifications_total).as_str());
    let out = begin(out, "rtdb_subs_missed_pushes_total", "counter", "Verified skips whose result had changed — invalidation under-approximated. ALERT ON ANY INCREASE.");
    let out = put(out, "rtdb_subs_missed_pushes_total", "", dec_u64(s.subs_missed_pushes_total).as_str());
    let out = begin(out, "rtdb_quota_rejections_total", "counter", "Resource-quota rejections by kind.");
    let out = put(out, "rtdb_quota_rejections_total", "{kind=\"tables\"}", dec_u64(s.quota_rejections_tables_total).as_str());
    let out = put(out, "rtdb_quota_rejections_total", "{kind=\"storage\"}", dec_u64(s.quota_rejections_storage_total).as_str());
    let out = put(out, "rtdb_quota_rejections_total", "{kind=\"subs\"}", dec_u64(s.quota_rejections_subs_total).as_str());
    let out = begin(out, "rtdb_admin_auth_failures_total", "counter", "Admin-key login failures at POST /admin/login (brute-force signal).");
    let out = put(out, "rtdb_admin_auth_failures_total", "", dec_u64(s.admin_auth_failures_total).as_str());
    let out = begin(out, "rtdb_ttl_expired_total", "counter", "Total expired documents deleted by the TTL reaper across all dbs/tables.");
    let out = put(out, "rtdb_ttl_expired_total", "", dec_u64(s.ttl_expired_total).as_str());
    let out = begin(out, "rtdb_image_transforms_total", "counter", "Image transforms served, by result.");
    let out = put(out, "rtdb_image_transforms_total", "{result=\"hit\"}", dec_u64(s.image_transforms_hit_total).as_str());
    let out = put(out, "rtdb_image_transforms_total", "{result=\"miss\"}", dec_u64(s.image_transforms_miss_total).as_str());
    let out = put(out, "rtdb_image_transforms_total", "{result=\"error\"}", dec_u64(s.image_transforms_error_total).as_str());
    let out = begin(out, "rtdb_image_transform_bytes_total", "counter", "Total bytes emitted by image transforms.");
    let out = put(out, "rtdb_image_transform_bytes_total", "", dec_u64(s.image_transform_bytes_total).as_str());
    let out = begin(out, "rtdb_presence_updates_total", "counter", "Inbound presence/update frames processed.");
    let out = put(out, "rtdb_presence_updates_total", "", dec_u64(s.presence_updates_total).as_str());
    let out = begin(out, "rtdb_presence_broadcasts_total", "counter", "Presence-state broadcasts fanned out to subscribers.");
    let out = put(out, "rtdb_presence_broadcasts_total", "", dec_u64(s.presence_broadcasts_total).as_str());
    let out = begin(out, "rtdb_presence_ttl_expiries_total", "counter", "Presence sessions whose per-state TTL expired.");
    let out = put(out, "rtdb_presence_ttl_expiries_total", "", dec_u64(s.presence_ttl_expiries_total).as_str());
    let out = begin(out, "rtdb_presence_rooms", "gauge", "Distinct presence rooms across all dbs.");
    let out = put(out, "rtdb_presence_rooms", "", dec_usize(s.presence_rooms).as_str());
    let out = begin(out, "rtdb_presence_sessions", "gauge", "Total presence sessions across all rooms.");
    let out = put(out, "rtdb_presence_sessions", "", dec_usize(s.presence_sessions).as_str());
    let out = begin(out, "rtdb_ws_connections", "gauge", "Current open /sync WebSocket connections.");
    let out = put(out, "rtdb_ws_connections", "", dec_i64(s.ws_connections).as_str());
    let out = begin(out, "rtdb_active_subscriptions", "gauge", "Current active live-query subscriptions.");
    let out = put(out, "rtdb_active_subscriptions", "", dec_usize(s.active_subscriptions).as_str());
    let out = begin(out, "rtdb_pool_size", "gauge", "Postgres connection pool size (total connections).");
    let out = put(out, "rtdb_pool_size", "", dec_i64(s.pool_size).as_str());
    let out = begin(out, "rtdb_pool_idle", "gauge", "Postgres connection pool idle connections.");
    let out = put(out, "rtdb_pool_idle", "", dec_i64(s.pool_idle).as_str());
    let out = begin(out, "rtdb_uptime_seconds", "gauge", "Server uptime in seconds since boot.");
    let out = put(out, "rtdb_uptime_seconds", "", dec_u64(s.uptime_seconds).as_str());
    let out = begin(out, "rtdb_build_info", "gauge", "Build identity (version, git_commit).");
    put(
        out,
        "rtdb_build_info",
        cat5("{version=\"", version, "\",git_commit=\"", git_commit, "\"}").as_str(),
        "1",
    )
}

/// What a scraper reads does not depend on what is known per database, nor on
/// the latency windows.
pub proof fn law_scrape_holds_totals_only(
    a: MetricsSnapshot,
    b: MetricsSnapshot,
    version: Seq<char>,
    git_commit: Seq<char>,
)
    requires
        a == (MetricsSnapshot {
            per_db_subs: a.per_db_subs,
            per_db_quota: a.per_db_quota,
            query_latency: a.query_latency,
            mutate_latency: a.mutate_latency,
            subscribe_latency: a.subscribe_latency,
            ..b
        }),
    ensures
        scrape(a, version, git_commit) == scrape(b, version, git_commit),
{
}

} // verus!
