//! The totals agree with the breakdowns per database.
#[allow(unused_imports)]
use vstd::prelude::*;

use crate::metrics::counters;
use crate::sums;
use crate::metrics::counters::{DbSubCounters, MetricsV, QuotaCounters, QuotaKind, SkipClass};

verus! {

/// The count after a count, up to wrapping.
pub open spec fn next(n: int) -> int {
    if n + 1 == 0x1_0000_0000_0000_0000 {
        0
    } else {
        n + 1
    }
}

/// A counter agrees with a sum: it is the sum, up to wrapping.
pub open spec fn agrees(total: u64, sum: int) -> bool {
    sum % 0x1_0000_0000_0000_0000 == total
}

/// Every total that has a breakdown per database agrees with it.
pub open spec fn balanced(m: MetricsV) -> bool {
    let subs = m.per_db_subs;
    let quota = m.per_db_quota;
    &&& subs.dom().finite()
    &&& quota.dom().finite()
    &&& agrees(m.totals.subs_reruns_total, sums::sum(subs, |c: DbSubCounters| c.reruns as int))
    &&& agrees(m.totals.subs_skips_point_total, sums::sum(subs, |c: DbSubCounters| c.skips_point as int))
    &&& agrees(m.totals.subs_skips_indexed_total, sums::sum(subs, |c: DbSubCounters| c.skips_indexed as int))
    &&& agrees(m.totals.subs_skips_ordered_total, sums::sum(subs, |c: DbSubCounters| c.skips_ordered as int))
    &&& agrees(m.totals.subs_missed_pushes_total, sums::sum(subs, |c: DbSubCounters| c.missed as int))
    &&& agrees(m.totals.quota_rejections_tables_total, sums::sum(quota, |c: QuotaCounters| c.tables as int))
    &&& agrees(m.totals.quota_rejections_storage_total, sums::sum(quota, |c: QuotaCounters| c.storage as int))
    &&& agrees(m.totals.quota_rejections_subs_total, sums::sum(quota, |c: QuotaCounters| c.subs as int))
}

/// Totals agree with their breakdowns before anything was counted.
pub proof fn law_totals_agree_at_start()
    ensures
        balanced(counters::no_metrics()),
{
    let m = counters::no_metrics();
    assert(m.per_db_subs.dom().is_empty());
    assert(m.per_db_quota.dom().is_empty());
}

proof fn lemma_kept(m: Map<Seq<char>, DbSubCounters>, k: Seq<char>, v: DbSubCounters)
    requires
        m.dom().finite(),
    ensures
        forall|f: spec_fn(DbSubCounters) -> int, total: u64|
            (f(v) == f(counters::subs_of(m, k)) && f(counters::subs_of(Map::empty(), k)) == 0
                && #[trigger] agrees(total, sums::sum(m, f))) ==> agrees(total, sums::sum(m.insert(k, v), f)),
        forall|f: spec_fn(DbSubCounters) -> int, total: u64|
            (f(v) == next(f(counters::subs_of(m, k))) && f(
                counters::subs_of(Map::empty(), k),
            ) == 0 && #[trigger] agrees(total, sums::sum(m, f))) ==> agrees(
                counters::raised(total, 1),
                sums::sum(m.insert(k, v), f),
            ),
{
    assert forall|f: spec_fn(DbSubCounters) -> int, total: u64|
        (f(v) == f(counters::subs_of(m, k)) && f(counters::subs_of(Map::empty(), k)) == 0
            && #[trigger] agrees(total, sums::sum(m, f))) implies agrees(
        total,
        sums::sum(m.insert(k, v), f),
    ) by {
        sums::lemma_sum_insert(m, f, k, v);
    }
    assert forall|f: spec_fn(DbSubCounters) -> int, total: u64|
        (f(v) == next(f(counters::subs_of(m, k))) && f(
            counters::subs_of(Map::empty(), k),
        ) == 0 && #[trigger] agrees(total, sums::sum(m, f))) implies agrees(
        counters::raised(total, 1),
        sums::sum(m.insert(k, v), f),
    ) by {
        sums::lemma_sum_insert(m, f, k, v);
    }
}

proof fn lemma_quota_kept(m: Map<Seq<char>, QuotaCounters>, k: Seq<char>, v: QuotaCounters)
    requires
        m.dom().finite(),
    ensures
        forall|f: spec_fn(QuotaCounters) -> int, total: u64|
            (f(v) == f(counters::quota_of(m, k)) && f(counters::quota_of(Map::empty(), k)) == 0
                && #[trigger] agrees(total, sums::sum(m, f))) ==> agrees(total, sums::sum(m.insert(k, v), f)),
        forall|f: spec_fn(QuotaCounters) -> int, total: u64|
            (f(v) == next(f(counters::quota_of(m, k))) && f(
                counters::quota_of(Map::empty(), k),
            ) == 0 && #[trigger] agrees(total, sums::sum(m, f))) ==> agrees(
                counters::raised(total, 1),
                sums::sum(m.insert(k, v), f),
            ),
{
    assert forall|f: spec_fn(QuotaCounters) -> int, total: u64|
        (f(v) == f(counters::quota_of(m, k)) && f(counters::quota_of(Map::empty(), k)) == 0
            && #[trigger] agrees(total, sums::sum(m, f))) implies agrees(
        total,
        sums::sum(m.insert(k, v), f),
    ) by {
        sums::lemma_sum_insert(m, f, k, v);
    }
    assert forall|f: spec_fn(QuotaCounters) -> int, total: u64|
        (f(v) == next(f(counters::quota_of(m, k))) && f(
            counters::quota_of(Map::empty(), k),
        ) == 0 && #[trigger] agrees(total, sums::sum(m, f))) implies agrees(
        counters::raised(total, 1),
        sums::sum(m.insert(k, v), f),
    ) by {
        sums::lemma_sum_insert(m, f, k, v);
    }
}

/// Totals agree with their breakdowns after anything that is counted for a
/// database.
pub proof fn law_totals_stay_in_agreement(
    m: MetricsV,
    db: Seq<char>,
    class: SkipClass,
    kind: QuotaKind,
)
    requires
        balanced(m),
    ensures
        balanced(counters::after_rerun(m, db)),
        balanced(counters::after_skip(m, db, class)),
        balanced(counters::after_missed(m, db)),
        balanced(counters::after_rejection(m, db, kind)),
{
    let subs = m.per_db_subs;
    lemma_kept(subs, db, counters::after_rerun(m, db).per_db_subs[db]);
    lemma_kept(subs, db, counters::after_skip(m, db, class).per_db_subs[db]);
    lemma_kept(subs, db, counters::after_missed(m, db).per_db_subs[db]);
    lemma_quota_kept(m.per_db_quota, db, counters::after_rejection(m, db, kind).per_db_quota[db]);
}


} // verus!
