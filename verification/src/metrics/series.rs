//! What the breakdowns per database tell of a series of counts.
#[allow(unused_imports)]
use vstd::prelude::*;

use crate::metrics::counters;
use crate::metrics::counters::{
    DbSubCounters, MetricsV, QuotaCounters, QuotaKind, SkipClass, Totals,
};
use crate::sums;
use crate::text;

verus! {

/// Something that was recorded.
pub enum Recorded {
    /// A re-run of a subscription of a database.
    Rerun(Seq<char>),
    /// A skipped re-run of a database.
    Skip(Seq<char>, SkipClass),
    /// A wrong skip of a database.
    Missed(Seq<char>),
    /// A quota rejection of a database.
    Rejection(Seq<char>, QuotaKind),
    /// Anything that is not counted per database: what else the metrics hold is
    /// then as given.
    Other(MetricsV),
}

/// The metrics after something was recorded.
pub open spec fn taken(m: MetricsV, r: Recorded) -> MetricsV {
    match r {
        Recorded::Rerun(db) => counters::after_rerun(m, db),
        Recorded::Skip(db, class) => counters::after_skip(m, db, class),
        Recorded::Missed(db) => counters::after_missed(m, db),
        Recorded::Rejection(db, kind) => counters::after_rejection(m, db, kind),
        Recorded::Other(n) => MetricsV {
            totals: Totals {
                subs_reruns_total: m.totals.subs_reruns_total,
                subs_skips_point_total: m.totals.subs_skips_point_total,
                subs_skips_indexed_total: m.totals.subs_skips_indexed_total,
                subs_skips_ordered_total: m.totals.subs_skips_ordered_total,
                subs_missed_pushes_total: m.totals.subs_missed_pushes_total,
                quota_rejections_tables_total: m.totals.quota_rejections_tables_total,
                quota_rejections_storage_total: m.totals.quota_rejections_storage_total,
                quota_rejections_subs_total: m.totals.quota_rejections_subs_total,
                ..n.totals
            },
            per_db_subs: m.per_db_subs,
            per_db_quota: m.per_db_quota,
            ..n
        },
    }
}

/// The metrics after a series, from a process that has done nothing.
pub open spec fn after(rs: Seq<Recorded>) -> MetricsV
    decreases rs.len(),
{
    if rs.len() == 0 {
        counters::no_metrics()
    } else {
        taken(after(rs.drop_last()), rs.last())
    }
}

/// The invalidation of a database was recorded.
pub open spec fn names_subs(r: Recorded, db: Seq<char>) -> bool {
    match r {
        Recorded::Rerun(d) => d == db,
        Recorded::Skip(d, _) => d == db,
        Recorded::Missed(d) => d == db,
        _ => false,
    }
}

/// A quota rejection of a database was recorded.
pub open spec fn names_quota(r: Recorded, db: Seq<char>) -> bool {
    match r {
        Recorded::Rejection(d, _) => d == db,
        _ => false,
    }
}

/// Some record is of the invalidation of a database.
pub open spec fn subs_recorded(rs: Seq<Recorded>, db: Seq<char>) -> bool {
    exists|i: int| 0 <= i < rs.len() && names_subs(#[trigger] rs[i], db)
}

/// Some record is of a quota rejection of a database.
pub open spec fn quota_recorded(rs: Seq<Recorded>, db: Seq<char>) -> bool {
    exists|i: int| 0 <= i < rs.len() && names_quota(#[trigger] rs[i], db)
}

/// There is a row for a database.
pub open spec fn has_row<V>(rows: Seq<(Seq<char>, V)>, db: Seq<char>) -> bool {
    exists|i: int| 0 <= i < rows.len() && (#[trigger] rows[i]).0 == db
}

/// A column of the invalidation counters.
pub enum SubColumn {
    Reruns,
    SkipsPoint,
    SkipsIndexed,
    SkipsOrdered,
    Missed,
}

/// The counter of a database in a column.
pub open spec fn sub_cell(c: DbSubCounters, col: SubColumn) -> int {
    match col {
        SubColumn::Reruns => c.reruns as int,
        SubColumn::SkipsPoint => c.skips_point as int,
        SubColumn::SkipsIndexed => c.skips_indexed as int,
        SubColumn::SkipsOrdered => c.skips_ordered as int,
        SubColumn::Missed => c.missed as int,
    }
}

/// The total over all databases that a column belongs to.
pub open spec fn sub_total(t: Totals, col: SubColumn) -> int {
    match col {
        SubColumn::Reruns => t.subs_reruns_total as int,
        SubColumn::SkipsPoint => t.subs_skips_point_total as int,
        SubColumn::SkipsIndexed => t.subs_skips_indexed_total as int,
        SubColumn::SkipsOrdered => t.subs_skips_ordered_total as int,
        SubColumn::Missed => t.subs_missed_pushes_total as int,
    }
}

/// The counter of a database in the column of a quota.
pub open spec fn quota_cell(c: QuotaCounters, kind: QuotaKind) -> int {
    match kind {
        QuotaKind::Tables => c.tables as int,
        QuotaKind::Storage => c.storage as int,
        QuotaKind::Subs => c.subs as int,
    }
}

/// The total over all databases that the column of a quota belongs to.
pub open spec fn quota_total(t: Totals, kind: QuotaKind) -> int {
    match kind {
        QuotaKind::Tables => t.quota_rejections_tables_total as int,
        QuotaKind::Storage => t.quota_rejections_storage_total as int,
        QuotaKind::Subs => t.quota_rejections_subs_total as int,
    }
}

/// The sum over rows.
pub open spec fn row_sum<V>(rows: Seq<(Seq<char>, V)>, f: spec_fn(V) -> int) -> int
    decreases rows.len(),
{
    if rows.len() == 0 {
        0
    } else {
        row_sum(rows.drop_last(), f) + f(rows.last().1)
    }
}

/// The rows that list a map add up to the sum over the map.
proof fn lemma_row_sum<V>(
    rows: Seq<(Seq<char>, V)>,
    m: Map<Seq<char>, V>,
    f: spec_fn(V) -> int,
)
    requires
        counters::lists(rows, m),
        m.dom().finite(),
    ensures
        row_sum(rows, f) == sums::sum(m, f),
{
    let keys = Seq::new(rows.len(), |i: int| rows[i].0);
    assert forall|i: int, j: int|
        0 <= i < keys.len() && 0 <= j < keys.len() && i != j implies keys[i] != keys[j] by {
        text::lemma_chars_lt_irreflexive(keys[i]);
        if i < j {
            assert(text::chars_lt(rows[i].0, rows[j].0));
        } else {
            assert(text::chars_lt(rows[j].0, rows[i].0));
        }
    }
    assert forall|k: Seq<char>| #[trigger] m.contains_key(k) <==> keys.contains(k) by {
        if m.contains_key(k) {
            let i = choose|i: int| 0 <= i < rows.len() && (#[trigger] rows[i]).0 == k;
            assert(keys[i] == k);
        }
        if keys.contains(k) {
            let i = keys.index_of(k);
            assert(rows[i].0 == k);
        }
    }
    sums::lemma_sum_keys(m, f, keys);
    lemma_row_partial(rows, m, f, keys, rows.len() as int);
    assert(rows.take(rows.len() as int) =~= rows);
}

proof fn lemma_row_partial<V>(
    rows: Seq<(Seq<char>, V)>,
    m: Map<Seq<char>, V>,
    f: spec_fn(V) -> int,
    keys: Seq<Seq<char>>,
    n: int,
)
    requires
        0 <= n <= rows.len(),
        keys.len() == rows.len(),
        forall|i: int| 0 <= i < rows.len() ==> keys[i] == (#[trigger] rows[i]).0,
        forall|i: int| 0 <= i < rows.len() ==> m[(#[trigger] rows[i]).0] == rows[i].1,
    ensures
        row_sum(rows.take(n), f) == sums::partial(m, f, keys, n),
    decreases n,
{
    if n > 0 {
        lemma_row_partial(rows, m, f, keys, n - 1);
        assert(rows.take(n).drop_last() =~= rows.take(n - 1));
        assert(rows.take(n).last() == rows[n - 1]);
    }
}

/// A sum of counters is not negative.
proof fn lemma_sum_natural<V>(m: Map<Seq<char>, V>, f: spec_fn(V) -> int)
    requires
        m.dom().finite(),
        forall|c: V| #[trigger] f(c) >= 0,
    ensures
        sums::sum(m, f) >= 0,
    decreases m.dom().len(),
{
    if !m.dom().is_empty() {
        let k = m.dom().choose();
        assert(m.dom().contains(k));
        lemma_sum_natural(m.remove(k), f);
        assert(f(m[k]) >= 0);
    }
}

/// One more in a column of one database is one more in the sum.
proof fn lemma_counted<V>(m: Map<Seq<char>, V>, f: spec_fn(V) -> int, db: Seq<char>, old: V, new: V)
    requires
        m.dom().finite(),
        forall|c: V| #[trigger] f(c) >= 0,
        f(old) == (if m.contains_key(db) {
            f(m[db])
        } else {
            0
        }),
    ensures
        m.insert(db, new).dom().finite(),
        f(old) <= sums::sum(m, f),
        sums::sum(m.insert(db, new), f) == sums::sum(m, f) + f(new) - f(old),
{
    sums::lemma_sum_insert(m, f, db, new);
    assert(m.remove(db).dom().finite());
    lemma_sum_natural(m.remove(db), f);
}

/// The breakdown of invalidations adds up, and counts no more than was recorded.
spec fn subs_add_up(m: MetricsV, col: SubColumn, n: nat) -> bool {
    let sum = sums::sum(m.per_db_subs, |c: DbSubCounters| sub_cell(c, col));
    m.per_db_subs.dom().finite() && sum == sub_total(m.totals, col) && 0 <= sum <= n
}

/// The breakdown of rejections adds up, and counts no more than was recorded.
spec fn quota_adds_up(m: MetricsV, kind: QuotaKind, n: nat) -> bool {
    let sum = sums::sum(m.per_db_quota, |c: QuotaCounters| quota_cell(c, kind));
    m.per_db_quota.dom().finite() && sum == quota_total(m.totals, kind) && 0 <= sum <= n
}

proof fn lemma_series(rs: Seq<Recorded>, col: SubColumn, kind: QuotaKind)
    requires
        rs.len() <= u64::MAX,
    ensures
        subs_add_up(after(rs), col, rs.len()),
        quota_adds_up(after(rs), kind, rs.len()),
    decreases rs.len(),
{
    let f = |c: DbSubCounters| sub_cell(c, col);
    let g = |c: QuotaCounters| quota_cell(c, kind);
    if rs.len() == 0 {
        assert(after(rs).per_db_subs.dom().is_empty());
        assert(after(rs).per_db_quota.dom().is_empty());
    } else {
        let m = after(rs.drop_last());
        let r = rs.last();
        lemma_series(rs.drop_last(), col, kind);
        match r {
            Recorded::Rejection(db, _) => {
                let old = counters::quota_of(m.per_db_quota, db);
                let new = taken(m, r).per_db_quota[db];
                assert(taken(m, r).per_db_quota == m.per_db_quota.insert(db, new));
                lemma_counted(m.per_db_quota, g, db, old, new);
            },
            Recorded::Other(_) => {},
            Recorded::Rerun(db) | Recorded::Skip(db, _) | Recorded::Missed(db) => {
                let old = counters::subs_of(m.per_db_subs, db);
                let new = taken(m, r).per_db_subs[db];
                assert(taken(m, r).per_db_subs == m.per_db_subs.insert(db, new));
                lemma_counted(m.per_db_subs, f, db, old, new);
            },
        }
    }
}

proof fn lemma_named(rs: Seq<Recorded>, db: Seq<char>)
    ensures
        after(rs).per_db_subs.contains_key(db) <==> subs_recorded(rs, db),
        after(rs).per_db_quota.contains_key(db) <==> quota_recorded(rs, db),
    decreases rs.len(),
{
    if rs.len() > 0 {
        let head = rs.drop_last();
        lemma_named(head, db);
        assert(forall|i: int| 0 <= i < head.len() ==> head[i] == #[trigger] rs[i]);
        if exists|i: int| 0 <= i < head.len() && names_subs(#[trigger] head[i], db) {
            let i = choose|i: int| 0 <= i < head.len() && names_subs(#[trigger] head[i], db);
            assert(names_subs(rs[i], db));
        }
        if exists|i: int| 0 <= i < head.len() && names_quota(#[trigger] head[i], db) {
            let i = choose|i: int| 0 <= i < head.len() && names_quota(#[trigger] head[i], db);
            assert(names_quota(rs[i], db));
        }
        if names_subs(rs.last(), db) {
            assert(names_subs(rs[rs.len() - 1], db));
        }
        if names_quota(rs.last(), db) {
            assert(names_quota(rs[rs.len() - 1], db));
        }
        if exists|i: int| 0 <= i < rs.len() && names_subs(#[trigger] rs[i], db) {
            let i = choose|i: int| 0 <= i < rs.len() && names_subs(#[trigger] rs[i], db);
            if i < head.len() {
                assert(names_subs(head[i], db));
            }
        }
        if exists|i: int| 0 <= i < rs.len() && names_quota(#[trigger] rs[i], db) {
            let i = choose|i: int| 0 <= i < rs.len() && names_quota(#[trigger] rs[i], db);
            if i < head.len() {
                assert(names_quota(head[i], db));
            }
        }
    }
}

/// A step that touches neither breakdown nor a total of one is a record of
/// something that is not counted per database.
pub proof fn law_other_counts_keep_the_breakdowns(m: MetricsV, n: MetricsV)
    requires
        n.per_db_subs == m.per_db_subs,
        n.per_db_quota == m.per_db_quota,
        forall|col: SubColumn| #[trigger] sub_total(n.totals, col) == sub_total(m.totals, col),
        forall|kind: QuotaKind|
            #[trigger] quota_total(n.totals, kind) == quota_total(m.totals, kind),
    ensures
        taken(m, Recorded::Other(n)) == n,
{
    assert(sub_total(n.totals, SubColumn::Reruns) == sub_total(m.totals, SubColumn::Reruns));
    assert(sub_total(n.totals, SubColumn::SkipsPoint) == sub_total(m.totals, SubColumn::SkipsPoint));
    assert(sub_total(n.totals, SubColumn::SkipsIndexed) == sub_total(
        m.totals,
        SubColumn::SkipsIndexed,
    ));
    assert(sub_total(n.totals, SubColumn::SkipsOrdered) == sub_total(
        m.totals,
        SubColumn::SkipsOrdered,
    ));
    assert(sub_total(n.totals, SubColumn::Missed) == sub_total(m.totals, SubColumn::Missed));
    assert(quota_total(n.totals, QuotaKind::Tables) == quota_total(m.totals, QuotaKind::Tables));
    assert(quota_total(n.totals, QuotaKind::Storage) == quota_total(m.totals, QuotaKind::Storage));
    assert(quota_total(n.totals, QuotaKind::Subs) == quota_total(m.totals, QuotaKind::Subs));
}

/// After any series of records there is a row of invalidation counters for
/// exactly each database whose invalidation was recorded, and every column adds
/// up to its total over all databases, as long as no counter can overflow.
pub proof fn law_sub_rows_add_up(
    rs: Seq<Recorded>,
    rows: Seq<(Seq<char>, DbSubCounters)>,
    col: SubColumn,
)
    requires
        rs.len() <= u64::MAX,
        counters::lists(rows, after(rs).per_db_subs),
    ensures
        row_sum(rows, |c: DbSubCounters| sub_cell(c, col)) == sub_total(after(rs).totals, col),
        forall|db: Seq<char>| #[trigger] has_row(rows, db) <==> subs_recorded(rs, db),
        rows.len() == 0 <==> forall|db: Seq<char>| !#[trigger] subs_recorded(rs, db),
{
    lemma_series(rs, col, QuotaKind::Tables);
    lemma_row_sum(rows, after(rs).per_db_subs, |c: DbSubCounters| sub_cell(c, col));
    assert forall|db: Seq<char>| #[trigger] has_row(rows, db) <==> subs_recorded(rs, db) by {
        lemma_named(rs, db);
    }
    assert forall|db: Seq<char>| rows.len() == 0 implies !#[trigger] subs_recorded(rs, db) by {
        assert(!has_row(rows, db));
    }
    if rows.len() > 0 {
        assert(has_row(rows, rows[0].0));
    }
}

/// After any series of records there is a row of quota rejections for exactly
/// each database with a rejection, and every column adds up to its total over all
/// databases, as long as no counter can overflow.
pub proof fn law_quota_rows_add_up(
    rs: Seq<Recorded>,
    rows: Seq<(Seq<char>, QuotaCounters)>,
    kind: QuotaKind,
)
    requires
        rs.len() <= u64::MAX,
        counters::lists(rows, after(rs).per_db_quota),
    ensures
        row_sum(rows, |c: QuotaCounters| quota_cell(c, kind)) == quota_total(
            after(rs).totals,
            kind,
        ),
        forall|db: Seq<char>| #[trigger] has_row(rows, db) <==> quota_recorded(rs, db),
        rows.len() == 0 <==> forall|db: Seq<char>| !#[trigger] quota_recorded(rs, db),
{
    lemma_series(rs, SubColumn::Reruns, kind);
    lemma_row_sum(rows, after(rs).per_db_quota, |c: QuotaCounters| quota_cell(c, kind));
    assert forall|db: Seq<char>| #[trigger] has_row(rows, db) <==> quota_recorded(rs, db) by {
        lemma_named(rs, db);
    }
    assert forall|db: Seq<char>| rows.len() == 0 implies !#[trigger] quota_recorded(rs, db) by {
        assert(!has_row(rows, db));
    }
    if rows.len() > 0 {
        assert(has_row(rows, rows[0].0));
    }
}

} // verus!
