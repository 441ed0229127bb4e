//! Latency percentiles over a bounded window of samples.
#[allow(unused_imports)]
use vstd::prelude::*;

verus! {

/// How many samples a window holds.
pub const LATENCY_BUF_CAP: usize = 1024;

/// Nearest-rank percentiles, in microseconds.
#[derive(Debug, Clone, Copy, PartialEq, Eq, Structural)]
pub struct LatencyStats {
    pub p50: u64,
    pub p95: u64,
    pub p99: u64,
}

impl Default for LatencyStats {
    fn default() -> (r: LatencyStats)
        ensures
            r == (LatencyStats { p50: 0, p95: 0, p99: 0 }),
    {
        LatencyStats { p50: 0, p95: 0, p99: 0 }
    }
}

/// The latest samples, in a ring: while there is room a sample is appended;
/// after that it takes the place of the oldest one.
#[derive(Debug)]
pub struct LatencySamples {
    pub buf: Vec<u64>,
    pub next: usize,
    pub len: usize,
}

/// The samples held, oldest first.
impl View for LatencySamples {
    type V = Seq<u64>;

    open spec fn view(&self) -> Seq<u64> {
        self.buf@.skip(self.next as int) + self.buf@.take(self.next as int)
    }
}

/// The window after a sample: the latest ones, at most a window full.
pub open spec fn recorded(window: Seq<u64>, us: u64) -> Seq<u64> {
    if window.len() < LATENCY_BUF_CAP {
        window.push(us)
    } else {
        window.push(us).drop_first()
    }
}

/// How many samples are at most the given one.
pub open spec fn at_most(s: Seq<u64>, x: u64) -> nat
    decreases s.len(),
{
    if s.len() == 0 {
        0
    } else {
        at_most(s.drop_last(), x) + (if s.last() <= x {
            1nat
        } else {
            0
        })
    }
}

/// How many samples are less than the given one.
pub open spec fn below(s: Seq<u64>, x: u64) -> nat
    decreases s.len(),
{
    if s.len() == 0 {
        0
    } else {
        below(s.drop_last(), x) + (if s.last() < x {
            1nat
        } else {
            0
        })
    }
}

/// The position of a percentile among `n` samples in ascending order: the
/// smallest one that at least `p` hundredths of the samples reach.
pub open spec fn rank(p: int, n: int) -> int {
    (p * n + 99) / 100 - 1
}

/// The sample stands at position `k` when the samples are in ascending order.
pub open spec fn ranked(s: Seq<u64>, k: int, x: u64) -> bool {
    below(s, x) <= k < at_most(s, x)
}

/// The percentiles of the samples; zeros where there are none.
pub open spec fn are_percentiles(s: Seq<u64>, r: LatencyStats) -> bool {
    if s.len() == 0 {
        r == (LatencyStats { p50: 0, p95: 0, p99: 0 })
    } else {
        &&& ranked(s, rank(50, s.len() as int), r.p50)
        &&& ranked(s, rank(95, s.len() as int), r.p95)
        &&& ranked(s, rank(99, s.len() as int), r.p99)
    }
}

/// The samples ascend.
pub open spec fn ascending(s: Seq<u64>) -> bool {
    forall|i: int, j: int| 0 <= i <= j < s.len() ==> #[trigger] s[i] <= #[trigger] s[j]
}

proof fn lemma_counts_insert(s: Seq<u64>, p: int, x: u64, y: u64)
    requires
        0 <= p <= s.len(),
    ensures
        at_most(s.insert(p, x), y) == at_most(s, y) + (if x <= y {
            1nat
        } else {
            0
        }),
        below(s.insert(p, x), y) == below(s, y) + (if x < y {
            1nat
        } else {
            0
        }),
    decreases s.len(),
{
    let t = s.insert(p, x);
    if p == s.len() {
        assert(t.drop_last() =~= s);
    } else {
        lemma_counts_insert(s.drop_last(), p, x, y);
        assert(t.drop_last() =~= s.drop_last().insert(p, x));
    }
}

proof fn lemma_counts_add(a: Seq<u64>, b: Seq<u64>, y: u64)
    ensures
        at_most(a + b, y) == at_most(a, y) + at_most(b, y),
        below(a + b, y) == below(a, y) + below(b, y),
    decreases b.len(),
{
    if b.len() == 0 {
        assert(a + b =~= a);
    } else {
        lemma_counts_add(a, b.drop_last(), y);
        assert((a + b).drop_last() =~= a + b.drop_last());
    }
}

proof fn lemma_at_most_reaches(s: Seq<u64>, m: int, x: u64)
    requires
        0 <= m <= s.len(),
        forall|i: int| 0 <= i < m ==> #[trigger] s[i] <= x,
    ensures
        at_most(s, x) >= m,
    decreases s.len(),
{
    if s.len() > 0 {
        if m == s.len() {
            lemma_at_most_reaches(s.drop_last(), m - 1, x);
        } else {
            lemma_at_most_reaches(s.drop_last(), m, x);
        }
    }
}

proof fn lemma_below_stops(s: Seq<u64>, m: int, x: u64)
    requires
        0 <= m <= s.len(),
        forall|i: int| m <= i < s.len() ==> #[trigger] s[i] >= x,
    ensures
        below(s, x) <= m,
    decreases s.len(),
{
    if s.len() > 0 {
        if m == s.len() {
            lemma_below_stops(s.drop_last(), m - 1, x);
        } else {
            lemma_below_stops(s.drop_last(), m, x);
        }
    }
}

/// Fewer samples are less than a sample than are at most a smaller one.
proof fn lemma_below_at_most(s: Seq<u64>, x: u64, y: u64)
    requires
        x < y,
    ensures
        at_most(s, x) <= below(s, y),
    decreases s.len(),
{
    if s.len() > 0 {
        lemma_below_at_most(s.drop_last(), x, y);
    }
}

proof fn lemma_counted_is_held(s: Seq<u64>, x: u64)
    requires
        below(s, x) < at_most(s, x),
    ensures
        s.contains(x),
    decreases s.len(),
{
    if s.len() > 0 {
        if s.last() == x {
            assert(s[s.len() - 1] == x);
        } else {
            lemma_counted_is_held(s.drop_last(), x);
            let p = s.drop_last().index_of(x);
            assert(s[p] == x);
        }
    }
}

/// Only one sample value stands at a position, and it is one of the samples.
pub proof fn law_ranked_sample_is_unique(s: Seq<u64>, k: int, x: u64, y: u64)
    requires
        ranked(s, k, x),
        ranked(s, k, y),
    ensures
        x == y,
        s.contains(x),
{
    if x < y {
        lemma_below_at_most(s, x, y);
    } else if y < x {
        lemma_below_at_most(s, y, x);
    }
    lemma_counted_is_held(s, x);
}

/// Percentiles ascend.
pub proof fn law_percentiles_ascend(s: Seq<u64>, r: LatencyStats)
    requires
        are_percentiles(s, r),
    ensures
        r.p50 <= r.p95 <= r.p99,
{
    if s.len() > 0 {
        if r.p95 < r.p50 {
            lemma_below_at_most(s, r.p95, r.p50);
        }
        if r.p99 < r.p95 {
            lemma_below_at_most(s, r.p99, r.p95);
        }
    }
}

/// The window after a series of samples.
pub open spec fn all_recorded(samples: Seq<u64>) -> Seq<u64>
    decreases samples.len(),
{
    if samples.len() == 0 {
        Seq::empty()
    } else {
        recorded(all_recorded(samples.drop_last()), samples.last())
    }
}

/// The window holds the latest samples, in the order they came, and nothing
/// else: all of them while they fit, a window full after that.
pub proof fn law_window_is_latest(samples: Seq<u64>)
    ensures
        all_recorded(samples) == (if samples.len() <= LATENCY_BUF_CAP {
            samples
        } else {
            samples.skip(samples.len() - LATENCY_BUF_CAP)
        }),
    decreases samples.len(),
{
    if samples.len() > 0 {
        law_window_is_latest(samples.drop_last());
        assert(samples.drop_last().push(samples.last()) =~= samples);
        if samples.len() > LATENCY_BUF_CAP {
            let n = samples.len() - LATENCY_BUF_CAP;
            let earlier = all_recorded(samples.drop_last());
            assert(earlier =~= samples.drop_last().skip(n - 1));
            assert(earlier.push(samples.last()).drop_first() =~= samples.skip(n));
        }
    } else {
        assert(samples =~= Seq::<u64>::empty());
    }
}

/// Inserts a sample into ascending ones.
fn place(v: &mut Vec<u64>, x: u64)
    requires
        ascending(old(v)@),
        old(v)@.len() < LATENCY_BUF_CAP,
    ensures
        ascending(final(v)@),
        final(v)@.len() == old(v)@.len() + 1,
        forall|y: u64| #[trigger]
            at_most(final(v)@, y) == at_most(old(v)@, y) + (if x <= y {
                1nat
            } else {
                0
            }),
        forall|y: u64| #[trigger]
            below(final(v)@, y) == below(old(v)@, y) + (if x < y {
                1nat
            } else {
                0
            }),
{
    let mut p: usize = v.len();
    while p > 0 && v[p - 1] > x
        invariant
            p <= v@.len(),
            v@ == old(v)@,
            ascending(v@),
            forall|i: int| p <= i < v@.len() ==> #[trigger] v@[i] > x,
        decreases p,
    {
        p = p - 1;
    }
    let ghost before = v@;
    v.insert(p, x);
    proof {
        assert forall|i: int, j: int| 0 <= i <= j < v@.len() implies #[trigger] v@[i]
            <= #[trigger] v@[j] by {
            if i < p && p > 0 {
                assert(before[i] <= before[p - 1]);
            }
        }
        assert forall|y: u64| #[trigger]
            at_most(v@, y) == at_most(before, y) + (if x <= y {
                1nat
            } else {
                0
            }) by {
            lemma_counts_insert(before, p as int, x, y);
        }
        assert forall|y: u64| #[trigger]
            below(v@, y) == below(before, y) + (if x < y {
                1nat
            } else {
                0
            }) by {
            lemma_counts_insert(before, p as int, x, y);
        }
    }
}

fn position(p: u32, n: usize) -> (k: usize)
    requires
        1 <= n <= LATENCY_BUF_CAP,
        1 <= p <= 100,
    ensures
        k == rank(p as int, n as int),
        k < n,
{
    let ghost m = p * n;
    assert(1 <= m <= 100 * n) by (nonlinear_arith)
        requires
            m == p * n,
            1 <= p <= 100,
            1 <= n,
    ;
    let reach: u64 = p as u64 * n as u64;
    ((reach + 99) / 100 - 1) as usize
}

impl LatencySamples {
    /// The ring is in order: nothing is lost or invented.
    pub open spec fn wf(&self) -> bool {
        &&& self.buf@.len() <= LATENCY_BUF_CAP
        &&& self.len == self.buf@.len()
        &&& self.buf@.len() < LATENCY_BUF_CAP ==> self.next == self.buf@.len()
        &&& self.buf@.len() == LATENCY_BUF_CAP ==> self.next < LATENCY_BUF_CAP
    }

    /// Adds a sample, in place of the oldest one where the ring is full.
    pub fn record(&mut self, us: u64)
        requires
            old(self).wf(),
        ensures
            final(self).wf(),
            final(self)@ == recorded(old(self)@, us),
            old(self).buf@.len() < LATENCY_BUF_CAP ==> final(self).buf@ == old(self).buf@.push(us),
            old(self).buf@.len() == LATENCY_BUF_CAP ==> final(self).buf@ == old(self).buf@.update(
                old(self).next as int,
                us,
            ),
            old(self).buf@.len() + 1 < LATENCY_BUF_CAP ==> final(self).next == old(self).next + 1,
            old(self).buf@.len() + 1 >= LATENCY_BUF_CAP ==> final(self).next == (old(self).next + 1)
                % LATENCY_BUF_CAP as int,
    {
        let ghost held = self@;
        let ghost buf = self.buf@;
        let ghost next = self.next as int;
        if self.buf.len() < LATENCY_BUF_CAP {
            self.buf.push(us);
            self.next = self.buf.len() % LATENCY_BUF_CAP;
            self.len = self.buf.len();
            proof {
                assert(held =~= buf);
                assert(self@ =~= buf.push(us));
            }
        } else {
            let i: usize = self.next;
            self.buf.set(i, us);
            self.next = (self.next + 1) % LATENCY_BUF_CAP;
            self.len = LATENCY_BUF_CAP;
            proof {
                assert(self@ =~= held.push(us).drop_first());
            }
        }
    }

    /// The percentiles of the samples held.
    pub fn percentiles(&self) -> (r: LatencyStats)
        requires
            self.wf(),
        ensures
            are_percentiles(self@, r),
    {
        if self.buf.len() == 0 {
            assert(self@.len() == 0);
            return LatencyStats::default();
        }
        let mut v: Vec<u64> = Vec::new();
        let mut i: usize = 0;
        assert(self.buf@.take(0) =~= Seq::<u64>::empty());
        while i < self.buf.len()
            invariant
                i <= self.buf@.len(),
                self.buf@.len() <= LATENCY_BUF_CAP,
                v@.len() == i,
                ascending(v@),
                forall|y: u64| #[trigger]
                    at_most(v@, y) == at_most(self.buf@.take(i as int), y),
                forall|y: u64| #[trigger] below(v@, y) == below(self.buf@.take(i as int), y),
            decreases self.buf@.len() - i,
        {
            proof {
                let next = self.buf@.take(i as int + 1);
                assert(next.drop_last() =~= self.buf@.take(i as int));
                assert(next.last() == self.buf@[i as int]);
            }
            place(&mut v, self.buf[i]);
            i = i + 1;
        }
        let n: usize = v.len();
        let a: usize = position(50, n);
        let b: usize = position(95, n);
        let c: usize = position(99, n);
        let r = LatencyStats { p50: v[a], p95: v[b], p99: v[c] };
        proof {
            assert(self.buf@.take(n as int) =~= self.buf@);
            let head = self.buf@.take(self.next as int);
            let tail = self.buf@.skip(self.next as int);
            assert(head + tail =~= self.buf@);
            assert(self@.len() == n);
            assert forall|k: int| 0 <= k < n implies ranked(self@, k, #[trigger] v@[k]) by {
                let x = v@[k];
                lemma_at_most_reaches(v@, k + 1, x);
                lemma_below_stops(v@, k, x);
                lemma_counts_add(head, tail, x);
                lemma_counts_add(tail, head, x);
            }
        }
        r
    }
}

impl Default for LatencySamples {
    fn default() -> (r: LatencySamples)
        ensures
            r.wf(),
            r@ == Seq::<u64>::empty(),
            r.buf@ == Seq::<u64>::empty(),
    {
        let r = LatencySamples { buf: Vec::new(), next: 0, len: 0 };
        assert(r@ =~= Seq::<u64>::empty());
        r
    }
}

} // verus!
