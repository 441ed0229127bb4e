//! The activity feed: what was written, as it is committed. A bounded ring
//! keeps the latest events for those who connect later.
#[allow(unused_imports)]
use vstd::prelude::*;
#[allow(unused_imports)]
use vstd::string::*;

use std::collections::VecDeque;

use crate::text;
use crate::text::same;
use crate::txn;
use crate::txn::{DocOp, OpKind, OpV};

verus! {

/// A write, as the feed tells of it.
#[derive(Debug, Clone)]
pub struct OpEvent {
    pub db: String,
    pub table: String,
    pub doc_id: String,
    pub kind: OpKind,
    pub ts: i64,
    pub owner: Option<String>,
    /// The place of the event in the feed, from one.
    pub seq: u64,
    /// The feed; another one means that places are counted anew.
    pub feed_epoch: String,
}

/// The mathematical form of an event.
pub struct EventV {
    pub db: Seq<char>,
    pub table: Seq<char>,
    pub doc_id: Seq<char>,
    pub kind: OpKind,
    pub ts: i64,
    pub owner: Option<Seq<char>>,
    pub seq: u64,
    pub feed_epoch: Seq<char>,
}

impl View for OpEvent {
    type V = EventV;

    open spec fn view(&self) -> EventV {
        EventV {
            db: self.db@,
            table: self.table@,
            doc_id: self.doc_id@,
            kind: self.kind,
            ts: self.ts,
            owner: text::opt_str(self.owner),
            seq: self.seq,
            feed_epoch: self.feed_epoch@,
        }
    }
}

/// The views of events.
pub open spec fn event_views(v: Seq<OpEvent>) -> Seq<EventV> {
    Seq::new(v.len(), |i: int| v[i]@)
}

impl OpEvent {
    /// A copy of the event.
    pub fn copy(&self) -> (r: OpEvent)
        ensures
            r@ == self@,
    {
        OpEvent {
            db: self.db.clone(),
            table: self.table.clone(),
            doc_id: self.doc_id.clone(),
            kind: self.kind,
            ts: self.ts,
            owner: self.owner.clone(),
            seq: self.seq,
            feed_epoch: self.feed_epoch.clone(),
        }
    }
}

/// A feed and the events it keeps.
#[derive(Debug)]
pub struct OpFeed {
    pub ring: VecDeque<OpEvent>,
    pub ring_cap: usize,
    pub seq: u64,
    pub feed_epoch: String,
}

/// The mathematical form of a feed.
pub struct FeedV {
    pub ring: Seq<EventV>,
    pub ring_cap: usize,
    pub seq: u64,
    pub feed_epoch: Seq<char>,
}

impl View for OpFeed {
    type V = FeedV;

    open spec fn view(&self) -> FeedV {
        FeedV {
            ring: event_views(self.ring@),
            ring_cap: self.ring_cap,
            seq: self.seq,
            feed_epoch: self.feed_epoch@,
        }
    }
}

/// A feed that has told nothing yet.
pub open spec fn empty_feed(ring_cap: usize, epoch: Seq<char>) -> FeedV {
    FeedV { ring: Seq::empty(), ring_cap, seq: 0, feed_epoch: epoch }
}

/// The place after a place; places start anew at the end of their range.
pub open spec fn next_seq(seq: u64) -> u64 {
    if seq == u64::MAX {
        0
    } else {
        (seq + 1) as u64
    }
}

/// An event in its place in the feed.
pub open spec fn stamped(f: FeedV, e: EventV) -> EventV {
    EventV { seq: next_seq(f.seq), feed_epoch: f.feed_epoch, ..e }
}

/// The feed after an event: a full ring lets its oldest event go.
pub open spec fn told(f: FeedV, e: EventV) -> FeedV {
    let kept = if f.ring.len() >= f.ring_cap && f.ring.len() > 0 {
        f.ring.drop_first()
    } else {
        f.ring
    };
    FeedV { ring: kept.push(stamped(f, e)), seq: next_seq(f.seq), ..f }
}

/// The event of a write, before it has its place.
pub open spec fn event_of(db: Seq<char>, owner: Option<Seq<char>>, op: OpV, ts: i64) -> EventV {
    EventV {
        db,
        table: op.table,
        doc_id: op.id,
        kind: op.kind,
        ts,
        owner,
        seq: 0,
        feed_epoch: Seq::empty(),
    }
}

/// The feed after several writes.
pub open spec fn all_told(
    f: FeedV,
    db: Seq<char>,
    owner: Option<Seq<char>>,
    ops: Seq<OpV>,
    ts: i64,
) -> FeedV
    decreases ops.len(),
{
    if ops.len() == 0 {
        f
    } else {
        told(all_told(f, db, owner, ops.drop_last(), ts), event_of(db, owner, ops.last(), ts))
    }
}

/// The events of several writes, in their places.
pub open spec fn all_events(
    f: FeedV,
    db: Seq<char>,
    owner: Option<Seq<char>>,
    ops: Seq<OpV>,
    ts: i64,
) -> Seq<EventV> {
    Seq::new(
        ops.len(),
        |i: int|
            stamped(all_told(f, db, owner, ops.take(i), ts), event_of(db, owner, ops[i], ts)),
    )
}

/// The event is of the database and of the table, where they are given.
pub open spec fn asked_for(e: EventV, db: Option<Seq<char>>, table: Option<Seq<char>>) -> bool {
    (db matches Some(d) ==> e.db == d) && (table matches Some(t) ==> e.table == t)
}

/// The events that are asked for, in order.
pub open spec fn matching(es: Seq<EventV>, db: Option<Seq<char>>, table: Option<Seq<char>>) -> Seq<
    EventV,
>
    decreases es.len(),
{
    if es.len() == 0 {
        Seq::empty()
    } else if asked_for(es.last(), db, table) {
        matching(es.drop_last(), db, table).push(es.last())
    } else {
        matching(es.drop_last(), db, table)
    }
}

/// The last `n` events.
pub open spec fn latest(es: Seq<EventV>, n: usize) -> Seq<EventV> {
    if es.len() <= n {
        es
    } else {
        es.skip(es.len() - n)
    }
}

/// A digit of a hexadecimal number, in lower case.
pub open spec fn hex_digit(c: char) -> bool {
    ('0' <= c && c <= '9') || ('a' <= c && c <= 'f')
}

/// The text is an identifier of 128 bits in hexadecimal.
pub open spec fn simple_uuid(s: Seq<char>) -> bool {
    s.len() == 32 && forall|i: int| 0 <= i < s.len() ==> hex_digit(#[trigger] s[i])
}

/// `uuid::Uuid::now_v7` in its `simple` form: a fresh identifier that depends on
/// the time and on chance. Of every outcome it is known that it is 32
/// hexadecimal digits in lower case; that two outcomes differ is not claimed.
#[verifier::external_body]
fn fresh_epoch() -> (s: String)
    ensures
        simple_uuid(s@),
{
    uuid::Uuid::now_v7().simple().to_string()
}

impl OpFeed {
    /// A feed that keeps up to `ring_cap` events.
    pub fn new(ring_cap: usize) -> (f: OpFeed)
        ensures
            simple_uuid(f@.feed_epoch),
            f@ == empty_feed(ring_cap, f@.feed_epoch),
    {
        OpFeed::with_epoch(ring_cap, fresh_epoch())
    }

    /// A feed with the given identity.
    pub fn with_epoch(ring_cap: usize, feed_epoch: String) -> (f: OpFeed)
        ensures
            f@ == empty_feed(ring_cap, feed_epoch@),
    {
        let f = OpFeed { ring: VecDeque::new(), ring_cap, seq: 0, feed_epoch };
        assert(event_views(f.ring@) =~= Seq::<EventV>::empty());
        f
    }

    /// Puts an event in its place. Gives the event as subscribers hear of it.
    fn push_event(&mut self, event: OpEvent) -> (r: OpEvent)
        ensures
            final(self)@ == told(old(self)@, event@),
            r@ == stamped(old(self)@, event@),
    {
        let ghost before = self@;
        let ghost ev = event@;
        let mut event = event;
        self.seq = if self.seq == u64::MAX {
            0
        } else {
            self.seq + 1
        };
        event.seq = self.seq;
        event.feed_epoch = self.feed_epoch.clone();
        assert(event@ == stamped(before, ev));
        let ghost kept = if before.ring.len() >= before.ring_cap && before.ring.len() > 0 {
            before.ring.drop_first()
        } else {
            before.ring
        };
        if self.ring.len() >= self.ring_cap {
            let ghost held = self.ring@;
            let oldest = self.ring.pop_front();
            proof {
                if held.len() > 0 {
                    assert(event_views(self.ring@) =~= before.ring.drop_first());
                } else {
                    assert(event_views(self.ring@) =~= before.ring);
                }
            }
        }
        assert(event_views(self.ring@) =~= kept);
        let sent = event.copy();
        self.ring.push_back(event);
        assert(event_views(self.ring@) =~= kept.push(stamped(before, ev)));
        sent
    }

    /// Tells of the writes of a transaction, one event each, all at one time.
    /// Gives the events for those who listen.
    pub fn publish(&mut self, db: &str, owner: Option<&str>, ops: &Vec<DocOp>, ts: i64) -> (r: Vec<
        OpEvent,
    >)
        ensures
            final(self)@ == all_told(
                old(self)@,
                db@,
                text::opt_slice(owner),
                txn::op_views(ops@),
                ts,
            ),
            event_views(r@) == all_events(
                old(self)@,
                db@,
                text::opt_slice(owner),
                txn::op_views(ops@),
                ts,
            ),
    {
        let ghost before = self@;
        let ghost ov = txn::op_views(ops@);
        let ghost own = text::opt_slice(owner);
        let mut out: Vec<OpEvent> = Vec::new();
        let mut i: usize = 0;
        assert(ov.take(0) =~= Seq::<OpV>::empty());
        while i < ops.len()
            invariant
                i <= ops@.len(),
                ov == txn::op_views(ops@),
                own == text::opt_slice(owner),
                self@ == all_told(before, db@, own, ov.take(i as int), ts),
                out@.len() == i,
                forall|k: int|
                    0 <= k < i ==> (#[trigger] out@[k])@ == all_events(before, db@, own, ov, ts)[k],
            decreases ops@.len() - i,
        {
            assert(ov.take(i as int + 1).drop_last() =~= ov.take(i as int));
            assert(ov.take(i as int + 1).last() == ov[i as int]);
            let event = OpEvent {
                db: db.to_owned(),
                table: ops[i].table.clone(),
                doc_id: ops[i].id.clone(),
                kind: ops[i].kind,
                ts,
                owner: match owner {
                    Some(o) => Some(o.to_owned()),
                    None => None,
                },
                seq: 0,
                feed_epoch: String::new(),
            };
            assert(event@.feed_epoch =~= Seq::<char>::empty());
            assert(event@ == event_of(db@, own, ov[i as int], ts));
            let sent = self.push_event(event);
            out.push(sent);
            i = i + 1;
        }
        assert(ov.take(ops@.len() as int) =~= ov);
        assert(event_views(out@) =~= all_events(before, db@, own, ov, ts));
        out
    }

    /// Takes in an event of another instance. It keeps its time and gets a place
    /// in this feed.
    pub fn publish_injected(&mut self, event: OpEvent) -> (r: OpEvent)
        ensures
            final(self)@ == told(old(self)@, event@),
            r@ == stamped(old(self)@, event@),
    {
        self.push_event(event)
    }

    /// The latest events of a database and a table, at most `n`, oldest first.
    pub fn recent(&self, db: Option<&str>, table: Option<&str>, n: usize) -> (r: Vec<OpEvent>)
        ensures
            event_views(r@) == latest(
                matching(self@.ring, text::opt_slice(db), text::opt_slice(table)),
                n,
            ),
    {
        let ghost es = self@.ring;
        let ghost d = text::opt_slice(db);
        let ghost t = text::opt_slice(table);
        let mut found: Vec<usize> = Vec::new();
        let mut i: usize = 0;
        assert(es.take(0) =~= Seq::<EventV>::empty());
        while i < self.ring.len()
            invariant
                i <= self.ring@.len(),
                es == event_views(self.ring@),
                d == text::opt_slice(db),
                t == text::opt_slice(table),
                found@.len() == matching(es.take(i as int), d, t).len(),
                forall|k: int|
                    0 <= k < found@.len() ==> (#[trigger] found@[k]) < es.len() && es[found@[k] as int]
                        == matching(es.take(i as int), d, t)[k],
            decreases self.ring@.len() - i,
        {
            assert(es.take(i as int + 1).drop_last() =~= es.take(i as int));
            assert(es.take(i as int + 1).last() == es[i as int]);
            let e = &self.ring[i];
            let of_db = match db {
                Some(x) => same(e.db.as_str(), x),
                None => true,
            };
            let of_table = match table {
                Some(x) => same(e.table.as_str(), x),
                None => true,
            };
            if of_db && of_table {
                found.push(i);
            }
            i = i + 1;
        }
        assert(es.take(self.ring@.len() as int) =~= es);
        let ghost all = matching(es, d, t);
        let from: usize = if found.len() <= n {
            0
        } else {
            found.len() - n
        };
        let mut out: Vec<OpEvent> = Vec::new();
        let mut j: usize = from;
        while j < found.len()
            invariant
                from <= j <= found@.len(),
                es == event_views(self.ring@),
                found@.len() == all.len(),
                forall|k: int|
                    0 <= k < found@.len() ==> (#[trigger] found@[k]) < es.len() && es[found@[k] as int]
                        == all[k],
                out@.len() == j - from,
                forall|k: int| 0 <= k < out@.len() ==> (#[trigger] out@[k])@ == all[from + k],
            decreases found@.len() - j,
        {
            let at: usize = found[j];
            out.push(self.ring[at].copy());
            j = j + 1;
        }
        assert(event_views(out@) =~= latest(all, n));
        out
    }
}

/// The feed counts its events without a gap: the newest event it keeps has the
/// place it last gave, each older one the place before.
pub open spec fn in_series(f: FeedV) -> bool {
    forall|i: int|
        0 <= i < f.ring.len() ==> (#[trigger] f.ring[i]).seq == f.seq - (f.ring.len() - 1 - i)
            && f.ring[i].feed_epoch == f.feed_epoch
}

/// A feed counts without a gap from the start.
pub proof fn law_series_at_start(ring_cap: usize, epoch: Seq<char>)
    ensures
        in_series(empty_feed(ring_cap, epoch)),
{
}

/// A feed goes on counting without a gap, whatever it is told, until its places
/// are used up. An event of another instance gets a place like any other.
pub proof fn law_series_goes_on(f: FeedV, e: EventV)
    requires
        in_series(f),
        f.seq < u64::MAX,
    ensures
        in_series(told(f, e)),
        told(f, e).seq == f.seq + 1,
        told(f, e).ring.last().seq == f.seq + 1,
        told(f, e).ring.last().ts == e.ts,
{
    let g = told(f, e);
    let dropped = f.ring.len() >= f.ring_cap && f.ring.len() > 0;
    assert forall|i: int| 0 <= i < g.ring.len() implies (#[trigger] g.ring[i]).seq == g.seq - (
    g.ring.len() - 1 - i) && g.ring[i].feed_epoch == g.feed_epoch by {
        if i < g.ring.len() - 1 {
            let was = if dropped {
                i + 1
            } else {
                i
            };
            assert(g.ring[i] == f.ring[was]);
        }
    }
}

/// A ring that is within its limit stays within it. A ring without room keeps
/// the newest event.
pub proof fn law_ring_is_bounded(f: FeedV, e: EventV)
    requires
        f.ring.len() <= f.ring_cap || f.ring.len() <= 1,
    ensures
        told(f, e).ring.len() <= f.ring_cap || told(f, e).ring.len() <= 1,
{
}

proof fn lemma_matching(es: Seq<EventV>, db: Option<Seq<char>>, table: Option<Seq<char>>)
    ensures
        forall|i: int|
            0 <= i < matching(es, db, table).len() ==> asked_for(
                #[trigger] matching(es, db, table)[i],
                db,
                table,
            ) && es.contains(matching(es, db, table)[i]),
        matching(es, db, table).len() <= es.len(),
    decreases es.len(),
{
    if es.len() > 0 {
        let head = es.drop_last();
        lemma_matching(head, db, table);
        let r = matching(es, db, table);
        let h = matching(head, db, table);
        assert forall|i: int| 0 <= i < r.len() implies asked_for(#[trigger] r[i], db, table)
            && es.contains(r[i]) by {
            if i < h.len() {
                assert(r[i] == h[i]);
                assert(head.contains(h[i]));
                let p = head.index_of(h[i]);
                assert(es[p] == r[i]);
            } else {
                assert(es[es.len() - 1] == r[i]);
            }
        }
    }
}

/// Recent events are events of the ring that were asked for, and no more than
/// asked for.
pub proof fn law_recent_is_what_was_asked(
    f: FeedV,
    db: Option<Seq<char>>,
    table: Option<Seq<char>>,
    n: usize,
)
    ensures
        latest(matching(f.ring, db, table), n).len() <= n,
        forall|i: int|
            0 <= i < latest(matching(f.ring, db, table), n).len() ==> asked_for(
                #[trigger] latest(matching(f.ring, db, table), n)[i],
                db,
                table,
            ) && f.ring.contains(latest(matching(f.ring, db, table), n)[i]),
{
    lemma_matching(f.ring, db, table);
    let m = matching(f.ring, db, table);
    let r = latest(m, n);
    assert forall|i: int| 0 <= i < r.len() implies asked_for(#[trigger] r[i], db, table)
        && f.ring.contains(r[i]) by {
        if m.len() > n {
            assert(r[i] == m[m.len() - n + i]);
        }
    }
}

} // verus!
