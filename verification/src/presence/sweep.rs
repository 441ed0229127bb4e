//! Work over all databases: clearing overdue states, counting, and telling the
//! other instances of every room.
#[allow(unused_imports)]
use vstd::prelude::*;
#[allow(unused_imports)]
use vstd::string::*;

use crate::metrics::counters;
use crate::metrics::counters::{Metrics, MetricsV, Totals};
use crate::presence::db;
use crate::presence::db::{DbPresence, DbV, SessionV};
use crate::presence::manager;
use crate::presence::manager::{
    Broadcast, ManagerV, PayloadV, PresenceManager, PresenceNotifyPayload, RoomKey,
};
use crate::strmap;
use crate::sums;
use crate::text;
use crate::text::same;

verus! {

/// A state that was cleared.
#[derive(Debug)]
pub struct Cleared {
    pub db: String,
    pub room: String,
    pub conn: u64,
}

/// The mathematical form of a cleared state: database, room and connection.
pub open spec fn cleared_views(v: Seq<Cleared>) -> Seq<(Seq<char>, Seq<char>, u64)> {
    Seq::new(v.len(), |i: int| (v[i].db@, v[i].room@, v[i].conn))
}

/// The state of the connection in the room of the database is overdue.
pub open spec fn overdue_at(m: ManagerV, key: (Seq<char>, Seq<char>, u64), now: i64) -> bool {
    m.dbs.contains_key(key.0) && db::overdue_in(m.dbs[key.0], (key.1, key.2), now)
}

/// The presence after the overdue states of all databases were cleared.
pub open spec fn all_lapsed(m: ManagerV, now: i64) -> ManagerV {
    ManagerV {
        dbs: Map::new(
            |k: Seq<char>| m.dbs.contains_key(k),
            |k: Seq<char>| db::lapsed_db(m.dbs[k], now),
        ),
        ..m
    }
}

/// A cleared state comes before another: by database, room and connection.
pub open spec fn sooner(a: (Seq<char>, Seq<char>, u64), b: (Seq<char>, Seq<char>, u64)) -> bool {
    text::chars_lt(a.0, b.0) || (a.0 == b.0 && db::earlier((a.1, a.2), (b.1, b.2)))
}

/// The list holds exactly the overdue states, each once, in order.
pub open spec fn lists_cleared(
    list: Seq<(Seq<char>, Seq<char>, u64)>,
    m: ManagerV,
    now: i64,
) -> bool {
    &&& forall|i: int, j: int|
        0 <= i < j < list.len() ==> sooner(#[trigger] list[i], #[trigger] list[j])
    &&& forall|i: int| 0 <= i < list.len() ==> overdue_at(m, #[trigger] list[i], now)
    &&& forall|key: (Seq<char>, Seq<char>, u64)| #[trigger]
        overdue_at(m, key, now) ==> list.contains(key)
}

/// The rooms to broadcast with those of cleared states.
pub open spec fn cleared_marked(
    dirty: Seq<(Seq<char>, Seq<char>)>,
    list: Seq<(Seq<char>, Seq<char>, u64)>,
) -> Seq<(Seq<char>, Seq<char>)>
    decreases list.len(),
{
    if list.len() == 0 {
        dirty
    } else {
        manager::marked(
            cleared_marked(dirty, list.drop_last()),
            (list.last().0, list.last().1),
        )
    }
}

/// The rooms of cleared states: states of one room stand together.
pub open spec fn cleared_rooms(list: Seq<(Seq<char>, Seq<char>, u64)>) -> Seq<
    (Seq<char>, Seq<char>),
>
    decreases list.len(),
{
    if list.len() == 0 {
        Seq::empty()
    } else {
        let head = cleared_rooms(list.drop_last());
        let key = (list.last().0, list.last().1);
        if head.len() > 0 && head.last() == key {
            head
        } else {
            head.push(key)
        }
    }
}

/// What the other instances are told of rooms, where there are any instances.
pub open spec fn told(m: ManagerV, keys: Seq<(Seq<char>, Seq<char>)>) -> Seq<PayloadV> {
    if m.multi_instance {
        Seq::new(keys.len(), |i: int| manager::payload(m, keys[i].0, keys[i].1))
    } else {
        Seq::empty()
    }
}

/// What clearing overdue states did: the states, and what to tell the other
/// instances.
#[derive(Debug)]
pub struct Sweep {
    pub cleared: Vec<Cleared>,
    pub payloads: Vec<PresenceNotifyPayload>,
}

/// The rooms of all databases, each once.
pub open spec fn lists_rooms(keys: Seq<(Seq<char>, Seq<char>)>, m: ManagerV) -> bool {
    &&& keys.no_duplicates()
    &&& forall|key: (Seq<char>, Seq<char>)| #[trigger]
        keys.contains(key) <==> m.dbs.contains_key(key.0) && m.dbs[key.0].rooms.contains_key(key.1)
}

/// How many rooms a database has.
pub open spec fn rooms_in(d: DbV) -> int {
    d.rooms.dom().len() as int
}

/// How many sessions a database has.
pub open spec fn sessions_in(d: DbV) -> int {
    sums::sum(d.rooms, |r: Map<u64, SessionV>| r.dom().len() as int)
}

/// A count as a machine number; the largest one where it is beyond it.
pub open spec fn bounded(n: int) -> usize {
    if n > usize::MAX {
        usize::MAX
    } else {
        n as usize
    }
}

fn add(a: usize, b: usize) -> (r: usize)
    ensures
        r == bounded(a + b),
{
    a.saturating_add(b)
}

/// How many sessions a database has.
fn count_sessions(d: &DbPresence) -> (r: usize)
    ensures
        r == bounded(sessions_in(d@)),
{
    let n: usize = d.rooms.len();
    proof {
        d.rooms.lemma_keys();
    }
    let ghost keys = d.rooms.keys();
    let ghost f = |r: Map<u64, SessionV>| r.dom().len() as int;
    let mut total: usize = 0;
    let mut i: usize = 0;
    while i < n
        invariant
            i <= n,
            n == keys.len(),
            keys == d.rooms.keys(),
            f == (|r: Map<u64, SessionV>| r.dom().len() as int),
            0 <= sums::partial(d.rooms@, f, keys, i as int),
            total == bounded(sums::partial(d.rooms@, f, keys, i as int)),
        decreases n - i,
    {
        let size: usize = d.rooms.value_at(i).len();
        total = self::add(total, size);
        i = i + 1;
    }
    proof {
        sums::lemma_sum_keys(d.rooms@, f, keys);
    }
    total
}

/// A room comes before another: by database, then by name.
pub open spec fn room_before(a: (Seq<char>, Seq<char>), b: (Seq<char>, Seq<char>)) -> bool {
    text::chars_lt(a.0, b.0) || (a.0 == b.0 && text::chars_lt(a.1, b.1))
}

proof fn lemma_cleared_rooms(list: Seq<(Seq<char>, Seq<char>, u64)>)
    requires
        forall|i: int, j: int|
            0 <= i < j < list.len() ==> sooner(#[trigger] list[i], #[trigger] list[j]),
    ensures
        list.len() > 0 ==> cleared_rooms(list).len() > 0 && cleared_rooms(list).last() == (
            list.last().0,
            list.last().1,
        ),
        forall|i: int, j: int|
            0 <= i < j < cleared_rooms(list).len() ==> room_before(
                #[trigger] cleared_rooms(list)[i],
                #[trigger] cleared_rooms(list)[j],
            ),
    decreases list.len(),
{
    if list.len() > 0 {
        let rest = list.drop_last();
        lemma_cleared_rooms(rest);
        let head = cleared_rooms(rest);
        let all = cleared_rooms(list);
        let key = (list.last().0, list.last().1);
        if rest.len() > 0 {
            assert(sooner(list[rest.len() - 1], list[rest.len() as int]));
            if head.last() != key {
                assert(room_before(head.last(), key));
                assert forall|i: int, j: int| 0 <= i < j < all.len() implies room_before(
                    #[trigger] all[i],
                    #[trigger] all[j],
                ) by {
                    if j < head.len() {
                        assert(room_before(head[i], head[j]));
                    } else if i < head.len() - 1 {
                        let mid = head.last();
                        assert(room_before(head[i], head[head.len() - 1]));
                        if text::chars_lt(head[i].0, mid.0) && text::chars_lt(mid.0, key.0) {
                            text::lemma_chars_lt_transitive(head[i].0, mid.0, key.0);
                        }
                        text::lemma_chars_lt_irreflexive(mid.0);
                        if head[i].0 == mid.0 && mid.0 == key.0 {
                            text::lemma_chars_lt_transitive(head[i].1, mid.1, key.1);
                        }
                    }
                }
            }
        }
    }
}

/// However many of its states are cleared at once, the other instances are told
/// of a room once.
pub proof fn law_each_room_is_told_once(
    list: Seq<(Seq<char>, Seq<char>, u64)>,
    m: ManagerV,
    now: i64,
)
    requires
        lists_cleared(list, m, now),
    ensures
        cleared_rooms(list).no_duplicates(),
{
    lemma_cleared_rooms(list);
    let rooms = cleared_rooms(list);
    assert forall|i: int, j: int|
        0 <= i < rooms.len() && 0 <= j < rooms.len() && i != j implies rooms[i] != rooms[j] by {
        text::lemma_chars_lt_irreflexive(rooms[i].0);
        text::lemma_chars_lt_irreflexive(rooms[i].1);
        if i < j {
            assert(room_before(rooms[i], rooms[j]));
        } else {
            assert(room_before(rooms[j], rooms[i]));
        }
    }
}

impl PresenceManager {
    /// How many rooms and sessions there are.
    pub fn counts(&self) -> (r: (usize, usize))
        ensures
            r.0 == bounded(sums::sum(self@.dbs, |d: DbV| rooms_in(d))),
            r.1 == bounded(sums::sum(self@.dbs, |d: DbV| sessions_in(d))),
    {
        let n: usize = self.dbs.len();
        proof {
            self.dbs.lemma_keys();
        }
        let ghost keys = self.dbs.keys();
        let ghost f = |d: DbV| rooms_in(d);
        let ghost g = |d: DbV| sessions_in(d);
        let mut rooms: usize = 0;
        let mut sessions: usize = 0;
        let mut i: usize = 0;
        while i < n
            invariant
                i <= n,
                n == keys.len(),
                keys == self.dbs.keys(),
                f == (|d: DbV| rooms_in(d)),
                g == (|d: DbV| sessions_in(d)),
                0 <= sums::partial(self.dbs@, f, keys, i as int),
                0 <= sums::partial(self.dbs@, g, keys, i as int),
                rooms == bounded(sums::partial(self.dbs@, f, keys, i as int)),
                sessions == bounded(sums::partial(self.dbs@, g, keys, i as int)),
            decreases n - i,
        {
            let d = self.dbs.value_at(i);
            let here: usize = d.rooms.len();
            let inside: usize = count_sessions(d);
            proof {
                lemma_sessions_positive(d);
            }
            rooms = self::add(rooms, here);
            sessions = self::add(sessions, inside);
            i = i + 1;
        }
        proof {
            sums::lemma_sum_keys(self.dbs@, f, keys);
            sums::lemma_sum_keys(self.dbs@, g, keys);
        }
        (rooms, sessions)
    }

    /// Clears every overdue state. Nobody leaves a room by it.
    pub fn expire_once(&mut self, now: i64) -> (r: Sweep)
        ensures
            ({
                let list = cleared_views(r.cleared@);
                let swept = all_lapsed(old(self)@, now);
                let after = ManagerV { dirty: cleared_marked(swept.dirty, list), ..swept };
                &&& lists_cleared(list, old(self)@, now)
                &&& final(self)@ == after
                &&& manager::payload_views(r.payloads@) == told(swept, cleared_rooms(list))
            }),
    {
        let ghost before = self@;
        let names = self.dbs.key_list();
        proof {
            self.dbs.lemma_keys();
        }
        let ghost keys = self.dbs.keys();
        let mut cleared: Vec<Cleared> = Vec::new();
        let mut i: usize = 0;
        assert(cleared_views(cleared@) =~= Seq::<(Seq<char>, Seq<char>, u64)>::empty());
        while i < names.len()
            invariant
                i <= names@.len(),
                text::strs(names@) == keys,
                strmap::ascending(keys),
                keys.no_duplicates(),
                forall|k: Seq<char>| #[trigger] before.dbs.contains_key(k) <==> keys.contains(k),
                self@ == (ManagerV { dbs: self@.dbs, ..before }),
                self@.dbs.dom() == before.dbs.dom(),
                forall|k: int|
                    0 <= k < names@.len() ==> before.dbs.contains_key(#[trigger] keys[k])
                        && self@.dbs[keys[k]] == (if k < i {
                        db::lapsed_db(before.dbs[keys[k]], now)
                    } else {
                        before.dbs[keys[k]]
                    }),
                forall|a: int, b: int|
                    0 <= a < b < cleared@.len() ==> sooner(
                        #[trigger] cleared_views(cleared@)[a],
                        #[trigger] cleared_views(cleared@)[b],
                    ),
                forall|k: int|
                    0 <= k < cleared@.len() ==> overdue_at(
                        before,
                        #[trigger] cleared_views(cleared@)[k],
                        now,
                    ),
                forall|k: int|
                    0 <= k < cleared@.len() ==> exists|p: int|
                        0 <= p < i && (#[trigger] cleared_views(cleared@)[k]).0
                            == #[trigger] keys[p],
                forall|key: (Seq<char>, Seq<char>, u64), p: int|
                    0 <= p < i && key.0 == #[trigger] keys[p] && #[trigger] overdue_at(
                        before,
                        key,
                        now,
                    ) ==> cleared_views(cleared@).contains(key),
            decreases names@.len() - i,
        {
            let ghost found = cleared_views(cleared@);
            let ghost here = found.len() as int;
            let name = names[i].as_str();
            assert(name@ == keys[i as int]);
            let list = self.sweep_db(name, now);
            assert(self@.dbs.dom() =~= before.dbs.dom());
            let ghost lv = db::expiry_views(list@);
            let mut j: usize = 0;
            while j < list.len()
                invariant
                    j <= list@.len(),
                    lv == db::expiry_views(list@),
                    here == found.len(),
                    cleared@.len() == here + j,
                    name@ == keys[i as int],
                    cleared_views(cleared@).take(here) == found,
                    forall|k: int|
                        0 <= k < j ==> #[trigger] cleared_views(cleared@)[here + k] == (
                            name@,
                            lv[k].0,
                            lv[k].1,
                        ),
                decreases list@.len() - j,
            {
                let ghost so_far = cleared_views(cleared@);
                let c = Cleared {
                    db: name.to_owned(),
                    room: list[j].room.clone(),
                    conn: list[j].conn,
                };
                cleared.push(c);
                assert(cleared_views(cleared@) =~= so_far.push(
                    (name@, lv[j as int].0, lv[j as int].1),
                ));
                assert(cleared_views(cleared@).take(here) =~= so_far.take(here));
                j = j + 1;
            }
            proof {
                let all = cleared_views(cleared@);
                assert forall|k: int| 0 <= k < all.len() implies (if k < here {
                    #[trigger] all[k] == found[k]
                } else {
                    all[k] == (name@, lv[k - here].0, lv[k - here].1)
                }) by {
                    if k < here {
                        assert(all.take(here)[k] == all[k]);
                    } else {
                        assert(all[here + (k - here)] == (name@, lv[k - here].0, lv[k - here].1));
                    }
                }
                assert forall|k: int| 0 <= k < all.len() implies overdue_at(
                    before,
                    #[trigger] all[k],
                    now,
                ) by {
                    if k >= here {
                        assert(db::overdue_in(before.dbs[name@], lv[k - here], now));
                        assert((lv[k - here].0, lv[k - here].1) == lv[k - here]);
                    }
                }
                assert forall|k: int| 0 <= k < all.len() implies exists|p: int|
                    0 <= p < i + 1 && (#[trigger] all[k]).0 == #[trigger] keys[p] by {
                    if k < here {
                        let p = choose|p: int| 0 <= p < i && found[k].0 == #[trigger] keys[p];
                        assert(all[k].0 == keys[p]);
                    } else {
                        assert(all[k].0 == keys[i as int]);
                    }
                }
                assert forall|a: int, b: int| 0 <= a < b < all.len() implies sooner(
                    #[trigger] all[a],
                    #[trigger] all[b],
                ) by {
                    if b < here {
                        assert(sooner(found[a], found[b]));
                    } else if a < here {
                        let p = choose|p: int| 0 <= p < i && found[a].0 == #[trigger] keys[p];
                        assert(text::chars_lt(keys[p], keys[i as int]));
                    } else {
                        assert(db::earlier(lv[a - here], lv[b - here]));
                    }
                }
                assert forall|key: (Seq<char>, Seq<char>, u64), p: int|
                    0 <= p < i + 1 && key.0 == #[trigger] keys[p] && #[trigger] overdue_at(
                        before,
                        key,
                        now,
                    ) implies all.contains(key) by {
                    if p < i {
                        assert(found.contains(key));
                        let q = found.index_of(key);
                        assert(all[q] == key);
                    } else {
                        assert(db::overdue_in(before.dbs[name@], (key.1, key.2), now));
                        assert(lv.contains((key.1, key.2)));
                        let q = lv.index_of((key.1, key.2));
                        assert(all[here + q] == key);
                    }
                }
            }
            i = i + 1;
        }
        let ghost list = cleared_views(cleared@);
        let ghost swept = self@;
        proof {
            assert forall|k: Seq<char>| #[trigger] swept.dbs.contains_key(k) implies swept.dbs[k]
                == db::lapsed_db(before.dbs[k], now) by {
                assert(before.dbs.contains_key(k));
                let p = keys.index_of(k);
                assert(keys[p] == k);
            }
            assert(swept.dbs =~= all_lapsed(before, now).dbs);
            assert forall|key: (Seq<char>, Seq<char>, u64)| #[trigger]
                overdue_at(before, key, now) implies list.contains(key) by {
                assert(before.dbs.contains_key(key.0));
                let p = keys.index_of(key.0);
                assert(keys[p] == key.0);
            }
        }
        let mut payloads: Vec<PresenceNotifyPayload> = Vec::new();
        let mut j: usize = 0;
        assert(list.take(0) =~= Seq::<(Seq<char>, Seq<char>, u64)>::empty());
        assert(manager::payload_views(payloads@) =~= told(swept, cleared_rooms(list.take(0))));
        while j < cleared.len()
            invariant
                j <= cleared@.len(),
                list == cleared_views(cleared@),
                self@ == (ManagerV {
                    dirty: cleared_marked(swept.dirty, list.take(j as int)),
                    ..swept
                }),
                manager::payload_views(payloads@) == told(
                    swept,
                    cleared_rooms(list.take(j as int)),
                ),
                j > 0 ==> cleared_rooms(list.take(j as int)).len() > 0 && cleared_rooms(
                    list.take(j as int),
                ).last() == (list[j - 1].0, list[j - 1].1),
                j == 0 ==> cleared_rooms(list.take(j as int)).len() == 0,
            decreases cleared@.len() - j,
        {
            let ghost head = cleared_rooms(list.take(j as int));
            let ghost before_told = manager::payload_views(payloads@);
            let ghost longer = list.take(j as int + 1);
            assert(longer.drop_last() =~= list.take(j as int));
            assert(longer.last() == list[j as int]);
            let again = j > 0 && same(cleared[j - 1].db.as_str(), cleared[j].db.as_str()) && same(
                cleared[j - 1].room.as_str(),
                cleared[j].room.as_str(),
            );
            if !again && self.multi_instance {
                let p = self.room_payload(cleared[j].db.as_str(), cleared[j].room.as_str());
                let ghost pv = p@;
                assert(pv == manager::payload(swept, list[j as int].0, list[j as int].1));
                payloads.push(p);
                assert(manager::payload_views(payloads@) =~= before_told.push(pv));
            }
            assert(cleared_rooms(longer) == (if again {
                head
            } else {
                head.push((list[j as int].0, list[j as int].1))
            }));
            assert(manager::payload_views(payloads@) =~= told(swept, cleared_rooms(longer)));
            self.mark_dirty(cleared[j].db.as_str(), cleared[j].room.as_str());
            j = j + 1;
        }
        assert(list.take(cleared@.len() as int) =~= list);
        Sweep { cleared, payloads }
    }

    /// Every room of every database.
    pub fn populated_rooms(&self) -> (r: Vec<RoomKey>)
        ensures
            lists_rooms(manager::key_views(r@), self@),
    {
        let n: usize = self.dbs.len();
        proof {
            self.dbs.lemma_keys();
        }
        let ghost keys = self.dbs.keys();
        let mut out: Vec<RoomKey> = Vec::new();
        let mut i: usize = 0;
        assert(manager::key_views(out@) =~= Seq::<(Seq<char>, Seq<char>)>::empty());
        while i < n
            invariant
                i <= n,
                n == keys.len(),
                keys == self.dbs.keys(),
                keys.no_duplicates(),
                manager::key_views(out@).no_duplicates(),
                forall|key: (Seq<char>, Seq<char>)| #[trigger]
                    manager::key_views(out@).contains(key) <==> exists|p: int|
                        0 <= p < i && #[trigger] keys[p] == key.0
                            && self@.dbs[key.0].rooms.contains_key(key.1),
            decreases n - i,
        {
            let ghost found = manager::key_views(out@);
            let ghost here = found.len() as int;
            let name = self.dbs.key_at(i);
            let d = self.dbs.value_at(i);
            let rooms = d.rooms.key_list();
            proof {
                d.rooms.lemma_keys();
            }
            let ghost rv = text::strs(rooms@);
            let mut j: usize = 0;
            while j < rooms.len()
                invariant
                    j <= rooms@.len(),
                    rv == text::strs(rooms@),
                    here == found.len(),
                    out@.len() == here + j,
                    name@ == keys[i as int],
                    manager::key_views(out@).take(here) == found,
                    forall|k: int|
                        0 <= k < j ==> #[trigger] manager::key_views(out@)[here + k] == (
                            name@,
                            rv[k],
                        ),
                decreases rooms@.len() - j,
            {
                let ghost so_far = manager::key_views(out@);
                out.push(RoomKey { db: name.clone(), room: rooms[j].clone() });
                assert(manager::key_views(out@) =~= so_far.push((name@, rv[j as int])));
                assert(manager::key_views(out@).take(here) =~= so_far.take(here));
                j = j + 1;
            }
            proof {
                let all = manager::key_views(out@);
                assert forall|k: int| 0 <= k < all.len() implies (if k < here {
                    #[trigger] all[k] == found[k]
                } else {
                    all[k] == (name@, rv[k - here])
                }) by {
                    if k < here {
                        assert(all.take(here)[k] == all[k]);
                    } else {
                        assert(all[here + (k - here)] == (name@, rv[k - here]));
                    }
                }
                assert forall|key: (Seq<char>, Seq<char>)| #[trigger]
                    all.contains(key) <==> exists|p: int|
                        0 <= p < i + 1 && #[trigger] keys[p] == key.0
                            && self@.dbs[key.0].rooms.contains_key(key.1) by {
                    if all.contains(key) {
                        let q = all.index_of(key);
                        if q < here {
                            assert(found[q] == key);
                            assert(found.contains(key));
                        } else {
                            assert(rv.contains(rv[q - here]));
                            assert(d@.rooms.contains_key(key.1));
                            assert(keys[i as int] == key.0);
                        }
                    }
                    if exists|p: int|
                        0 <= p < i + 1 && #[trigger] keys[p] == key.0
                            && self@.dbs[key.0].rooms.contains_key(key.1) {
                        let p = choose|p: int|
                            0 <= p < i + 1 && #[trigger] keys[p] == key.0
                                && self@.dbs[key.0].rooms.contains_key(key.1);
                        if p < i {
                            assert(found.contains(key));
                            let q = found.index_of(key);
                            assert(all[q] == key);
                        } else {
                            assert(rv.contains(key.1));
                            let q = rv.index_of(key.1);
                            assert(all[here + q] == key);
                        }
                    }
                }
                assert forall|a: int, b: int|
                    0 <= a < all.len() && 0 <= b < all.len() && a != b implies all[a] != all[b] by {
                    if a < here && b < here {
                        assert(found[a] != found[b]);
                    } else if a < here {
                        assert(found.contains(found[a]));
                        let p = choose|p: int| 0 <= p < i && #[trigger] keys[p] == found[a].0;
                        assert(keys[p] != keys[i as int]);
                    } else if b < here {
                        assert(found.contains(found[b]));
                        let p = choose|p: int| 0 <= p < i && #[trigger] keys[p] == found[b].0;
                        assert(keys[p] != keys[i as int]);
                    } else {
                        assert(rv[a - here] != rv[b - here]);
                    }
                }
            }
            i = i + 1;
        }
        proof {
            let all = manager::key_views(out@);
            assert forall|key: (Seq<char>, Seq<char>)| #[trigger]
                all.contains(key) <==> self@.dbs.contains_key(key.0)
                    && self@.dbs[key.0].rooms.contains_key(key.1) by {
                if self@.dbs.contains_key(key.0) && self@.dbs[key.0].rooms.contains_key(key.1) {
                    assert(keys.contains(key.0));
                    let p = keys.index_of(key.0);
                    assert(keys[p] == key.0);
                }
                if all.contains(key) {
                    let p = choose|p: int|
                        0 <= p < n && #[trigger] keys[p] == key.0
                            && self@.dbs[key.0].rooms.contains_key(key.1);
                    assert(keys.contains(key.0));
                }
            }
        }
        out
    }

    /// What the other instances are told of every room.
    pub fn beat_all_rooms(&self) -> (r: Vec<PresenceNotifyPayload>)
        ensures
            exists|keys: Seq<(Seq<char>, Seq<char>)>| #[trigger]
                lists_rooms(keys, self@) && manager::payload_views(r@) == told(self@, keys),
    {
        let rooms = self.populated_rooms();
        let ghost keys = manager::key_views(rooms@);
        let mut out: Vec<PresenceNotifyPayload> = Vec::new();
        assert(manager::payload_views(out@) =~= Seq::<PayloadV>::empty());
        if self.multi_instance {
            let mut i: usize = 0;
            while i < rooms.len()
                invariant
                    i <= rooms@.len(),
                    keys == manager::key_views(rooms@),
                    out@.len() == i,
                    forall|k: int|
                        0 <= k < i ==> (#[trigger] out@[k])@ == manager::payload(
                            self@,
                            keys[k].0,
                            keys[k].1,
                        ),
                decreases rooms@.len() - i,
            {
                out.push(self.room_payload(rooms[i].db.as_str(), rooms[i].room.as_str()));
                i = i + 1;
            }
        }
        assert(manager::payload_views(out@) =~= told(self@, keys));
        out
    }
}

proof fn lemma_sessions_positive(d: &DbPresence)
    requires
        d.rooms@.dom().finite(),
    ensures
        sessions_in(d@) >= 0,
{
    lemma_sum_positive(d@.rooms);
}

proof fn lemma_sum_positive(rooms: Map<Seq<char>, Map<u64, SessionV>>)
    requires
        rooms.dom().finite(),
    ensures
        sums::sum(rooms, |r: Map<u64, SessionV>| r.dom().len() as int) >= 0,
    decreases rooms.dom().len(),
{
    if !rooms.dom().is_empty() {
        let k = rooms.dom().choose();
        assert(rooms.dom().contains(k));
        lemma_sum_positive(rooms.remove(k));
    }
}

/// How the flush loop goes on after a round.
#[derive(Debug, Clone, Copy, PartialEq, Eq, Structural)]
pub enum Pause {
    /// Waits for the next tick.
    NextTick,
    /// Lets others run, then goes on.
    Yield,
    /// Sleeps for a number of milliseconds.
    Sleep(u64),
}

/// How the flush loop goes on: by ticks where an interval is set; otherwise at
/// once while there is work, and after a millisecond where there was none.
pub fn pause_after(interval_ms: u64, expired: bool, broadcast: bool) -> (p: Pause)
    ensures
        interval_ms != 0 ==> p == Pause::NextTick,
        interval_ms == 0 && (expired || broadcast) ==> p == Pause::Yield,
        interval_ms == 0 && !expired && !broadcast ==> p == Pause::Sleep(1),
{
    if interval_ms != 0 {
        Pause::NextTick
    } else if expired || broadcast {
        Pause::Yield
    } else {
        Pause::Sleep(1)
    }
}

/// Counts a flush that broadcast something: once, however many rooms and members
/// it reached.
pub fn tally_flush(out: &Vec<Broadcast>, metrics: &mut Metrics)
    ensures
        old(metrics).wf() ==> final(metrics).wf(),
        final(metrics)@ == (if out@.len() == 0 {
            old(metrics)@
        } else {
            MetricsV {
                totals: (Totals {
                    presence_broadcasts_total: counters::raised(
                        old(metrics)@.totals.presence_broadcasts_total,
                        1,
                    ),
                    ..old(metrics)@.totals
                }),
                ..old(metrics)@
            }
        }),
{
    if out.len() > 0 {
        metrics.record_presence_broadcast();
    }
}

/// Counts the states that a sweep cleared.
pub fn tally_expiries(swept: &Sweep, metrics: &mut Metrics)
    ensures
        old(metrics).wf() ==> final(metrics).wf(),
        final(metrics)@ == (MetricsV {
            totals: (Totals {
                presence_ttl_expiries_total: counters::raised(
                    old(metrics)@.totals.presence_ttl_expiries_total,
                    swept.cleared@.len() as u64,
                ),
                ..old(metrics)@.totals
            }),
            ..old(metrics)@
        }),
{
    let n: usize = swept.cleared.len();
    let mut i: usize = 0;
    while i < n
        invariant
            i <= n,
            old(metrics).wf() ==> metrics.wf(),
            metrics@ == (MetricsV {
                totals: (Totals {
                    presence_ttl_expiries_total: counters::raised(
                        old(metrics)@.totals.presence_ttl_expiries_total,
                        i as u64,
                    ),
                    ..old(metrics)@.totals
                }),
                ..old(metrics)@
            }),
        decreases n - i,
    {
        metrics.record_presence_ttl_expiry();
        i = i + 1;
    }
}

} // verus!
