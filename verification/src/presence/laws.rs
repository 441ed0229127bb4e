//! What holds of presence whatever is done to it.
#[allow(unused_imports)]
use vstd::prelude::*;

use crate::json::JsonV;
use crate::presence::db;
use crate::presence::db::{DbV, SessionV};
use crate::presence::manager;
use crate::presence::manager::{BroadcastV, ManagerV, PeerV};

verus! {

/// Rooms and lists agree in a database without presence.
pub proof fn law_agreement_at_start()
    ensures
        db::agrees(db::empty_db()),
{
}

/// Joining keeps rooms and lists in agreement, granted or refused.
pub proof fn law_join_keeps_agreement(
    d: DbV,
    conn: u64,
    room: Seq<char>,
    session: SessionV,
    max_rooms: usize,
    max_size: usize,
)
    requires
        db::agrees(d),
    ensures
        db::agrees(db::joined(d, conn, room, session, max_rooms, max_size)),
{
    let after = db::joined(d, conn, room, session, max_rooms, max_size);
    let fault = db::join_fault(d, conn, room, max_rooms, max_size);
    assert forall|c: u64, r: Seq<char>| #[trigger]
        db::present(after, c, r) <==> db::rooms_of(after, c).contains(r) by {
        assert(db::present(d, c, r) <==> db::rooms_of(d, c).contains(r));
        if fault is None && c == conn && !db::rooms_of(d, conn).contains(room) {
            let list = db::rooms_of(d, conn);
            let longer = list.push(room);
            if longer.contains(r) {
                let p = longer.index_of(r);
                if p < list.len() {
                    assert(list[p] == r);
                }
            }
            if list.contains(r) {
                let p = list.index_of(r);
                assert(longer[p] == r);
            }
            assert(longer[list.len() as int] == room);
        }
    }
    assert forall|c: u64| #[trigger] after.conn_rooms.contains_key(c) implies after.conn_rooms[c].len()
        > 0 && after.conn_rooms[c].no_duplicates() by {
        if fault is None && c == conn && !db::rooms_of(d, conn).contains(room) {
            let list = db::rooms_of(d, conn);
            let longer = list.push(room);
            if d.conn_rooms.contains_key(conn) {
                assert(list.no_duplicates());
            }
            assert forall|i: int, j: int|
                0 <= i < longer.len() && 0 <= j < longer.len() && i != j implies longer[i]
                != longer[j] by {
                if i < list.len() && j < list.len() {
                    assert(list[i] != list[j]);
                } else if i < list.len() {
                    assert(list.contains(list[i]));
                } else {
                    assert(list.contains(list[j]));
                }
            }
        } else {
            assert(d.conn_rooms.contains_key(c));
        }
    }
}

proof fn lemma_without(names: Seq<Seq<char>>, name: Seq<char>)
    ensures
        forall|x: Seq<char>| #[trigger]
            db::without(names, name).contains(x) <==> names.contains(x) && x != name,
        names.no_duplicates() ==> db::without(names, name).no_duplicates(),
    decreases names.len(),
{
    if names.len() > 0 {
        let head = names.drop_last();
        lemma_without(head, name);
        let r = db::without(names, name);
        let h = db::without(head, name);
        assert forall|x: Seq<char>| #[trigger] r.contains(x) <==> names.contains(x) && x
            != name by {
            if r.contains(x) {
                let p = r.index_of(x);
                if p < h.len() {
                    assert(h[p] == x);
                    assert(h.contains(x));
                    let q = head.index_of(x);
                    assert(names[q] == x);
                } else {
                    assert(names[names.len() - 1] == x);
                }
            }
            if names.contains(x) && x != name {
                let q = names.index_of(x);
                if q < head.len() {
                    assert(head[q] == x);
                    assert(h.contains(x));
                    let p = h.index_of(x);
                    assert(r[p] == x);
                } else {
                    assert(r[r.len() - 1] == x);
                }
            }
        }
        if names.no_duplicates() {
            assert forall|i: int, j: int|
                0 <= i < r.len() && 0 <= j < r.len() && i != j implies r[i] != r[j] by {
                if i < h.len() && j < h.len() {
                    assert(h[i] != h[j]);
                } else if i < h.len() {
                    assert(h.contains(h[i]));
                    let q = head.index_of(h[i]);
                    assert(names[q] == h[i]);
                } else {
                    assert(h.contains(h[j]));
                    let q = head.index_of(h[j]);
                    assert(names[q] == h[j]);
                }
            }
        }
    }
}

/// Leaving keeps rooms and lists in agreement.
pub proof fn law_leave_keeps_agreement(d: DbV, conn: u64, room: Seq<char>)
    requires
        db::agrees(d),
    ensures
        db::agrees(db::left(d, conn, room)),
        !db::present(db::left(d, conn, room), conn, room),
{
    let after = db::left(d, conn, room);
    let list = db::rooms_of(d, conn);
    lemma_without(list, room);
    let kept = db::without(list, room);
    assert forall|c: u64, r: Seq<char>| #[trigger]
        db::present(after, c, r) <==> db::rooms_of(after, c).contains(r) by {
        assert(db::present(d, c, r) <==> db::rooms_of(d, c).contains(r));
        if d.rooms.contains_key(room) && r == room {
            let m = d.rooms[room].remove(conn);
            if m == Map::<u64, SessionV>::empty() {
                assert(!m.contains_key(c));
            }
        }
        if c == conn {
            assert(kept.contains(r) <==> list.contains(r) && r != room);
            if kept.len() == 0 {
                assert(!kept.contains(r));
            }
        }
    }
    assert forall|c: u64| #[trigger] after.conn_rooms.contains_key(c) implies after.conn_rooms[c].len()
        > 0 && after.conn_rooms[c].no_duplicates() by {
        if c == conn {
            if d.conn_rooms.contains_key(conn) {
                assert(list.no_duplicates());
            }
        } else {
            assert(d.conn_rooms.contains_key(c));
        }
    }
}

proof fn lemma_all_vacated(
    rooms: Map<Seq<char>, Map<u64, SessionV>>,
    conn: u64,
    list: Seq<Seq<char>>,
    c: u64,
    r: Seq<char>,
)
    ensures
        ({
            let after = db::all_vacated(rooms, conn, list);
            (after.contains_key(r) && after[r].contains_key(c)) <==> (rooms.contains_key(r)
                && rooms[r].contains_key(c) && !(c == conn && list.contains(r)))
        }),
    decreases list.len(),
{
    if list.len() > 0 {
        let head = list.drop_last();
        lemma_all_vacated(rooms, conn, head, c, r);
        let mid = db::all_vacated(rooms, conn, head);
        let x = list.last();
        if mid.contains_key(x) && mid[x].remove(conn) == Map::<u64, SessionV>::empty() {
            assert(!mid[x].remove(conn).contains_key(c));
        }
        if list.contains(r) {
            let p = list.index_of(r);
            if p < head.len() {
                assert(head[p] == r);
            }
        }
        if head.contains(r) {
            let p = head.index_of(r);
            assert(list[p] == r);
        }
        assert(list[list.len() - 1] == x);
    }
}

/// The end of a connection keeps rooms and lists in agreement and leaves no
/// trace of the connection in any room.
pub proof fn law_eviction_leaves_no_trace(d: DbV, conn: u64)
    requires
        db::agrees(d),
    ensures
        db::agrees(db::evicted(d, conn)),
        forall|room: Seq<char>| !(#[trigger] db::present(db::evicted(d, conn), conn, room)),
        forall|c: u64, room: Seq<char>|
            c != conn ==> (#[trigger] db::present(db::evicted(d, conn), c, room) <==> db::present(
                d,
                c,
                room,
            )),
{
    let after = db::evicted(d, conn);
    let list = db::rooms_of(d, conn);
    assert forall|c: u64, r: Seq<char>| #[trigger]
        db::present(after, c, r) <==> db::rooms_of(after, c).contains(r) by {
        assert(db::present(d, c, r) <==> db::rooms_of(d, c).contains(r));
        lemma_all_vacated(d.rooms, conn, list, c, r);
    }
    assert forall|room: Seq<char>| !(#[trigger] db::present(after, conn, room)) by {
        assert(db::present(d, conn, room) <==> db::rooms_of(d, conn).contains(room));
        lemma_all_vacated(d.rooms, conn, list, conn, room);
    }
    assert forall|c: u64, room: Seq<char>| c != conn implies (#[trigger] db::present(
        after,
        c,
        room,
    ) <==> db::present(d, c, room)) by {
        lemma_all_vacated(d.rooms, conn, list, c, room);
    }
    assert forall|c: u64| #[trigger] after.conn_rooms.contains_key(c) implies after.conn_rooms[c].len()
        > 0 && after.conn_rooms[c].no_duplicates() by {
        assert(d.conn_rooms.contains_key(c));
    }
}

/// Updating a state changes no membership.
pub proof fn law_update_keeps_membership(
    d: DbV,
    conn: u64,
    room: Seq<char>,
    state: JsonV,
    ttl_ms: Option<u64>,
    now: i64,
    limit: u32,
)
    requires
        db::agrees(d),
    ensures
        db::agrees(db::updated(d, conn, room, state, ttl_ms, now, limit)),
        forall|c: u64, r: Seq<char>| #[trigger]
            db::present(db::updated(d, conn, room, state, ttl_ms, now, limit), c, r)
                <==> db::present(d, c, r),
{
    let after = db::updated(d, conn, room, state, ttl_ms, now, limit);
    assert forall|c: u64, r: Seq<char>| #[trigger] db::present(after, c, r) <==> db::present(
        d,
        c,
        r,
    ) by {
        if db::present(d, conn, room) {
            assert(d.rooms.contains_key(room));
        }
    }
    assert forall|c: u64, r: Seq<char>| #[trigger]
        db::present(after, c, r) <==> db::rooms_of(after, c).contains(r) by {
        assert(db::present(d, c, r) <==> db::rooms_of(d, c).contains(r));
    }
}

/// An update that is refused leaves every state as it was.
pub proof fn law_refused_update_keeps_states(
    d: DbV,
    conn: u64,
    room: Seq<char>,
    state: JsonV,
    ttl_ms: Option<u64>,
    now: i64,
    limit: u32,
)
    requires
        db::update_fault(d, conn, room, now, limit) is Some,
    ensures
        db::updated(d, conn, room, state, ttl_ms, now, limit).rooms == d.rooms,
{
}

/// An update without a time to live never expires.
pub proof fn law_update_without_ttl_is_permanent(s: SessionV, state: JsonV, now: i64, later: i64)
    ensures
        !db::overdue(
            SessionV { state, updated_at: now, expires_at: db::deadline(now, None), ..s },
            later,
        ),
{
}

/// Clearing overdue states changes no membership, and leaves nothing overdue.
pub proof fn law_expiry_clears_state_not_membership(
    d: DbV,
    conn: u64,
    room: Seq<char>,
    now: i64,
)
    ensures
        db::present(db::lapsed_db(d, now), conn, room) <==> db::present(d, conn, room),
        !db::overdue_in(db::lapsed_db(d, now), (room, conn), now),
        db::present(d, conn, room) && db::overdue_in(d, (room, conn), now) ==> db::room_of(
            db::lapsed_db(d, now),
            room,
        )[conn].state == JsonV::Null,
        db::lapsed_db(d, now).conn_rooms == d.conn_rooms,
        db::agrees(d) ==> db::agrees(db::lapsed_db(d, now)),
{
    let after = db::lapsed_db(d, now);
    if db::agrees(d) {
        assert forall|c: u64, r: Seq<char>| #[trigger]
            db::present(after, c, r) <==> db::rooms_of(after, c).contains(r) by {
            assert(db::present(d, c, r) <==> db::rooms_of(d, c).contains(r));
        }
    }
}

/// Joining a room again adds nothing: the lists and the members of every room
/// stay the same.
pub proof fn law_rejoin_adds_nothing(
    d: DbV,
    conn: u64,
    room: Seq<char>,
    session: SessionV,
    max_rooms: usize,
    max_size: usize,
)
    requires
        db::agrees(d),
        db::present(d, conn, room),
    ensures
        db::join_fault(d, conn, room, max_rooms, max_size) is None,
        db::joined(d, conn, room, session, max_rooms, max_size).conn_rooms == d.conn_rooms,
        forall|c: u64, r: Seq<char>| #[trigger]
            db::present(db::joined(d, conn, room, session, max_rooms, max_size), c, r)
                <==> db::present(d, c, r),
{
    assert(db::rooms_of(d, conn).contains(room));
}

/// Leaving a room undoes joining it.
pub proof fn law_leave_undoes_join(
    d: DbV,
    conn: u64,
    room: Seq<char>,
    session: SessionV,
    max_rooms: usize,
    max_size: usize,
)
    requires
        db::agrees(d),
        !db::present(d, conn, room),
        d.rooms.contains_key(room) ==> d.rooms[room] != Map::<u64, SessionV>::empty(),
        db::join_fault(d, conn, room, max_rooms, max_size) is None,
    ensures
        db::left(db::joined(d, conn, room, session, max_rooms, max_size), conn, room) == d,
{
    let j = db::joined(d, conn, room, session, max_rooms, max_size);
    let l = db::left(j, conn, room);
    let list = db::rooms_of(d, conn);
    assert(!list.contains(room));
    assert(j.rooms[room].remove(conn) =~= db::room_of(d, room));
    assert(l.rooms =~= d.rooms);
    let longer = db::rooms_of(j, conn);
    assert(longer == list.push(room));
    assert(longer.drop_last() =~= list);
    assert(longer.last() == room);
    lemma_without_absent(list, room);
    if d.conn_rooms.contains_key(conn) {
        assert(l.conn_rooms =~= d.conn_rooms);
    } else {
        assert(l.conn_rooms =~= d.conn_rooms);
    }
}

proof fn lemma_without_absent(names: Seq<Seq<char>>, name: Seq<char>)
    requires
        !names.contains(name),
    ensures
        db::without(names, name) == names,
    decreases names.len(),
{
    if names.len() > 0 {
        let head = names.drop_last();
        if head.contains(name) {
            let p = head.index_of(name);
            assert(names[p] == name);
        }
        assert(names[names.len() - 1] == names.last());
        lemma_without_absent(head, name);
        assert(head.push(names.last()) =~= names);
    } else {
        assert(names =~= Seq::<Seq<char>>::empty());
    }
}

/// A room that is within its limit stays within it, and so do the rooms of a
/// connection.
pub proof fn law_join_respects_limits(
    d: DbV,
    conn: u64,
    room: Seq<char>,
    session: SessionV,
    max_rooms: usize,
    max_size: usize,
)
    requires
        db::agrees(d),
        db::room_of(d, room).dom().finite(),
        db::room_of(d, room).dom().len() <= max_size,
        db::rooms_of(d, conn).len() <= max_rooms,
    ensures
        ({
            let after = db::joined(d, conn, room, session, max_rooms, max_size);
            &&& db::room_of(after, room).dom().len() <= max_size
            &&& db::rooms_of(after, conn).len() <= max_rooms
        }),
{
    let m = db::room_of(d, room);
    assert(m.insert(conn, session).dom() =~= m.dom().insert(conn));
}

/// A room is marked once, however often it changes between two flushes.
pub proof fn law_marks_coalesce(dirty: Seq<(Seq<char>, Seq<char>)>, key: (Seq<char>, Seq<char>))
    ensures
        manager::marked(manager::marked(dirty, key), key) == manager::marked(dirty, key),
        dirty.no_duplicates() ==> manager::marked(dirty, key).no_duplicates(),
        manager::marked(dirty, key).contains(key),
{
    let once = manager::marked(dirty, key);
    if !dirty.contains(key) {
        assert(once[dirty.len() as int] == key);
        if dirty.no_duplicates() {
            assert forall|i: int, j: int|
                0 <= i < once.len() && 0 <= j < once.len() && i != j implies once[i] != once[j] by {
                if i < dirty.len() && j < dirty.len() {
                    assert(dirty[i] != dirty[j]);
                } else if i < dirty.len() {
                    assert(dirty.contains(dirty[i]));
                } else {
                    assert(dirty.contains(dirty[j]));
                }
            }
        }
    }
}

/// After a flush there is nothing to broadcast.
pub proof fn law_flush_leaves_nothing(m: ManagerV)
    ensures
        ({
            let after = ManagerV { dirty: Seq::empty(), ..m };
            manager::broadcasts(after, after.dirty) == Seq::<BroadcastV>::empty()
        }),
{
}

/// A flush broadcasts every marked room that has members, with all its members
/// and to all its channels.
pub proof fn law_flush_reaches_marked_rooms(
    m: ManagerV,
    keys: Seq<(Seq<char>, Seq<char>)>,
    name: Seq<char>,
    room: Seq<char>,
)
    requires
        keys.contains((name, room)),
        manager::everyone(m, name, room).len() > 0,
    ensures
        manager::broadcasts(m, keys).contains(
            BroadcastV {
                db: name,
                room,
                members: manager::everyone(m, name, room),
                channels: db::channels(db::room_of(manager::db_of(m, name), room)),
            },
        ),
    decreases keys.len(),
{
    let b = BroadcastV {
        db: name,
        room,
        members: manager::everyone(m, name, room),
        channels: db::channels(db::room_of(manager::db_of(m, name), room)),
    };
    let all = manager::broadcasts(m, keys);
    if keys.last() == (name, room) {
        assert(all[all.len() - 1] == b);
    } else {
        let head = keys.drop_last();
        let p = keys.index_of((name, room));
        assert(head[p] == (name, room));
        law_flush_reaches_marked_rooms(m, head, name, room);
        let h = manager::broadcasts(m, head);
        let q = h.index_of(b);
        assert(all[q] == b);
    }
}

/// No instance has two reports on one room.
pub open spec fn one_report_each(peers: Seq<PeerV>) -> bool {
    forall|i: int, j: int|
        0 <= i < j < peers.len() ==> !manager::same_source(
            #[trigger] peers[i],
            #[trigger] peers[j],
        )
}

proof fn lemma_superseded(peers: Seq<PeerV>, p: PeerV)
    ensures
        forall|x: PeerV| #[trigger]
            manager::superseded(peers, p).contains(x) <==> peers.contains(x)
                && !manager::same_source(x, p),
        one_report_each(peers) ==> one_report_each(manager::superseded(peers, p)),
    decreases peers.len(),
{
    let all = manager::superseded(peers, p);
    if peers.len() > 0 {
        let head = peers.drop_last();
        let last = peers.last();
        lemma_superseded(head, p);
        let kept = manager::superseded(head, p);
        assert forall|x: PeerV| #[trigger] all.contains(x) <==> peers.contains(x)
            && !manager::same_source(x, p) by {
            lemma_last(peers, x);
            if !manager::same_source(last, p) {
                lemma_last(all, x);
                assert(all.drop_last() =~= kept);
            }
        }
        if one_report_each(peers) {
            assert(one_report_each(head)) by {
                assert forall|i: int, j: int| 0 <= i < j < head.len() implies !manager::same_source(
                    #[trigger] head[i],
                    #[trigger] head[j],
                ) by {
                    assert(!manager::same_source(peers[i], peers[j]));
                }
            }
            if !manager::same_source(last, p) {
                lemma_appended(head, kept, last);
            }
        }
    }
}

/// A report goes behind reports taken from those it stood behind.
proof fn lemma_appended(head: Seq<PeerV>, kept: Seq<PeerV>, last: PeerV)
    requires
        one_report_each(kept),
        forall|x: PeerV| #[trigger] kept.contains(x) ==> head.contains(x),
        one_report_each(head.push(last)),
    ensures
        one_report_each(kept.push(last)),
{
    let all = kept.push(last);
    assert forall|i: int, j: int| 0 <= i < j < all.len() implies !manager::same_source(
        #[trigger] all[i],
        #[trigger] all[j],
    ) by {
        if j == kept.len() {
            assert(kept.contains(kept[i]));
            let k = head.index_of(kept[i]);
            assert(head.push(last)[k] == kept[i]);
            assert(head.push(last)[head.len() as int] == last);
        } else {
            assert(!manager::same_source(kept[i], kept[j]));
        }
    }
}

/// What a list holds, its last entry holds or the entries before it.
proof fn lemma_last(peers: Seq<PeerV>, x: PeerV)
    requires
        peers.len() > 0,
    ensures
        peers.contains(x) <==> peers.drop_last().contains(x) || peers.last() == x,
{
    let head = peers.drop_last();
    if peers.contains(x) && peers.last() != x {
        let i = peers.index_of(x);
        assert(head[i] == x);
    }
    if head.contains(x) {
        let i = head.index_of(x);
        assert(peers[i] == x);
    }
    assert(peers[peers.len() - 1] == peers.last());
}

proof fn lemma_live(peers: Seq<PeerV>, oldest: int)
    ensures
        forall|x: PeerV| #[trigger]
            manager::live(peers, oldest).contains(x) <==> peers.contains(x) && x.last_beat
                >= oldest,
        one_report_each(peers) ==> one_report_each(manager::live(peers, oldest)),
    decreases peers.len(),
{
    let all = manager::live(peers, oldest);
    if peers.len() > 0 {
        let head = peers.drop_last();
        let last = peers.last();
        lemma_live(head, oldest);
        let kept = manager::live(head, oldest);
        assert forall|x: PeerV| #[trigger] all.contains(x) <==> peers.contains(x) && x.last_beat
            >= oldest by {
            lemma_last(peers, x);
            if last.last_beat >= oldest {
                lemma_last(all, x);
                assert(all.drop_last() =~= kept);
            }
        }
        if one_report_each(peers) {
            assert(one_report_each(head)) by {
                assert forall|i: int, j: int| 0 <= i < j < head.len() implies !manager::same_source(
                    #[trigger] head[i],
                    #[trigger] head[j],
                ) by {
                    assert(!manager::same_source(peers[i], peers[j]));
                }
            }
            if last.last_beat >= oldest {
                assert(head.push(last) =~= peers);
                lemma_appended(head, kept, last);
            }
        }
    }
}

/// A report takes the place of what the instance reported of the room before,
/// and of nothing else; no instance has two reports on one room.
pub proof fn law_report_replaces_its_predecessor(peers: Seq<PeerV>, p: PeerV, x: PeerV)
    ensures
        manager::reported(peers, p).contains(p),
        peers.contains(x) && !manager::same_source(x, p) ==> manager::reported(peers, p).contains(
            x,
        ),
        manager::reported(peers, p).contains(x) && manager::same_source(x, p) ==> x == p,
        one_report_each(peers) ==> one_report_each(manager::reported(peers, p)),
{
    lemma_superseded(peers, p);
    let kept = manager::superseded(peers, p);
    let all = manager::reported(peers, p);
    assert(all.drop_last() =~= kept);
    lemma_last(all, p);
    lemma_last(all, x);
    if one_report_each(peers) {
        assert forall|i: int, j: int| 0 <= i < j < all.len() implies !manager::same_source(
            #[trigger] all[i],
            #[trigger] all[j],
        ) by {
            if j == kept.len() {
                assert(kept.contains(kept[i]));
            } else {
                assert(!manager::same_source(kept[i], kept[j]));
            }
        }
    }
}

/// A room that is marked stays so, and one that loses a report is marked.
pub proof fn lemma_stale_marked(
    dirty: Seq<(Seq<char>, Seq<char>)>,
    peers: Seq<PeerV>,
    oldest: int,
    key: (Seq<char>, Seq<char>),
)
    ensures
        dirty.contains(key) ==> manager::stale_marked(dirty, peers, oldest).contains(key),
        (exists|i: int|
            0 <= i < peers.len() && (#[trigger] peers[i]).last_beat < oldest && (
                peers[i].db,
                peers[i].room,
            ) == key) ==> manager::stale_marked(dirty, peers, oldest).contains(key),
    decreases peers.len(),
{
    if peers.len() > 0 {
        let head = peers.drop_last();
        let last = peers.last();
        lemma_stale_marked(dirty, head, oldest, key);
        let before = manager::stale_marked(dirty, head, oldest);
        let own = (last.db, last.room);
        if before.contains(key) {
            let i = before.index_of(key);
            assert(manager::marked(before, own)[i] == key);
        }
        law_marks_coalesce(before, own);
        if exists|i: int|
            0 <= i < peers.len() && (#[trigger] peers[i]).last_beat < oldest && (
                peers[i].db,
                peers[i].room,
            ) == key {
            let i = choose|i: int|
                0 <= i < peers.len() && (#[trigger] peers[i]).last_beat < oldest && (
                    peers[i].db,
                    peers[i].room,
                ) == key;
            if i < head.len() {
                assert(head[i] == peers[i]);
            }
        }
    }
}

/// A sweep drops the reports of instances that have been silent too long and
/// keeps the others; every room that loses a report is broadcast anew.
pub proof fn law_silent_instances_are_dropped(m: ManagerV, oldest: int, x: PeerV)
    ensures
        manager::live(m.peers, oldest).contains(x) <==> m.peers.contains(x) && x.last_beat
            >= oldest,
        m.peers.contains(x) && x.last_beat < oldest ==> manager::stale_marked(
            m.dirty,
            m.peers,
            oldest,
        ).contains((x.db, x.room)),
        one_report_each(m.peers) ==> one_report_each(manager::live(m.peers, oldest)),
{
    lemma_live(m.peers, oldest);
    lemma_stale_marked(m.dirty, m.peers, oldest, (x.db, x.room));
    if m.peers.contains(x) {
        let i = m.peers.index_of(x);
        assert(m.peers[i] == x);
    }
}

proof fn lemma_reports(peers: Seq<PeerV>, name: Seq<char>, room: Seq<char>, k: int)
    requires
        0 <= k < manager::reports(peers, name, room).len(),
    ensures
        exists|i: int|
            0 <= i < peers.len() && (#[trigger] peers[i]).db == name && peers[i].room == room && (
                peers[i].instance_id,
                peers[i].members,
            ) == manager::reports(peers, name, room)[k],
    decreases peers.len(),
{
    let head = peers.drop_last();
    let last = peers.last();
    let before = manager::reports(head, name, room);
    if k < before.len() {
        lemma_reports(head, name, room, k);
        let i = choose|i: int|
            0 <= i < head.len() && (#[trigger] head[i]).db == name && head[i].room == room && (
                head[i].instance_id,
                head[i].members,
            ) == before[k];
        assert(peers[i] == head[i]);
    } else {
        assert(peers[peers.len() - 1] == last);
    }
}

/// An instance that has been silent too long has no part in any room.
pub proof fn law_dead_instance_leaves_every_room(
    m: ManagerV,
    oldest: int,
    instance: Seq<char>,
    name: Seq<char>,
    room: Seq<char>,
    k: int,
)
    requires
        forall|i: int|
            0 <= i < m.peers.len() && (#[trigger] m.peers[i]).instance_id == instance
                ==> m.peers[i].last_beat < oldest,
        0 <= k < manager::reports(manager::live(m.peers, oldest), name, room).len(),
    ensures
        manager::reports(manager::live(m.peers, oldest), name, room)[k].0 != instance,
{
    let kept = manager::live(m.peers, oldest);
    lemma_live(m.peers, oldest);
    lemma_reports(kept, name, room, k);
    let i = choose|i: int|
        0 <= i < kept.len() && (#[trigger] kept[i]).db == name && kept[i].room == room && (
            kept[i].instance_id,
            kept[i].members,
        ) == manager::reports(kept, name, room)[k];
    assert(kept.contains(kept[i]));
    let j = m.peers.index_of(kept[i]);
    assert(m.peers[j] == kept[i]);
}

proof fn lemma_keys_without(dirty: Seq<(Seq<char>, Seq<char>)>, name: Seq<char>)
    ensures
        forall|x: (Seq<char>, Seq<char>)| #[trigger]
            manager::keys_without(dirty, name).contains(x) <==> dirty.contains(x) && x.0 != name,
    decreases dirty.len(),
{
    let all = manager::keys_without(dirty, name);
    if dirty.len() > 0 {
        let head = dirty.drop_last();
        lemma_keys_without(head, name);
        let kept = manager::keys_without(head, name);
        assert forall|x: (Seq<char>, Seq<char>)| #[trigger] all.contains(x) <==> dirty.contains(x)
            && x.0 != name by {
            if all.contains(x) {
                let i = all.index_of(x);
                if i < kept.len() {
                    assert(kept[i] == x);
                    assert(kept.contains(x));
                    let j = head.index_of(x);
                    assert(dirty[j] == x);
                } else {
                    assert(dirty[dirty.len() - 1] == x);
                }
            }
            if dirty.contains(x) && x.0 != name {
                let i = dirty.index_of(x);
                if i < head.len() {
                    assert(head[i] == x);
                    assert(kept.contains(x));
                    let j = kept.index_of(x);
                    assert(all[j] == x);
                } else {
                    assert(all[all.len() - 1] == x);
                }
            }
        }
    }
}

proof fn lemma_peers_without(peers: Seq<PeerV>, name: Seq<char>)
    ensures
        forall|x: PeerV| #[trigger]
            manager::peers_without(peers, name).contains(x) <==> peers.contains(x) && x.db != name,
    decreases peers.len(),
{
    let all = manager::peers_without(peers, name);
    if peers.len() > 0 {
        let head = peers.drop_last();
        lemma_peers_without(head, name);
        let kept = manager::peers_without(head, name);
        assert forall|x: PeerV| #[trigger] all.contains(x) <==> peers.contains(x) && x.db
            != name by {
            lemma_last(peers, x);
            if peers.last().db != name {
                lemma_last(all, x);
                assert(all.drop_last() =~= kept);
            }
        }
    }
}

/// Of a deleted database nothing is left, so one made anew under its name
/// inherits nothing; what is known of other databases stays.
pub proof fn law_deleted_database_is_forgotten(
    m: ManagerV,
    name: Seq<char>,
    key: (Seq<char>, Seq<char>),
    p: PeerV,
)
    ensures
        manager::db_of(ManagerV { dbs: m.dbs.remove(name), ..m }, name) == db::empty_db(),
        manager::keys_without(m.dirty, name).contains(key) <==> m.dirty.contains(key) && key.0
            != name,
        manager::peers_without(m.peers, name).contains(p) <==> m.peers.contains(p) && p.db
            != name,
{
    lemma_keys_without(m.dirty, name);
    lemma_peers_without(m.peers, name);
}

} // verus!
