//! Whoever is in a room hears of every change in it.
#[allow(unused_imports)]
use vstd::prelude::*;

use crate::idmap;
use crate::json::JsonV;
use crate::presence::db;
use crate::presence::db::SessionV;
use crate::presence::laws;
use crate::presence::manager;
use crate::presence::manager::{BroadcastV, ManagerV, PayloadV, PeerV};
use crate::presence::sweep;
use crate::presence::union;
use crate::protocol::MemberV;
use crate::query::numbering;
use crate::text;

verus! {

/// The sessions in a room of a database.
pub open spec fn sessions(m: ManagerV, name: Seq<char>, room: Seq<char>) -> Map<u64, SessionV> {
    db::room_of(manager::db_of(m, name), room)
}

/// Every room has finitely many sessions.
pub open spec fn finite_rooms(m: ManagerV) -> bool {
    forall|name: Seq<char>, room: Seq<char>| (#[trigger] sessions(m, name, room)).dom().finite()
}

/// A member stands for the session of a connection: it has the connection's
/// number for its id, and the user and the state of the session.
pub open spec fn stands_for(x: MemberV, conn: u64, s: SessionV) -> bool {
    &&& x.connection_id == text::dec(conn as nat)
    &&& x.user == s.user
    &&& x.state == s.state
}

/// Some member stands for the session of a connection.
#[verifier::opaque]
pub open spec fn listed(members: Seq<MemberV>, conn: u64, s: SessionV) -> bool {
    exists|i: int| 0 <= i < members.len() && stands_for(#[trigger] members[i], conn, s)
}

/// Members show all of the sessions.
pub open spec fn shows(members: Seq<MemberV>, room: Map<u64, SessionV>) -> bool {
    forall|conn: u64| #[trigger]
        room.contains_key(conn) ==> listed(members, conn, room[conn])
}

/// A member stands for some session.
#[verifier::opaque]
pub open spec fn is_here(x: MemberV, room: Map<u64, SessionV>) -> bool {
    exists|conn: u64| #[trigger] room.contains_key(conn) && stands_for(x, conn, room[conn])
}

/// Members show nothing but the sessions.
pub open spec fn shows_only(members: Seq<MemberV>, room: Map<u64, SessionV>) -> bool {
    forall|i: int| 0 <= i < members.len() ==> is_here(#[trigger] members[i], room)
}

/// A channel is that of some session.
#[verifier::opaque]
pub open spec fn listens(channel: u64, room: Map<u64, SessionV>) -> bool {
    exists|conn: u64| #[trigger] room.contains_key(conn) && room[conn].channel == channel
}

/// A broadcast goes to the channels of the sessions, to all of them and no
/// others.
pub open spec fn reaches(channels: Seq<u64>, room: Map<u64, SessionV>) -> bool {
    &&& forall|conn: u64| #[trigger]
        room.contains_key(conn) ==> channels.contains(room[conn].channel)
    &&& forall|i: int| 0 <= i < channels.len() ==> listens(#[trigger] channels[i], room)
}

/// A broadcast tells everybody in a room who is in it now. Members of other
/// instances may come with those of this one, which are all told as long as the
/// room is within its limit.
pub open spec fn tells(b: BroadcastV, m: ManagerV, name: Seq<char>, room: Seq<char>) -> bool {
    let here = sessions(m, name, room);
    &&& b.db == name
    &&& b.room == room
    &&& reaches(b.channels, here)
    &&& !m.multi_instance ==> shows_only(b.members, here) && b.members.len() == here.dom().len()
    &&& !m.multi_instance || here.dom().len() <= m.config.max_room_size ==> shows(b.members, here)
}

/// The next flush tells everybody in a room who is in it.
pub open spec fn flush_tells(m: ManagerV, name: Seq<char>, room: Seq<char>) -> bool {
    exists|i: int|
        0 <= i < manager::broadcasts(m, m.dirty).len() && tells(
            #[trigger] manager::broadcasts(m, m.dirty)[i],
            m,
            name,
            room,
        )
}

/// Somebody is in the room.
pub open spec fn occupied(m: ManagerV, name: Seq<char>, room: Seq<char>) -> bool {
    exists|conn: u64| #[trigger] sessions(m, name, room).contains_key(conn)
}

/// A room is not as it was: a session in it came, went or changed its user or
/// state, or what another instance reported of it is another.
pub open spec fn differs(before: ManagerV, after: ManagerV, name: Seq<char>, room: Seq<char>) -> bool {
    ||| sessions(before, name, room) != sessions(after, name, room)
    ||| manager::reports(before.peers, name, room) != manager::reports(after.peers, name, room)
}

/// Whatever a step changed in a room in which somebody is, or was still to be
/// told of it before, the next flush tells.
pub open spec fn change_is_told(before: ManagerV, after: ManagerV) -> bool {
    forall|name: Seq<char>, room: Seq<char>|
        #![trigger sessions(after, name, room)]
        occupied(after, name, room) && (differs(before, after, name, room)
            || before.dirty.contains((name, room))) ==> flush_tells(after, name, room)
}

/// Numbers with one more, in its place.
spec fn inserted(ids: Seq<u64>, x: u64) -> Seq<u64>
    decreases ids.len(),
{
    if ids.len() == 0 || ids.last() < x {
        ids.push(x)
    } else {
        inserted(ids.drop_last(), x).push(ids.last())
    }
}

proof fn lemma_inserted(ids: Seq<u64>, s: Set<u64>, x: u64)
    requires
        db::enumerates(ids, s),
        !s.contains(x),
    ensures
        db::enumerates(inserted(ids, x), s.insert(x)),
    decreases ids.len(),
{
    let all = inserted(ids, x);
    let wide = s.insert(x);
    if ids.len() == 0 || ids.last() < x {
        assert forall|i: int, j: int| 0 <= i < j < all.len() implies #[trigger] idmap::precedes(
            all[i],
            all[j],
        ) by {
            if j < ids.len() {
                assert(idmap::precedes(ids[i], ids[j]));
            } else if i < ids.len() - 1 {
                assert(idmap::precedes(ids[i], ids[ids.len() - 1]));
            }
        }
        assert forall|y: u64| #[trigger] wide.contains(y) <==> all.contains(y) by {
            if s.contains(y) {
                assert(ids.contains(y));
                assert(all[ids.index_of(y)] == y);
            }
            assert(all[ids.len() as int] == x);
            if all.contains(y) && y != x {
                let k = all.index_of(y);
                assert(ids[k] == y);
                assert(s.contains(y));
            }
        }
    } else {
        let last = ids.last();
        let head = ids.drop_last();
        let rest = s.remove(last);
        assert(ids[ids.len() - 1] == last);
        assert(ids.contains(last));
        assert(s.contains(last));
        assert forall|i: int, j: int| 0 <= i < j < head.len() implies #[trigger] idmap::precedes(
            head[i],
            head[j],
        ) by {
            assert(idmap::precedes(ids[i], ids[j]));
        }
        assert forall|y: u64| #[trigger] rest.contains(y) <==> head.contains(y) by {
            if rest.contains(y) {
                assert(ids.contains(y));
                assert(head[ids.index_of(y)] == y);
            }
            if head.contains(y) {
                let k = head.index_of(y);
                assert(ids[k] == y);
                assert(ids.contains(y));
                assert(idmap::precedes(ids[k], ids[ids.len() - 1]));
                assert(s.contains(y));
            }
        }
        lemma_inserted(head, rest, x);
        let mid = inserted(head, x);
        assert forall|i: int, j: int| 0 <= i < j < all.len() implies #[trigger] idmap::precedes(
            all[i],
            all[j],
        ) by {
            if j < mid.len() {
                assert(idmap::precedes(mid[i], mid[j]));
            } else {
                assert(mid.contains(mid[i]));
                assert(rest.insert(x).contains(mid[i]));
                if mid[i] != x {
                    let k = head.index_of(mid[i]);
                    assert(rest.contains(mid[i]));
                    assert(head.contains(mid[i]));
                    assert(idmap::precedes(ids[k], ids[ids.len() - 1]));
                }
            }
        }
        assert forall|y: u64| #[trigger] wide.contains(y) <==> all.contains(y) by {
            assert(all[mid.len() as int] == last);
            if wide.contains(y) && y != last {
                assert(rest.insert(x).contains(y));
                assert(mid.contains(y));
                assert(all[mid.index_of(y)] == y);
            }
            if all.contains(y) && y != last {
                let k = all.index_of(y);
                assert(mid[k] == y);
                assert(mid.contains(y));
                assert(rest.insert(x).contains(y));
            }
        }
    }
}

proof fn lemma_listing(s: Set<u64>) -> (ids: Seq<u64>)
    requires
        s.finite(),
    ensures
        db::enumerates(ids, s),
        db::in_order(s) == ids,
        ids.len() == s.len(),
    decreases s.len(),
{
    if s.len() == 0 {
        let none = Seq::<u64>::empty();
        assert(s =~= Set::<u64>::empty());
        assert(db::enumerates(none, s));
        db::lemma_in_order(none, s);
        none
    } else {
        let x = s.choose();
        let rest = lemma_listing(s.remove(x));
        lemma_inserted(rest, s.remove(x), x);
        let ids = inserted(rest, x);
        assert(s.remove(x).insert(x) =~= s);
        lemma_inserted_len(rest, x);
        db::lemma_in_order(ids, s);
        ids
    }
}

proof fn lemma_inserted_len(ids: Seq<u64>, x: u64)
    ensures
        inserted(ids, x).len() == ids.len() + 1,
    decreases ids.len(),
{
    if ids.len() > 0 {
        lemma_inserted_len(ids.drop_last(), x);
    }
}

/// The members of a room are its sessions, each once, and its channels are those
/// of its sessions.
pub proof fn law_members_are_the_sessions(room: Map<u64, SessionV>)
    requires
        room.dom().finite(),
    ensures
        shows(db::roster(room), room),
        shows_only(db::roster(room), room),
        db::roster(room).len() == room.dom().len(),
        reaches(db::channels(room), room),
        union::distinct(db::roster(room)),
{
    reveal(listed);
    reveal(is_here);
    reveal(listens);
    let ids = lemma_listing(room.dom());
    let members = db::roster(room);
    let channels = db::channels(room);
    assert forall|conn: u64| #[trigger] room.contains_key(conn) implies listed(
        members,
        conn,
        room[conn],
    ) && channels.contains(room[conn].channel) by {
        assert(room.dom().contains(conn));
        let k = ids.index_of(conn);
        assert(stands_for(members[k], conn, room[conn]));
        assert(channels[k] == room[conn].channel);
    }
    assert forall|i: int| 0 <= i < members.len() implies is_here(
        #[trigger] members[i],
        room,
    ) by {
        assert(ids.contains(ids[i]));
        assert(room.dom().contains(ids[i]));
        assert(room.contains_key(ids[i]));
    }
    assert forall|i: int| 0 <= i < channels.len() implies listens(
        #[trigger] channels[i],
        room,
    ) by {
        assert(ids.contains(ids[i]));
        assert(room.dom().contains(ids[i]));
        assert(room.contains_key(ids[i]));
    }
    assert forall|i: int, j: int| 0 <= i < j < members.len() implies (#[trigger] members[i]).connection_id
        != (#[trigger] members[j]).connection_id by {
        assert(idmap::precedes(ids[i], ids[j]));
        numbering::lemma_dec(ids[i] as nat);
        numbering::lemma_dec(ids[j] as nat);
    }
}


proof fn lemma_prefix_shows(local: Seq<MemberV>, all: Seq<MemberV>, room: Map<u64, SessionV>)
    requires
        shows(local, room),
        all.len() >= local.len(),
        all.take(local.len() as int) == local,
    ensures
        shows(all, room),
{
    assert forall|conn: u64| #[trigger] room.contains_key(conn) implies listed(
        all,
        conn,
        room[conn],
    ) by {
        reveal(listed);
        let i = choose|i: int|
            0 <= i < local.len() && stands_for(#[trigger] local[i], conn, room[conn]);
        assert(all.take(local.len() as int)[i] == all[i]);
        assert(stands_for(all[i], conn, room[conn]));
    }
}

proof fn lemma_everyone(m: ManagerV, name: Seq<char>, room: Seq<char>)
    requires
        sessions(m, name, room).dom().finite(),
    ensures
        ({
            let here = sessions(m, name, room);
            let all = manager::everyone(m, name, room);
            &&& here.dom().len() > 0 ==> all.len() > 0
            &&& !m.multi_instance ==> shows_only(all, here) && all.len() == here.dom().len()
            &&& !m.multi_instance || here.dom().len() <= m.config.max_room_size ==> shows(all, here)
        }),
{
    let here = sessions(m, name, room);
    let local = db::roster(here);
    let cap = m.config.max_room_size as nat;
    law_members_are_the_sessions(here);
    if m.multi_instance {
        let peers = manager::reports(m.peers, name, room);
        let all = union::union_of(local, peers, cap);
        if local.len() > 0 {
            union::lemma_union_occupied(local, peers, cap);
        }
        if local.len() <= cap {
            union::law_local_members_come_first(local, peers, cap);
            lemma_prefix_shows(local, all, here);
        }
    }
}

proof fn lemma_told(m: ManagerV, name: Seq<char>, room: Seq<char>)
    requires
        sessions(m, name, room).dom().finite(),
        occupied(m, name, room),
        m.dirty.contains((name, room)),
    ensures
        flush_tells(m, name, room),
{
    let here = sessions(m, name, room);
    let conn = choose|conn: u64| #[trigger] here.contains_key(conn);
    assert(here.dom().contains(conn));
    assert(here.dom().len() > 0);
    lemma_everyone(m, name, room);
    law_members_are_the_sessions(here);
    let b = BroadcastV {
        db: name,
        room,
        members: manager::everyone(m, name, room),
        channels: db::channels(here),
    };
    assert(tells(b, m, name, room));
    laws::law_flush_reaches_marked_rooms(m, m.dirty, name, room);
    let bs = manager::broadcasts(m, m.dirty);
    assert(bs[bs.index_of(b)] == b);
}

proof fn lemma_finite(a: Set<u64>, b: Set<u64>)
    requires
        a.finite(),
        b.subset_of(a),
    ensures
        b.finite(),
{
    vstd::set_lib::lemma_set_subset_finite(a, b);
}

proof fn lemma_marked(
    dirty: Seq<(Seq<char>, Seq<char>)>,
    key: (Seq<char>, Seq<char>),
    other: (Seq<char>, Seq<char>),
)
    ensures
        manager::marked(dirty, key).contains(key),
        dirty.contains(other) ==> manager::marked(dirty, key).contains(other),
{
    laws::law_marks_coalesce(dirty, key);
    if dirty.contains(other) {
        let i = dirty.index_of(other);
        assert(manager::marked(dirty, key)[i] == other);
    }
}

/// A step that leaves every room but one as it was, and marks that one where it
/// is another now, is told.
proof fn lemma_one_room(m: ManagerV, n: ManagerV, name: Seq<char>, room: Seq<char>)
    requires
        finite_rooms(m),
        sessions(n, name, room).dom().finite(),
        n.peers == m.peers || n.dirty.contains((name, room)),
        forall|d: Seq<char>, r: Seq<char>|
            (d, r) != (name, room) ==> #[trigger] sessions(n, d, r) == sessions(m, d, r)
                && manager::reports(n.peers, d, r) == manager::reports(m.peers, d, r),
        forall|d: Seq<char>, r: Seq<char>| #[trigger]
            m.dirty.contains((d, r)) ==> n.dirty.contains((d, r)),
        sessions(n, name, room) == sessions(m, name, room) || n.dirty.contains((name, room)),
    ensures
        change_is_told(m, n),
        finite_rooms(n),
{
    assert forall|d: Seq<char>, r: Seq<char>| (#[trigger] sessions(n, d, r)).dom().finite() by {
        if (d, r) != (name, room) {
            assert(sessions(m, d, r).dom().finite());
        }
    }
    assert forall|d: Seq<char>, r: Seq<char>|
        #![trigger sessions(n, d, r)]
        occupied(n, d, r) && (differs(m, n, d, r) || m.dirty.contains(
            (d, r),
        )) implies flush_tells(n, d, r) by {
        assert(m.dirty.contains((d, r)) ==> n.dirty.contains((d, r)));
        lemma_told(n, d, r);
    }
}

/// Whoever joins a room is announced to everybody in it, and whoever was in it
/// before stays told.
pub proof fn law_join_is_told(
    m: ManagerV,
    name: Seq<char>,
    conn: u64,
    room: Seq<char>,
    session: SessionV,
)
    requires
        finite_rooms(m),
    ensures
        change_is_told(m, manager::join_outcome(m, name, conn, room, session).after),
        finite_rooms(manager::join_outcome(m, name, conn, room, session).after),
{
    let n = manager::join_outcome(m, name, conn, room, session).after;
    lemma_marked(m.dirty, (name, room), (name, room));
    assert forall|d: Seq<char>, r: Seq<char>| #[trigger] m.dirty.contains((d, r)) implies n.dirty.contains(
        (d, r),
    ) by {
        lemma_marked(m.dirty, (name, room), (d, r));
    }
    let before = sessions(m, name, room);
    assert(before.insert(conn, session).dom() =~= before.dom().insert(conn));
    lemma_one_room(m, n, name, room);
}

/// A new state is announced to everybody in the room.
pub proof fn law_update_is_told(
    m: ManagerV,
    name: Seq<char>,
    conn: u64,
    room: Seq<char>,
    state: JsonV,
    ttl_ms: Option<u64>,
    now: i64,
)
    requires
        finite_rooms(m),
    ensures
        change_is_told(
            m,
            manager::update_outcome(m, name, conn, room, state, ttl_ms, now).after,
        ),
        finite_rooms(manager::update_outcome(m, name, conn, room, state, ttl_ms, now).after),
{
    let n = manager::update_outcome(m, name, conn, room, state, ttl_ms, now).after;
    lemma_marked(m.dirty, (name, room), (name, room));
    assert forall|d: Seq<char>, r: Seq<char>| #[trigger] m.dirty.contains((d, r)) implies n.dirty.contains(
        (d, r),
    ) by {
        lemma_marked(m.dirty, (name, room), (d, r));
    }
    let before = sessions(m, name, room);
    assert(sessions(n, name, room).dom().subset_of(before.dom().insert(conn)));
    lemma_finite(before.dom().insert(conn), sessions(n, name, room).dom());
    lemma_one_room(m, n, name, room);
}

/// Whoever leaves a room is announced to those who stay.
pub proof fn law_leave_is_told(m: ManagerV, name: Seq<char>, conn: u64, room: Seq<char>)
    requires
        finite_rooms(m),
    ensures
        change_is_told(m, manager::leave_outcome(m, name, conn, room).0),
        finite_rooms(manager::leave_outcome(m, name, conn, room).0),
{
    let n = manager::leave_outcome(m, name, conn, room).0;
    lemma_marked(m.dirty, (name, room), (name, room));
    assert forall|d: Seq<char>, r: Seq<char>| #[trigger] m.dirty.contains((d, r)) implies n.dirty.contains(
        (d, r),
    ) by {
        lemma_marked(m.dirty, (name, room), (d, r));
    }
    let before = sessions(m, name, room);
    let after = sessions(n, name, room);
    assert(after.dom().subset_of(before.dom()));
    lemma_finite(before.dom(), after.dom());
    if !before.contains_key(conn) {
        assert(before.remove(conn) =~= before);
        assert(after =~= before);
    }
    lemma_one_room(m, n, name, room);
}

proof fn lemma_vacated(
    rooms: Map<Seq<char>, Map<u64, SessionV>>,
    conn: u64,
    list: Seq<Seq<char>>,
    r: Seq<char>,
)
    ensures
        ({
            let after = db::all_vacated(rooms, conn, list);
            &&& after.contains_key(r) ==> rooms.contains_key(r) && after[r].dom().subset_of(
                rooms[r].dom(),
            )
            &&& !list.contains(r) ==> (after.contains_key(r) <==> rooms.contains_key(r)) && (
            rooms.contains_key(r) ==> after[r] == rooms[r])
        }),
    decreases list.len(),
{
    if list.len() > 0 {
        let head = list.drop_last();
        lemma_vacated(rooms, conn, head, r);
        assert(list[list.len() - 1] == list.last());
        if head.contains(r) {
            assert(list[head.index_of(r)] == r);
        }
    }
}

proof fn lemma_all_marked(
    dirty: Seq<(Seq<char>, Seq<char>)>,
    name: Seq<char>,
    rooms: Seq<Seq<char>>,
    key: (Seq<char>, Seq<char>),
)
    ensures
        dirty.contains(key) || (key.0 == name && rooms.contains(key.1)) ==> manager::all_marked(
            dirty,
            name,
            rooms,
        ).contains(key),
    decreases rooms.len(),
{
    if rooms.len() > 0 {
        let head = rooms.drop_last();
        lemma_all_marked(dirty, name, head, key);
        lemma_marked(manager::all_marked(dirty, name, head), (name, rooms.last()), key);
        if rooms.contains(key.1) {
            let i = rooms.index_of(key.1);
            if i < head.len() {
                assert(head[i] == key.1);
            }
        }
    }
}

/// The end of a connection is announced in every room that it was in, to those
/// who stay.
pub proof fn law_disconnect_is_told(m: ManagerV, name: Seq<char>, conn: u64)
    requires
        finite_rooms(m),
    ensures
        change_is_told(m, manager::remove_outcome(m, name, conn).0),
        finite_rooms(manager::remove_outcome(m, name, conn).0),
{
    let n = manager::remove_outcome(m, name, conn).0;
    let d0 = manager::db_of(m, name);
    let list = db::rooms_of(d0, conn);
    assert forall|d: Seq<char>, r: Seq<char>| (#[trigger] sessions(n, d, r)).dom().finite() by {
        assert(sessions(m, d, r).dom().finite());
        if d == name {
            lemma_vacated(d0.rooms, conn, list, r);
            lemma_finite(sessions(m, d, r).dom(), sessions(n, d, r).dom());
        }
    }
    assert forall|d: Seq<char>, r: Seq<char>|
        #![trigger sessions(n, d, r)]
        occupied(n, d, r) && (differs(m, n, d, r) || m.dirty.contains(
            (d, r),
        )) implies flush_tells(n, d, r) by {
        lemma_all_marked(m.dirty, name, list, (d, r));
        if d == name {
            lemma_vacated(d0.rooms, conn, list, r);
        }
        lemma_told(n, d, r);
    }
}

proof fn lemma_cleared_marked(
    dirty: Seq<(Seq<char>, Seq<char>)>,
    list: Seq<(Seq<char>, Seq<char>, u64)>,
    key: (Seq<char>, Seq<char>),
)
    ensures
        dirty.contains(key) ==> sweep::cleared_marked(dirty, list).contains(key),
        forall|i: int|
            0 <= i < list.len() && ((#[trigger] list[i]).0, list[i].1) == key
                ==> sweep::cleared_marked(dirty, list).contains(key),
    decreases list.len(),
{
    if list.len() > 0 {
        let head = list.drop_last();
        lemma_cleared_marked(dirty, head, key);
        lemma_marked(
            sweep::cleared_marked(dirty, head),
            (list.last().0, list.last().1),
            key,
        );
        assert forall|i: int|
            0 <= i < list.len() && ((#[trigger] list[i]).0, list[i].1)
                == key implies sweep::cleared_marked(dirty, list).contains(key) by {
            if i < head.len() {
                assert(head[i] == list[i]);
            }
        }
    }
}

/// The presence after the overdue states on a list were cleared.
pub open spec fn swept(
    m: ManagerV,
    list: Seq<(Seq<char>, Seq<char>, u64)>,
    now: i64,
) -> ManagerV {
    let clear = sweep::all_lapsed(m, now);
    ManagerV { dirty: sweep::cleared_marked(clear.dirty, list), ..clear }
}

/// A state that was cleared is announced to everybody in its room.
pub proof fn law_expiry_is_told(
    m: ManagerV,
    list: Seq<(Seq<char>, Seq<char>, u64)>,
    now: i64,
)
    requires
        finite_rooms(m),
        sweep::lists_cleared(list, m, now),
    ensures
        change_is_told(m, swept(m, list, now)),
        finite_rooms(swept(m, list, now)),
{
    let n = swept(m, list, now);
    assert forall|d: Seq<char>, r: Seq<char>| (#[trigger] sessions(n, d, r)).dom().finite() by {
        assert(sessions(m, d, r).dom().finite());
        assert(sessions(n, d, r).dom() =~= sessions(m, d, r).dom());
    }
    assert forall|d: Seq<char>, r: Seq<char>|
        #![trigger sessions(n, d, r)]
        occupied(n, d, r) && (differs(m, n, d, r) || m.dirty.contains(
            (d, r),
        )) implies flush_tells(n, d, r) by {
        let a = sessions(m, d, r);
        let b = sessions(n, d, r);
        lemma_cleared_marked(m.dirty, list, (d, r));
        if a != b {
            assert(a.dom() =~= b.dom());
            let c = choose|c: u64| a.contains_key(c) && a[c] != #[trigger] b[c];
            if !(a.contains_key(c) && a[c] != b[c]) {
                assert(a =~= b);
            }
            let key = (d, r, c);
            assert(sweep::overdue_at(m, key, now));
            let i = list.index_of(key);
            assert(list[i] == key);
        }
        lemma_told(n, d, r);
    }
}

proof fn lemma_reports_superseded(peers: Seq<PeerV>, p: PeerV, d: Seq<char>, r: Seq<char>)
    requires
        (d, r) != (p.db, p.room),
    ensures
        manager::reports(manager::superseded(peers, p), d, r) == manager::reports(peers, d, r),
    decreases peers.len(),
{
    if peers.len() > 0 {
        let head = peers.drop_last();
        lemma_reports_superseded(head, p, d, r);
        let kept = manager::superseded(head, p);
        assert(kept.push(peers.last()).drop_last() =~= kept);
    }
}

/// What another instance reports of a room is announced to everybody in it.
pub proof fn law_report_is_told(m: ManagerV, p: PeerV)
    requires
        finite_rooms(m),
    ensures
        change_is_told(
            m,
            manager::with_mark(
                ManagerV { peers: manager::reported(m.peers, p), ..m },
                p.db,
                p.room,
            ),
        ),
{
    let n = manager::with_mark(
        ManagerV { peers: manager::reported(m.peers, p), ..m },
        p.db,
        p.room,
    );
    lemma_marked(m.dirty, (p.db, p.room), (p.db, p.room));
    assert forall|d: Seq<char>, r: Seq<char>| #[trigger] m.dirty.contains((d, r)) implies n.dirty.contains(
        (d, r),
    ) by {
        lemma_marked(m.dirty, (p.db, p.room), (d, r));
    }
    assert forall|d: Seq<char>, r: Seq<char>| (d, r) != (p.db, p.room) implies #[trigger] sessions(
        n,
        d,
        r,
    ) == sessions(m, d, r) && manager::reports(n.peers, d, r) == manager::reports(m.peers, d, r) by {
        lemma_reports_superseded(m.peers, p, d, r);
        let kept = manager::superseded(m.peers, p);
        assert(kept.push(p).drop_last() =~= kept);
    }
    assert(sessions(n, p.db, p.room) == sessions(m, p.db, p.room));
    assert(sessions(m, p.db, p.room).dom().finite());
    lemma_one_room(m, n, p.db, p.room);
}

proof fn lemma_reports_live(peers: Seq<PeerV>, oldest: int, d: Seq<char>, r: Seq<char>)
    ensures
        (exists|i: int|
            0 <= i < peers.len() && (#[trigger] peers[i]).last_beat < oldest && peers[i].db == d
                && peers[i].room == r) || manager::reports(manager::live(peers, oldest), d, r)
            == manager::reports(peers, d, r),
    decreases peers.len(),
{
    if peers.len() > 0 {
        let head = peers.drop_last();
        let last = peers.last();
        lemma_reports_live(head, oldest, d, r);
        if exists|i: int|
            0 <= i < head.len() && (#[trigger] head[i]).last_beat < oldest && head[i].db == d
                && head[i].room == r {
            let i = choose|i: int|
                0 <= i < head.len() && (#[trigger] head[i]).last_beat < oldest && head[i].db == d
                    && head[i].room == r;
            assert(peers[i] == head[i]);
        } else if last.last_beat < oldest {
            assert(peers[peers.len() - 1] == last);
        } else {
            let kept = manager::live(head, oldest);
            assert(kept.push(last).drop_last() =~= kept);
        }
    }
}

/// That another instance fell silent is announced to everybody in every room
/// that it reported on.
pub proof fn law_silence_is_told(m: ManagerV, oldest: int)
    requires
        finite_rooms(m),
    ensures
        change_is_told(
            m,
            ManagerV {
                peers: manager::live(m.peers, oldest),
                dirty: manager::stale_marked(m.dirty, m.peers, oldest),
                ..m
            },
        ),
{
    let n = ManagerV {
        peers: manager::live(m.peers, oldest),
        dirty: manager::stale_marked(m.dirty, m.peers, oldest),
        ..m
    };
    assert forall|d: Seq<char>, r: Seq<char>|
        #![trigger sessions(n, d, r)]
        occupied(n, d, r) && (differs(m, n, d, r) || m.dirty.contains(
            (d, r),
        )) implies flush_tells(n, d, r) by {
        assert(sessions(n, d, r) == sessions(m, d, r));
        assert(sessions(m, d, r).dom().finite());
        laws::lemma_stale_marked(m.dirty, m.peers, oldest, (d, r));
        lemma_reports_live(m.peers, oldest, d, r);
        if exists|i: int|
            0 <= i < m.peers.len() && (#[trigger] m.peers[i]).last_beat < oldest && m.peers[i].db
                == d && m.peers[i].room == r {
            let i = choose|i: int|
                0 <= i < m.peers.len() && (#[trigger] m.peers[i]).last_beat < oldest
                    && m.peers[i].db == d && m.peers[i].room == r;
            assert((m.peers[i].db, m.peers[i].room) == (d, r));
        }
        lemma_told(n, d, r);
    }
}

/// A payload tells the other instances who of this one is in a room, all of them
/// and nobody else.
pub open spec fn informs(p: PayloadV, m: ManagerV, name: Seq<char>, room: Seq<char>) -> bool {
    let here = sessions(m, name, room);
    &&& p.instance_id == m.instance_id
    &&& p.db == name
    &&& p.room == room
    &&& shows(p.members, here)
    &&& shows_only(p.members, here)
    &&& p.members.len() == here.dom().len()
}

/// An answer informs the other instances of a room, where there are any.
pub open spec fn answer_informs(
    answer: Option<PayloadV>,
    m: ManagerV,
    name: Seq<char>,
    room: Seq<char>,
) -> bool {
    match answer {
        Some(p) => m.multi_instance && informs(p, m, name, room),
        None => !m.multi_instance,
    }
}

/// What a granted request or a departure sends to the other instances is who is
/// in the room after it.
pub proof fn law_other_instances_hear_of_the_room(
    m: ManagerV,
    name: Seq<char>,
    conn: u64,
    room: Seq<char>,
    session: SessionV,
    state: JsonV,
    ttl_ms: Option<u64>,
    now: i64,
)
    requires
        finite_rooms(m),
    ensures
        manager::join_outcome(m, name, conn, room, session).answer matches Ok(a)
            ==> answer_informs(
            a,
            manager::join_outcome(m, name, conn, room, session).after,
            name,
            room,
        ),
        manager::update_outcome(m, name, conn, room, state, ttl_ms, now).answer matches Ok(a)
            ==> answer_informs(
            a,
            manager::update_outcome(m, name, conn, room, state, ttl_ms, now).after,
            name,
            room,
        ),
        sessions(m, name, room).contains_key(conn) ==> answer_informs(
            manager::leave_outcome(m, name, conn, room).1,
            manager::leave_outcome(m, name, conn, room).0,
            name,
            room,
        ),
{
    law_join_is_told(m, name, conn, room, session);
    law_update_is_told(m, name, conn, room, state, ttl_ms, now);
    law_leave_is_told(m, name, conn, room);
    let j = manager::join_outcome(m, name, conn, room, session).after;
    let u = manager::update_outcome(m, name, conn, room, state, ttl_ms, now).after;
    let l = manager::leave_outcome(m, name, conn, room).0;
    assert(sessions(j, name, room).dom().finite());
    assert(sessions(u, name, room).dom().finite());
    assert(sessions(l, name, room).dom().finite());
    law_members_are_the_sessions(sessions(j, name, room));
    law_members_are_the_sessions(sessions(u, name, room));
    law_members_are_the_sessions(sessions(l, name, room));
}

/// The end of a connection sends to the other instances, for every room that it
/// was in, who is in the room after it.
pub proof fn law_other_instances_hear_of_a_disconnect(
    m: ManagerV,
    name: Seq<char>,
    conn: u64,
    room: Seq<char>,
)
    requires
        finite_rooms(m),
        m.multi_instance,
        db::agrees(manager::db_of(m, name)),
        sessions(m, name, room).contains_key(conn),
    ensures
        exists|i: int|
            0 <= i < manager::remove_outcome(m, name, conn).1.len() && informs(
                #[trigger] manager::remove_outcome(m, name, conn).1[i],
                manager::remove_outcome(m, name, conn).0,
                name,
                room,
            ),
{
    let (n, payloads) = manager::remove_outcome(m, name, conn);
    let d = manager::db_of(m, name);
    let rooms = db::rooms_of(d, conn);
    assert(db::present(d, conn, room));
    assert(rooms.contains(room));
    let i = rooms.index_of(room);
    law_disconnect_is_told(m, name, conn);
    assert(sessions(n, name, room).dom().finite());
    law_members_are_the_sessions(sessions(n, name, room));
    let next = manager::with_db(m, name, db::evicted(d, conn));
    assert(payloads[i] == manager::payload(next, name, room));
    assert(sessions(next, name, room) == sessions(n, name, room));
    assert(informs(payloads[i], n, name, room));
}

/// A request is granted only where presence is enabled; one that is refused for a
/// fault in the request changes nothing.
pub proof fn law_refused_requests_leave_the_rooms(
    m: ManagerV,
    name: Seq<char>,
    conn: u64,
    room: Seq<char>,
    session: SessionV,
    state: JsonV,
    ttl_ms: Option<u64>,
    now: i64,
    d: Seq<char>,
    r: Seq<char>,
)
    ensures
        !m.config.enabled ==> manager::join_outcome(m, name, conn, room, session).answer is Err
            && manager::update_outcome(m, name, conn, room, state, ttl_ms, now).answer is Err,
        manager::join_outcome(m, name, conn, room, session).answer is Err ==> sessions(
            manager::join_outcome(m, name, conn, room, session).after,
            d,
            r,
        ) == sessions(m, d, r),
        manager::update_outcome(m, name, conn, room, state, ttl_ms, now).answer is Err ==> sessions(
            manager::update_outcome(m, name, conn, room, state, ttl_ms, now).after,
            d,
            r,
        ) == sessions(m, d, r),
{
}

} // verus!
