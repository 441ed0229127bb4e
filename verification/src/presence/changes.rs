//! What a request changes in the rooms, and what it leaves alone.
#[allow(unused_imports)]
use vstd::prelude::*;

use crate::error;
use crate::json::JsonV;
use crate::presence::db;
use crate::presence::db::{DbV, SessionV};
use crate::presence::laws;

verus! {

/// The session of a connection in a room; none where it is not in it.
pub open spec fn session_at(d: DbV, conn: u64, room: Seq<char>) -> Option<SessionV> {
    if db::room_of(d, room).contains_key(conn) {
        Some(db::room_of(d, room)[conn])
    } else {
        None
    }
}

/// Only one session differs.
pub open spec fn only_changes(before: DbV, after: DbV, conn: u64, room: Seq<char>) -> bool {
    forall|c: u64, r: Seq<char>|
        (c, r) != (conn, room) ==> #[trigger] session_at(after, c, r) == session_at(before, c, r)
}

/// Whoever may join a room is in it from then on, as the session given; nobody
/// else is touched. Whoever may not join leaves everything as it was.
pub proof fn law_join_enters_one_session(
    d: DbV,
    conn: u64,
    room: Seq<char>,
    session: SessionV,
    max_rooms: usize,
    max_size: usize,
)
    ensures
        ({
            let after = db::joined(d, conn, room, session, max_rooms, max_size);
            &&& only_changes(d, after, conn, room)
            &&& session_at(after, conn, room) == if db::join_fault(
                d,
                conn,
                room,
                max_rooms,
                max_size,
            ) is None {
                Some(session)
            } else {
                session_at(d, conn, room)
            }
        }),
{
}

/// A connection is refused a room exactly if it is not in it and is in as many
/// rooms as it may be, or the room holds as many as it may.
pub proof fn law_join_is_refused_at_the_limits(
    d: DbV,
    conn: u64,
    room: Seq<char>,
    max_rooms: usize,
    max_size: usize,
)
    requires
        db::agrees(d),
    ensures
        db::join_fault(d, conn, room, max_rooms, max_size) is Some <==> session_at(
            d,
            conn,
            room,
        ) is None && (db::rooms_of(d, conn).len() >= max_rooms || db::room_of(d, room).dom().len()
            >= max_size),
{
    assert(db::present(d, conn, room) <==> db::rooms_of(d, conn).contains(room));
}

/// Whoever leaves a room is no longer in it, and nobody else is touched.
pub proof fn law_leave_ends_one_session(d: DbV, conn: u64, room: Seq<char>)
    ensures
        only_changes(d, db::left(d, conn, room), conn, room),
        session_at(db::left(d, conn, room), conn, room) is None,
{
    let after = db::left(d, conn, room);
    let rest = db::room_of(d, room).remove(conn);
    assert forall|c: u64, r: Seq<char>| (c, r) != (conn, room) implies #[trigger] session_at(
        after,
        c,
        r,
    ) == session_at(d, c, r) by {
        if r == room && rest == Map::<u64, SessionV>::empty() {
            assert(!rest.contains_key(c));
        }
    }
}

proof fn lemma_vacated_session(
    rooms: Map<Seq<char>, Map<u64, SessionV>>,
    conn: u64,
    list: Seq<Seq<char>>,
    c: u64,
    r: Seq<char>,
)
    requires
        c != conn,
    ensures
        ({
            let after = db::all_vacated(rooms, conn, list);
            &&& (after.contains_key(r) && after[r].contains_key(c)) <==> (rooms.contains_key(r)
                && rooms[r].contains_key(c))
            &&& after.contains_key(r) && after[r].contains_key(c) ==> after[r][c] == rooms[r][c]
        }),
    decreases list.len(),
{
    if list.len() > 0 {
        lemma_vacated_session(rooms, conn, list.drop_last(), c, r);
        let mid = db::all_vacated(rooms, conn, list.drop_last());
        let x = list.last();
        if mid.contains_key(x) && mid[x].remove(conn) == Map::<u64, SessionV>::empty() {
            assert(!mid[x].remove(conn).contains_key(c));
        }
    }
}

/// The end of a connection ends all its sessions, and no session of another.
pub proof fn law_disconnect_ends_all_sessions(d: DbV, conn: u64, c: u64, room: Seq<char>)
    requires
        db::agrees(d),
    ensures
        session_at(db::evicted(d, conn), conn, room) is None,
        c != conn ==> session_at(db::evicted(d, conn), c, room) == session_at(d, c, room),
{
    laws::law_eviction_leaves_no_trace(d, conn);
    assert(!db::present(db::evicted(d, conn), conn, room));
    if c != conn {
        lemma_vacated_session(d.rooms, conn, db::rooms_of(d, conn), c, room);
    }
}

/// An update that is granted gives the session the new state and nothing else but
/// the time and the deadline; no other session is touched.
pub proof fn law_update_changes_one_state(
    d: DbV,
    conn: u64,
    room: Seq<char>,
    state: JsonV,
    ttl_ms: Option<u64>,
    now: i64,
    limit: u32,
)
    ensures
        ({
            let after = db::updated(d, conn, room, state, ttl_ms, now, limit);
            &&& only_changes(d, after, conn, room)
            &&& match (db::update_fault(d, conn, room, now, limit), session_at(d, conn, room)) {
                (None, Some(s)) => session_at(after, conn, room) matches Some(t) && t.state == state
                    && t.updated_at == now && t.user == s.user && t.channel == s.channel && (
                t.expires_at is None <==> ttl_ms is None),
                (None, None) => false,
                (Some(_), s) => session_at(after, conn, room) == s,
            }
        }),
{
}

/// A state with a time to live is overdue from the moment on when that time is
/// over, and not before.
pub proof fn law_state_lives_as_long_as_it_is_given(
    d: DbV,
    conn: u64,
    room: Seq<char>,
    state: JsonV,
    ttl: u64,
    now: i64,
    limit: u32,
    later: i64,
)
    requires
        db::update_fault(d, conn, room, now, limit) is None,
        now + ttl <= i64::MAX,
    ensures
        session_at(
            db::updated(d, conn, room, state, Some(ttl), now, limit),
            conn,
            room,
        ) matches Some(s) && (db::overdue(s, later) <==> now + ttl <= later),
{
}

/// Clearing touches overdue sessions alone: they lose their state and nothing
/// else.
pub proof fn law_expiry_clears_overdue_states_alone(
    d: DbV,
    conn: u64,
    room: Seq<char>,
    now: i64,
)
    ensures
        match session_at(d, conn, room) {
            None => session_at(db::lapsed_db(d, now), conn, room) is None,
            Some(s) => session_at(db::lapsed_db(d, now), conn, room) matches Some(t) && t.user
                == s.user && t.channel == s.channel && t.updated_at == s.updated_at && if (
            s.expires_at matches Some(end) && end <= now) {
                t.state == JsonV::Null && t.expires_at is None
            } else {
                t == s
            },
        },
{
}

/// Within a second of the first update that counts, a connection has as many
/// updates as the limit says, and is refused the next; from then on it counts
/// anew. An update by a connection that is not in the room does not count.
pub proof fn law_updates_are_limited_per_second(
    d: DbV,
    conn: u64,
    room: Seq<char>,
    now: i64,
    limit: u32,
)
    requires
        db::present(d, conn, room),
        limit < u32::MAX,
    ensures
        db::update_fault(d, conn, room, now, limit) is Some <==> (if d.update_window.contains_key(
            conn,
        ) && now < d.update_window[conn].start + 1000 {
            d.update_window[conn].count >= limit
        } else {
            limit == 0
        }),
{
}

/// Every update of a connection that is in the room is counted once, refused or
/// not, and those of others are not touched.
pub proof fn law_updates_are_counted(
    d: DbV,
    conn: u64,
    room: Seq<char>,
    state: JsonV,
    ttl_ms: Option<u64>,
    now: i64,
    limit: u32,
    c: u64,
)
    requires
        db::present(d, conn, room),
    ensures
        ({
            let after = db::updated(d, conn, room, state, ttl_ms, now, limit).update_window;
            let open = d.update_window.contains_key(conn) && now < d.update_window[conn].start
                + 1000;
            &&& after.contains_key(conn)
            &&& open ==> after[conn].start == d.update_window[conn].start && (
            d.update_window[conn].count < u32::MAX ==> after[conn].count
                == d.update_window[conn].count + 1)
            &&& !open ==> after[conn].start == now && after[conn].count == 1
            &&& c != conn ==> (after.contains_key(c) <==> d.update_window.contains_key(c)) && (
            after.contains_key(c) ==> after[c] == d.update_window[c])
        }),
{
}

/// Whoever waits as long as a refusal says may update again.
pub proof fn law_waiting_ends_the_refusal(
    d: DbV,
    conn: u64,
    room: Seq<char>,
    now: i64,
    limit: u32,
    later: i64,
)
    requires
        0 < limit < u32::MAX,
        db::present(d, conn, room),
        d.update_window.contains_key(conn),
        d.update_window[conn].start <= now,
        db::update_fault(d, conn, room, now, limit) is Some,
        later >= now + 1000 * db::retry_after(db::counted(d, conn, now).start, now),
    ensures
        db::update_fault(d, conn, room, now, limit) == Some(
            error::too_often(db::retry_after(db::counted(d, conn, now).start, now)),
        ),
        db::update_fault(d, conn, room, later, limit) is None,
{
}

} // verus!
