//! The rooms of one database and the sessions in them.
#[allow(unused_imports)]
use vstd::prelude::*;
#[allow(unused_imports)]
use vstd::string::*;

use crate::error;
use crate::error::{ErrorV, RtDbError};
use crate::idmap;
use crate::idmap::IdMap;
use crate::json;
use crate::json::{Json, JsonV};
use crate::protocol;
use crate::protocol::{AuthedUser, MemberV, PresenceMember, UserV};
use crate::schema::has_string;
use crate::strmap;
use crate::strmap::StrMap;
use crate::text;
use crate::text::{dec_u64, same};

verus! {

/// The membership of a connection in a room.
#[derive(Debug)]
pub struct Session {
    pub user: AuthedUser,
    pub state: Json,
    /// The channel over which the connection hears of the room.
    pub channel: u64,
    pub updated_at: i64,
    /// When the state is cleared, in milliseconds; never where none.
    pub expires_at: Option<i64>,
}

/// The mathematical form of a session.
pub struct SessionV {
    pub user: UserV,
    pub state: JsonV,
    pub channel: u64,
    pub updated_at: i64,
    pub expires_at: Option<i64>,
}

impl View for Session {
    type V = SessionV;

    open spec fn view(&self) -> SessionV {
        SessionV {
            user: self.user@,
            state: self.state@,
            channel: self.channel,
            updated_at: self.updated_at,
            expires_at: self.expires_at,
        }
    }
}

/// The rooms of a connection, in the order it joined them.
#[derive(Debug)]
pub struct RoomList {
    pub names: Vec<String>,
}

impl View for RoomList {
    type V = Seq<Seq<char>>;

    open spec fn view(&self) -> Seq<Seq<char>> {
        text::strs(self.names@)
    }
}

/// How often a connection updated its state within the current second.
#[derive(Debug, Clone, Copy)]
pub struct Window {
    pub start: i64,
    pub count: u32,
}

impl View for Window {
    type V = Window;

    open spec fn view(&self) -> Window {
        *self
    }
}

/// The presence of one database.
#[derive(Debug)]
pub struct DbPresence {
    pub rooms: StrMap<IdMap<Session>>,
    pub conn_rooms: IdMap<RoomList>,
    pub update_window: IdMap<Window>,
}

/// The mathematical form of the presence of a database.
pub struct DbV {
    pub rooms: Map<Seq<char>, Map<u64, SessionV>>,
    pub conn_rooms: Map<u64, Seq<Seq<char>>>,
    pub update_window: Map<u64, Window>,
}

impl View for DbPresence {
    type V = DbV;

    open spec fn view(&self) -> DbV {
        DbV {
            rooms: self.rooms@,
            conn_rooms: self.conn_rooms@,
            update_window: self.update_window@,
        }
    }
}

/// A database without presence.
pub open spec fn empty_db() -> DbV {
    DbV { rooms: Map::empty(), conn_rooms: Map::empty(), update_window: Map::empty() }
}

/// The sessions in a room; none where the room does not exist.
pub open spec fn room_of(d: DbV, room: Seq<char>) -> Map<u64, SessionV> {
    if d.rooms.contains_key(room) {
        d.rooms[room]
    } else {
        Map::empty()
    }
}

/// The rooms of a connection.
pub open spec fn rooms_of(d: DbV, conn: u64) -> Seq<Seq<char>> {
    if d.conn_rooms.contains_key(conn) {
        d.conn_rooms[conn]
    } else {
        Seq::empty()
    }
}

/// The connection is in the room.
pub open spec fn present(d: DbV, conn: u64, room: Seq<char>) -> bool {
    room_of(d, room).contains_key(conn)
}

/// The rooms and the lists of rooms per connection agree: a connection is in a
/// room exactly if the room is on its list, once; no list is empty.
pub open spec fn agrees(d: DbV) -> bool {
    &&& forall|conn: u64, room: Seq<char>| #[trigger]
        present(d, conn, room) <==> rooms_of(d, conn).contains(room)
    &&& forall|conn: u64| #[trigger]
        d.conn_rooms.contains_key(conn) ==> d.conn_rooms[conn].len() > 0
            && d.conn_rooms[conn].no_duplicates()
}

/// Why a connection may not join a room, if it may not.
pub open spec fn join_fault(
    d: DbV,
    conn: u64,
    room: Seq<char>,
    max_rooms: usize,
    max_size: usize,
) -> Option<ErrorV> {
    if !rooms_of(d, conn).contains(room) && rooms_of(d, conn).len() >= max_rooms {
        Some(error::denied("too many rooms for this connection"@))
    } else if room_of(d, room).dom().len() >= max_size && !present(d, conn, room) {
        Some(error::denied("room is full"@))
    } else {
        None
    }
}

/// The presence after a connection asked to join a room. A room that refuses
/// because it is full exists from then on.
pub open spec fn joined(
    d: DbV,
    conn: u64,
    room: Seq<char>,
    session: SessionV,
    max_rooms: usize,
    max_size: usize,
) -> DbV {
    match join_fault(d, conn, room, max_rooms, max_size) {
        None => DbV {
            rooms: d.rooms.insert(room, room_of(d, room).insert(conn, session)),
            conn_rooms: if rooms_of(d, conn).contains(room) {
                d.conn_rooms
            } else {
                d.conn_rooms.insert(conn, rooms_of(d, conn).push(room))
            },
            ..d
        },
        Some(e) => if e == error::denied("room is full"@) {
            DbV { rooms: d.rooms.insert(room, room_of(d, room)), ..d }
        } else {
            d
        },
    }
}

/// A room without a connection; none where nobody is left in it.
pub open spec fn vacated(
    rooms: Map<Seq<char>, Map<u64, SessionV>>,
    conn: u64,
    room: Seq<char>,
) -> Map<Seq<char>, Map<u64, SessionV>> {
    if !rooms.contains_key(room) {
        rooms
    } else if rooms[room].remove(conn) == Map::<u64, SessionV>::empty() {
        rooms.remove(room)
    } else {
        rooms.insert(room, rooms[room].remove(conn))
    }
}

/// The presence after a connection left a room.
pub open spec fn left(d: DbV, conn: u64, room: Seq<char>) -> DbV {
    let list = without(rooms_of(d, conn), room);
    DbV {
        rooms: vacated(d.rooms, conn, room),
        conn_rooms: if list.len() == 0 {
            d.conn_rooms.remove(conn)
        } else {
            d.conn_rooms.insert(conn, list)
        },
        ..d
    }
}

/// The names other than one.
pub open spec fn without(names: Seq<Seq<char>>, name: Seq<char>) -> Seq<Seq<char>>
    decreases names.len(),
{
    if names.len() == 0 {
        Seq::empty()
    } else if names.last() == name {
        without(names.drop_last(), name)
    } else {
        without(names.drop_last(), name).push(names.last())
    }
}

/// Rooms after a connection left those on a list, in order.
pub open spec fn all_vacated(
    rooms: Map<Seq<char>, Map<u64, SessionV>>,
    conn: u64,
    list: Seq<Seq<char>>,
) -> Map<Seq<char>, Map<u64, SessionV>>
    decreases list.len(),
{
    if list.len() == 0 {
        rooms
    } else {
        vacated(all_vacated(rooms, conn, list.drop_last()), conn, list.last())
    }
}

/// The presence after a connection closed.
pub open spec fn evicted(d: DbV, conn: u64) -> DbV {
    DbV {
        rooms: all_vacated(d.rooms, conn, rooms_of(d, conn)),
        conn_rooms: d.conn_rooms.remove(conn),
        update_window: d.update_window.remove(conn),
    }
}

/// The window of a connection with one more update in it. A window lasts a
/// second; the count stays at the largest number once it got there.
pub open spec fn counted(d: DbV, conn: u64, now: i64) -> Window {
    let w = if d.update_window.contains_key(conn) && now - d.update_window[conn].start < 1000 {
        d.update_window[conn]
    } else {
        Window { start: now, count: 0 }
    };
    Window {
        start: w.start,
        count: if w.count == u32::MAX {
            u32::MAX
        } else {
            (w.count + 1) as u32
        },
    }
}

/// In how many seconds the window ends, at least one.
pub open spec fn retry_after(start: i64, now: i64) -> u32 {
    let seconds = (start + 1000 - now) / 1000;
    if seconds < 1 {
        1
    } else if seconds > u32::MAX {
        u32::MAX
    } else {
        seconds as u32
    }
}

/// When a state with the time to live ends; at the end of time where that is
/// beyond it.
pub open spec fn deadline(now: i64, ttl_ms: Option<u64>) -> Option<i64> {
    match ttl_ms {
        Some(t) => Some(
            if now + t > i64::MAX {
                i64::MAX
            } else {
                (now + t) as i64
            },
        ),
        None => None,
    }
}

/// Why a state may not be updated, if it may not.
pub open spec fn update_fault(d: DbV, conn: u64, room: Seq<char>, now: i64, limit: u32) -> Option<
    ErrorV,
> {
    if !present(d, conn, room) {
        Some(error::bad("not present in room"@))
    } else {
        let w = counted(d, conn, now);
        if w.count > limit {
            Some(error::too_often(retry_after(w.start, now)))
        } else {
            None
        }
    }
}

/// The presence after a connection asked to update its state in a room. An
/// update over the limit counts, but leaves the state.
pub open spec fn updated(
    d: DbV,
    conn: u64,
    room: Seq<char>,
    state: JsonV,
    ttl_ms: Option<u64>,
    now: i64,
    limit: u32,
) -> DbV {
    if !present(d, conn, room) {
        d
    } else {
        let counted_db = DbV {
            update_window: d.update_window.insert(conn, counted(d, conn, now)),
            ..d
        };
        if update_fault(d, conn, room, now, limit) is Some {
            counted_db
        } else {
            DbV {
                rooms: d.rooms.insert(
                    room,
                    d.rooms[room].insert(
                        conn,
                        SessionV {
                            state,
                            updated_at: now,
                            expires_at: deadline(now, ttl_ms),
                            ..d.rooms[room][conn]
                        },
                    ),
                ),
                ..counted_db
            }
        }
    }
}

/// The time to live of the session's state is over.
pub open spec fn overdue(s: SessionV, now: i64) -> bool {
    s.expires_at matches Some(t) && t <= now
}

/// A session after its state was cleared where it was overdue.
pub open spec fn lapsed(s: SessionV, now: i64) -> SessionV {
    if overdue(s, now) {
        SessionV { state: JsonV::Null, expires_at: None, ..s }
    } else {
        s
    }
}

/// A room after the overdue states in it were cleared.
pub open spec fn lapsed_room(m: Map<u64, SessionV>, now: i64) -> Map<u64, SessionV> {
    Map::new(|c: u64| m.contains_key(c), |c: u64| lapsed(m[c], now))
}

/// The presence after the overdue states were cleared.
pub open spec fn lapsed_db(d: DbV, now: i64) -> DbV {
    DbV {
        rooms: Map::new(
            |r: Seq<char>| d.rooms.contains_key(r),
            |r: Seq<char>| lapsed_room(d.rooms[r], now),
        ),
        ..d
    }
}

/// A state that was cleared: its room and connection.
#[derive(Debug)]
pub struct Expiry {
    pub room: String,
    pub conn: u64,
}

/// The views of expiries.
pub open spec fn expiry_views(v: Seq<Expiry>) -> Seq<(Seq<char>, u64)> {
    Seq::new(v.len(), |i: int| (v[i].room@, v[i].conn))
}

/// The session of the connection in the room is overdue.
pub open spec fn overdue_in(d: DbV, key: (Seq<char>, u64), now: i64) -> bool {
    present(d, key.1, key.0) && overdue(room_of(d, key.0)[key.1], now)
}

/// An expiry comes before another: by room, then by connection.
pub open spec fn earlier(a: (Seq<char>, u64), b: (Seq<char>, u64)) -> bool {
    text::chars_lt(a.0, b.0) || (a.0 == b.0 && a.1 < b.1)
}

/// The list holds exactly the overdue sessions, each once, by room and
/// connection.
pub open spec fn lists_overdue(list: Seq<(Seq<char>, u64)>, d: DbV, now: i64) -> bool {
    &&& forall|i: int| 0 <= i < list.len() ==> overdue_in(d, #[trigger] list[i], now)
    &&& forall|key: (Seq<char>, u64)| #[trigger] overdue_in(d, key, now) ==> list.contains(key)
    &&& forall|i: int, j: int|
        0 <= i < j < list.len() ==> earlier(#[trigger] list[i], #[trigger] list[j])
}

/// The numbers are those of the set, ascending.
pub open spec fn enumerates(ids: Seq<u64>, s: Set<u64>) -> bool {
    idmap::ascending(ids) && forall|x: u64| #[trigger] s.contains(x) <==> ids.contains(x)
}

/// The numbers of a set, ascending.
pub open spec fn in_order(s: Set<u64>) -> Seq<u64> {
    choose|ids: Seq<u64>| enumerates(ids, s)
}

/// Only one ascending sequence enumerates a set.
pub proof fn lemma_enumerates(a: Seq<u64>, b: Seq<u64>, s: Set<u64>)
    requires
        enumerates(a, s),
        enumerates(b, s),
    ensures
        a == b,
    decreases a.len(),
{
    if a.len() == 0 {
        if b.len() > 0 {
            assert(b.contains(b[0]));
            assert(s.contains(b[0]));
            assert(a.contains(b[0]));
        }
        assert(a =~= b);
    } else {
        assert(a.contains(a.last()));
        assert(s.contains(a.last()));
        assert(b.contains(a.last()));
        assert(b.contains(b.last()));
        assert(s.contains(b.last()));
        assert(a.contains(b.last()));
        let p = b.index_of(a.last());
        let q = a.index_of(b.last());
        if p < b.len() - 1 {
            assert(idmap::precedes(b[p], b[b.len() - 1]));
            if q < a.len() - 1 {
                assert(idmap::precedes(a[q], a[a.len() - 1]));
            }
        }
        assert(a.last() == b.last());
        let x = a.last();
        let t = s.remove(x);
        assert forall|y: u64| #[trigger] t.contains(y) <==> a.drop_last().contains(y) by {
            if t.contains(y) {
                assert(a.contains(y));
                let k = a.index_of(y);
                assert(a.drop_last()[k] == y);
            }
            if a.drop_last().contains(y) {
                let k = a.drop_last().index_of(y);
                assert(a[k] == y);
                assert(idmap::precedes(a[k], a[a.len() - 1]));
                assert(s.contains(y));
            }
        }
        assert forall|y: u64| #[trigger] t.contains(y) <==> b.drop_last().contains(y) by {
            if t.contains(y) {
                assert(b.contains(y));
                let k = b.index_of(y);
                assert(b.drop_last()[k] == y);
            }
            if b.drop_last().contains(y) {
                let k = b.drop_last().index_of(y);
                assert(b[k] == y);
                assert(idmap::precedes(b[k], b[b.len() - 1]));
                assert(s.contains(y));
            }
        }
        assert forall|i: int, j: int| 0 <= i < j < a.len() - 1 implies #[trigger] idmap::precedes(
            a.drop_last()[i],
            a.drop_last()[j],
        ) by {
            assert(idmap::precedes(a[i], a[j]));
        }
        assert forall|i: int, j: int| 0 <= i < j < b.len() - 1 implies #[trigger] idmap::precedes(
            b.drop_last()[i],
            b.drop_last()[j],
        ) by {
            assert(idmap::precedes(b[i], b[j]));
        }
        lemma_enumerates(a.drop_last(), b.drop_last(), t);
        assert(a =~= a.drop_last().push(x));
        assert(b =~= b.drop_last().push(x));
    }
}

/// The keys of a map in iteration order are its domain in order.
pub proof fn lemma_in_order(ids: Seq<u64>, s: Set<u64>)
    requires
        enumerates(ids, s),
    ensures
        in_order(s) == ids,
{
    lemma_enumerates(in_order(s), ids, s);
}

/// A session as a member of its room.
pub open spec fn member(conn: u64, s: SessionV) -> MemberV {
    MemberV { connection_id: text::dec(conn as nat), user: s.user, state: s.state }
}

/// The members of a room, by connection.
pub open spec fn roster(m: Map<u64, SessionV>) -> Seq<MemberV> {
    let ids = in_order(m.dom());
    Seq::new(ids.len(), |i: int| member(ids[i], m[ids[i]]))
}

/// The channels of a room, by connection.
pub open spec fn channels(m: Map<u64, SessionV>) -> Seq<u64> {
    let ids = in_order(m.dom());
    Seq::new(ids.len(), |i: int| m[ids[i]].channel)
}

/// The keys of the map are its domain in order.
pub proof fn lemma_map_order(m: &IdMap<Session>)
    requires
        idmap::ascending(m.keys()),
    ensures
        in_order(m@.dom()) == m.keys(),
{
    m.lemma_keys();
    assert forall|x: u64| #[trigger] m@.dom().contains(x) <==> m.keys().contains(x) by {
        assert(m@.contains_key(x) <==> m.keys().contains(x));
    }
    lemma_in_order(m.keys(), m@.dom());
}

/// The members of a room.
pub fn list_members(m: &IdMap<Session>) -> (r: Vec<PresenceMember>)
    ensures
        protocol::member_views(r@) == roster(m@),
{
    let n: usize = m.len();
    proof {
        lemma_map_order(m);
    }
    let ghost ids = m.keys();
    let mut out: Vec<PresenceMember> = Vec::new();
    let mut i: usize = 0;
    while i < n
        invariant
            i <= n,
            n == ids.len(),
            ids == m.keys(),
            out@.len() == i,
            forall|k: int| 0 <= k < i ==> (#[trigger] out@[k])@ == member(ids[k], m@[ids[k]]),
        decreases n - i,
    {
        let s = m.value_at(i);
        out.push(
            PresenceMember {
                connection_id: dec_u64(m.key_at(i)),
                user: s.user.copy(),
                state: s.state.copy(),
            },
        );
        i = i + 1;
    }
    assert(protocol::member_views(out@) =~= roster(m@));
    out
}

/// The channels of a room.
pub fn list_channels(m: &IdMap<Session>) -> (r: Vec<u64>)
    ensures
        r@ == channels(m@),
{
    let n: usize = m.len();
    proof {
        lemma_map_order(m);
    }
    let ghost ids = m.keys();
    let mut out: Vec<u64> = Vec::new();
    let mut i: usize = 0;
    while i < n
        invariant
            i <= n,
            n == ids.len(),
            ids == m.keys(),
            out@.len() == i,
            forall|k: int| 0 <= k < i ==> #[trigger] out@[k] == m@[ids[k]].channel,
        decreases n - i,
    {
        out.push(m.value_at(i).channel);
        i = i + 1;
    }
    assert(out@ =~= channels(m@));
    out
}

/// Leaves a room: takes the connection out of it, and the room away where
/// nobody is left. Says whether the connection was in the room.
fn vacate(rooms: &mut StrMap<IdMap<Session>>, conn: u64, room: &str) -> (r: bool)
    ensures
        final(rooms)@ == vacated(old(rooms)@, conn, room@),
        r == (old(rooms)@.contains_key(room@) && old(rooms)@[room@].contains_key(conn)),
{
    let ghost before = rooms@;
    match rooms.remove(room) {
        Some(mut m) => {
            let gone = m.remove(conn);
            if m.is_empty() {
                assert(rooms@ =~= vacated(before, conn, room@));
            } else {
                let ghost mv = m@;
                rooms.insert(room.to_owned(), m);
                assert(rooms@ =~= before.insert(room@, mv));
            }
            gone.is_some()
        },
        None => {
            assert(rooms@ =~= before);
            false
        },
    }
}

impl DbPresence {
    /// A database without presence.
    pub fn new() -> (d: DbPresence)
        ensures
            d@ == empty_db(),
    {
        DbPresence { rooms: StrMap::new(), conn_rooms: IdMap::new(), update_window: IdMap::new() }
    }

    fn rooms_joined(&self, conn: u64) -> (r: Vec<String>)
        ensures
            text::strs(r@) == rooms_of(self@, conn),
    {
        match self.conn_rooms.get(conn) {
            Some(list) => crate::schema::copy_strings(&list.names),
            None => {
                let none: Vec<String> = Vec::new();
                assert(text::strs(none@) =~= Seq::<Seq<char>>::empty());
                none
            },
        }
    }

    /// Whether the connection is in the room.
    pub fn is_present(&self, conn: u64, room: &str) -> (r: bool)
        ensures
            r == present(self@, conn, room@),
    {
        match self.rooms.get(room) {
            Some(m) => m.contains_key(conn),
            None => false,
        }
    }

    /// Puts a connection into a room, or replaces its session there.
    pub fn join(
        &mut self,
        conn: u64,
        room: &str,
        session: Session,
        max_rooms: usize,
        max_size: usize,
    ) -> (r: Result<(), RtDbError>)
        ensures
            final(self)@ == joined(old(self)@, conn, room@, session@, max_rooms, max_size),
            match join_fault(old(self)@, conn, room@, max_rooms, max_size) {
                Some(e) => r matches Err(x) && x@ == e,
                None => r is Ok,
            },
    {
        let ghost before = self@;
        let ghost sv = session@;
        proof {
            reveal_strlit("too many rooms for this connection");
            reveal_strlit("room is full");
            assert("too many rooms for this connection"@.len() != "room is full"@.len());
        }
        let mut list = self.rooms_joined(conn);
        let already = has_string(&list, room);
        if !already && list.len() >= max_rooms {
            return Err(RtDbError::forbidden("too many rooms for this connection".to_owned()));
        }
        let mut m = match self.rooms.remove(room) {
            Some(m) => m,
            None => IdMap::new(),
        };
        assert(m@ == room_of(before, room@));
        let full = m.len() >= max_size && !m.contains_key(conn);
        if full {
            self.rooms.insert(room.to_owned(), m);
            assert(self.rooms@ =~= before.rooms.insert(room@, room_of(before, room@)));
            return Err(RtDbError::forbidden("room is full".to_owned()));
        }
        m.insert(conn, session);
        self.rooms.insert(room.to_owned(), m);
        assert(self.rooms@ =~= before.rooms.insert(
            room@,
            room_of(before, room@).insert(conn, sv),
        ));
        if !already {
            let ghost names = text::strs(list@);
            list.push(room.to_owned());
            assert(text::strs(list@) =~= names.push(room@));
            self.conn_rooms.insert(conn, RoomList { names: list });
        }
        Ok(())
    }

    /// Takes a connection out of a room. Says whether it was there.
    pub fn leave(&mut self, conn: u64, room: &str) -> (r: bool)
        ensures
            final(self)@ == left(old(self)@, conn, room@),
            r == present(old(self)@, conn, room@),
    {
        let ghost before = self@;
        let changed = vacate(&mut self.rooms, conn, room);
        let list = self.rooms_joined(conn);
        let ghost names = text::strs(list@);
        let mut kept: Vec<String> = Vec::new();
        let mut i: usize = 0;
        assert(names.take(0) =~= Seq::<Seq<char>>::empty());
        assert(text::strs(kept@) =~= Seq::<Seq<char>>::empty());
        while i < list.len()
            invariant
                i <= list@.len(),
                names == text::strs(list@),
                text::strs(kept@) == without(names.take(i as int), room@),
            decreases list@.len() - i,
        {
            assert(names.take(i as int + 1).drop_last() =~= names.take(i as int));
            assert(names.take(i as int + 1).last() == list@[i as int]@);
            if !same(list[i].as_str(), room) {
                let ghost so_far = text::strs(kept@);
                kept.push(list[i].clone());
                assert(text::strs(kept@) =~= so_far.push(list@[i as int]@));
            }
            i = i + 1;
        }
        assert(names.take(list@.len() as int) =~= names);
        if kept.len() == 0 {
            let gone = self.conn_rooms.remove(conn);
        } else {
            self.conn_rooms.insert(conn, RoomList { names: kept });
        }
        changed
    }

    /// Takes a connection out of all its rooms. Gives the rooms it was in.
    pub fn remove_conn(&mut self, conn: u64) -> (r: Vec<String>)
        ensures
            final(self)@ == evicted(old(self)@, conn),
            text::strs(r@) == rooms_of(old(self)@, conn),
    {
        let ghost before = self@;
        let list = self.rooms_joined(conn);
        let gone = self.conn_rooms.remove(conn);
        let gone_window = self.update_window.remove(conn);
        let ghost names = text::strs(list@);
        let ghost rest = (self.conn_rooms@, self.update_window@);
        let mut i: usize = 0;
        assert(names.take(0) =~= Seq::<Seq<char>>::empty());
        while i < list.len()
            invariant
                i <= list@.len(),
                names == text::strs(list@),
                self.rooms@ == all_vacated(before.rooms, conn, names.take(i as int)),
                rest == (self.conn_rooms@, self.update_window@),
            decreases list@.len() - i,
        {
            assert(names.take(i as int + 1).drop_last() =~= names.take(i as int));
            assert(names.take(i as int + 1).last() == list@[i as int]@);
            let was_there = vacate(&mut self.rooms, conn, list[i].as_str());
            i = i + 1;
        }
        assert(names.take(list@.len() as int) =~= names);
        list
    }

    /// Updates the state of a connection in a room.
    pub fn update(
        &mut self,
        conn: u64,
        room: &str,
        state: Json,
        ttl_ms: Option<u64>,
        now: i64,
        limit: u32,
    ) -> (r: Result<(), RtDbError>)
        ensures
            final(self)@ == updated(old(self)@, conn, room@, state@, ttl_ms, now, limit),
            match update_fault(old(self)@, conn, room@, now, limit) {
                Some(e) => r matches Err(x) && x@ == e,
                None => r is Ok,
            },
    {
        let ghost before = self@;
        let ghost sv = state@;
        if !self.is_present(conn, room) {
            return Err(RtDbError::bad_request("not present in room".to_owned()));
        }
        let mut w = match self.update_window.get(conn) {
            Some(w) => {
                if now as i128 - (w.start as i128) < 1000 {
                    *w
                } else {
                    Window { start: now, count: 0 }
                }
            },
            None => Window { start: now, count: 0 },
        };
        if w.count < u32::MAX {
            w.count = w.count + 1;
        }
        assert(w == counted(before, conn, now));
        self.update_window.insert(conn, w);
        if w.count > limit {
            let left_ms: i128 = w.start as i128 + 1000 - now as i128;
            let retry: u32 = if left_ms < 1000 {
                1
            } else {
                let seconds: i128 = left_ms / 1000;
                if seconds > u32::MAX as i128 {
                    u32::MAX
                } else {
                    seconds as u32
                }
            };
            return Err(RtDbError::rate_limited(retry));
        }
        match self.rooms.remove(room) {
            Some(mut m) => {
                match m.remove(conn) {
                    Some(old_session) => {
                        let expires_at: Option<i64> = match ttl_ms {
                            Some(t) => {
                                let at: i128 = now as i128 + t as i128;
                                if at > i64::MAX as i128 {
                                    Some(i64::MAX)
                                } else {
                                    Some(at as i64)
                                }
                            },
                            None => None,
                        };
                        m.insert(
                            conn,
                            Session {
                                user: old_session.user,
                                state,
                                channel: old_session.channel,
                                updated_at: now,
                                expires_at,
                            },
                        );
                        let ghost want = before.rooms[room@].insert(
                            conn,
                            SessionV {
                                state: sv,
                                updated_at: now,
                                expires_at: deadline(now, ttl_ms),
                                ..before.rooms[room@][conn]
                            },
                        );
                        assert(m@ =~= want);
                        self.rooms.insert(room.to_owned(), m);
                        assert(self.rooms@ =~= before.rooms.insert(room@, want));
                        Ok(())
                    },
                    None => Err(RtDbError::bad_request("not present in room".to_owned())),
                }
            },
            None => Err(RtDbError::bad_request("not present in room".to_owned())),
        }
    }

    /// The members of a room.
    pub fn members(&self, room: &str) -> (r: Vec<PresenceMember>)
        ensures
            protocol::member_views(r@) == roster(room_of(self@, room@)),
    {
        match self.rooms.get(room) {
            Some(m) => list_members(m),
            None => {
                let none: Vec<PresenceMember> = Vec::new();
                proof {
                    let s = Map::<u64, SessionV>::empty().dom();
                    assert(enumerates(Seq::<u64>::empty(), s));
                    lemma_in_order(Seq::<u64>::empty(), s);
                    assert(protocol::member_views(none@) =~= roster(room_of(self@, room@)));
                }
                none
            },
        }
    }

    /// The channels of a room.
    pub fn room_channels(&self, room: &str) -> (r: Vec<u64>)
        ensures
            r@ == channels(room_of(self@, room@)),
    {
        match self.rooms.get(room) {
            Some(m) => list_channels(m),
            None => {
                let none: Vec<u64> = Vec::new();
                proof {
                    let s = Map::<u64, SessionV>::empty().dom();
                    assert(enumerates(Seq::<u64>::empty(), s));
                    lemma_in_order(Seq::<u64>::empty(), s);
                    assert(none@ =~= channels(room_of(self@, room@)));
                }
                none
            },
        }
    }

    /// Clears every overdue state. Membership stays. Gives what was cleared.
    pub fn expire(&mut self, now: i64) -> (r: Vec<Expiry>)
        ensures
            final(self)@ == lapsed_db(old(self)@, now),
            lists_overdue(expiry_views(r@), old(self)@, now),
    {
        broadcast use json::lemma_json_view;

        let ghost before = self@;
        let n: usize = self.rooms.len();
        proof {
            self.rooms.lemma_keys();
        }
        let ghost names = self.rooms.keys();
        let ghost rest = (self.conn_rooms@, self.update_window@);
        let mut out: Vec<Expiry> = Vec::new();
        let mut i: usize = 0;
        assert(expiry_views(out@) =~= Seq::<(Seq<char>, u64)>::empty());
        while i < n
            invariant
                i <= n,
                n == names.len(),
                self.rooms.keys() == names,
                strmap::ascending(names),
                names.no_duplicates(),
                rest == (self.conn_rooms@, self.update_window@),
                self.rooms@.dom() == before.rooms.dom(),
                forall|k: Seq<char>| #[trigger] before.rooms.contains_key(k) <==> names.contains(k),
                forall|k: int|
                    0 <= k < n ==> before.rooms.contains_key(#[trigger] names[k])
                        && self.rooms@[names[k]] == (if k < i {
                        lapsed_room(before.rooms[names[k]], now)
                    } else {
                        before.rooms[names[k]]
                    }),
                forall|k: int|
                    0 <= k < out@.len() ==> overdue_in(
                        before,
                        #[trigger] expiry_views(out@)[k],
                        now,
                    ),
                forall|k: int|
                    0 <= k < out@.len() ==> exists|p: int|
                        0 <= p < i && (#[trigger] expiry_views(out@)[k]).0 == #[trigger] names[p],
                forall|a: int, b: int|
                    0 <= a < b < out@.len() ==> earlier(
                        #[trigger] expiry_views(out@)[a],
                        #[trigger] expiry_views(out@)[b],
                    ),
                forall|p: int, c: u64|
                    0 <= p < i && #[trigger] overdue_in(before, (names[p], c), now)
                        ==> expiry_views(out@).contains((names[p], c)),
            decreases n - i,
        {
            let room = self.rooms.key_at(i).clone();
            let ghost found = expiry_views(out@);
            let (m, conns) = lapse(self.rooms.value_at(i), now);
            self.rooms.set_at(i, m);
            assert(self.rooms@.dom() =~= before.rooms.dom());
            let ghost here = out@.len() as int;
            let mut j: usize = 0;
            while j < conns.len()
                invariant
                    j <= conns@.len(),
                    here == found.len(),
                    out@.len() == here + j,
                    room@ == names[i as int],
                    expiry_views(out@).take(here) == found,
                    forall|k: int|
                        0 <= k < j ==> #[trigger] expiry_views(out@)[here + k] == (
                            room@,
                            conns@[k],
                        ),
                decreases conns@.len() - j,
            {
                let ghost so_far = expiry_views(out@);
                let e = Expiry { room: room.clone(), conn: conns[j] };
                out.push(e);
                assert(expiry_views(out@) =~= so_far.push((room@, conns@[j as int])));
                assert(expiry_views(out@).take(here) =~= so_far.take(here));
                j = j + 1;
            }
            proof {
                let all = expiry_views(out@);
                assert forall|k: int| 0 <= k < all.len() implies (if k < here {
                    #[trigger] all[k] == found[k]
                } else {
                    all[k] == (room@, conns@[k - here])
                }) by {
                    if k < here {
                        assert(all.take(here)[k] == all[k]);
                    } else {
                        assert(all[here + (k - here)] == (room@, conns@[k - here]));
                    }
                }
                assert forall|k: int| 0 <= k < all.len() implies overdue_in(
                    before,
                    #[trigger] all[k],
                    now,
                ) by {
                    if k >= here {
                        assert(conns@.contains(conns@[k - here]));
                    }
                }
                assert forall|k: int| 0 <= k < all.len() implies exists|p: int|
                    0 <= p < i + 1 && (#[trigger] all[k]).0 == #[trigger] names[p] by {
                    if k < here {
                        let p = choose|p: int| 0 <= p < i && found[k].0 == #[trigger] names[p];
                        assert(all[k].0 == names[p]);
                    } else {
                        assert(all[k].0 == names[i as int]);
                    }
                }
                assert forall|a: int, b: int| 0 <= a < b < all.len() implies earlier(
                    #[trigger] all[a],
                    #[trigger] all[b],
                ) by {
                    if b < here {
                        assert(earlier(found[a], found[b]));
                    } else if a < here {
                        let p = choose|p: int| 0 <= p < i && found[a].0 == #[trigger] names[p];
                        assert(text::chars_lt(names[p], names[i as int]));
                    } else {
                        assert(idmap::precedes(conns@[a - here], conns@[b - here]));
                    }
                }
                assert forall|p: int, c: u64|
                    0 <= p < i + 1 && #[trigger] overdue_in(
                        before,
                        (names[p], c),
                        now,
                    ) implies all.contains((names[p], c)) by {
                    if p < i {
                        assert(found.contains((names[p], c)));
                        let q = found.index_of((names[p], c));
                        assert(all[q] == (names[p], c));
                    } else {
                        assert(conns@.contains(c));
                        let q = conns@.index_of(c);
                        assert(all[here + q] == (names[p], c));
                    }
                }
            }
            i = i + 1;
        }
        proof {
            assert forall|k: Seq<char>| #[trigger] self.rooms@.contains_key(k) implies self.rooms@[k]
                == lapsed_room(before.rooms[k], now) by {
                assert(before.rooms.contains_key(k));
                let p = names.index_of(k);
                assert(names[p] == k);
            }
            assert(self.rooms@ =~= lapsed_db(before, now).rooms);
            assert forall|key: (Seq<char>, u64)| #[trigger]
                overdue_in(before, key, now) implies expiry_views(out@).contains(key) by {
                assert(before.rooms.contains_key(key.0));
                let p = names.index_of(key.0);
                assert((names[p], key.1) == key);
            }
        }
        out
    }
}

/// Clears the overdue states of a room. Gives the room and the connections
/// whose states were cleared.
fn lapse(m: &IdMap<Session>, now: i64) -> (r: (IdMap<Session>, Vec<u64>))
    ensures
        r.0@ == lapsed_room(m@, now),
        idmap::ascending(r.1@),
        forall|c: u64| #[trigger]
            r.1@.contains(c) <==> m@.contains_key(c) && overdue(m@[c], now),
{
    broadcast use json::lemma_json_view;

    let n: usize = m.len();
    proof {
        m.lemma_keys();
    }
    let ghost ids = m.keys();
    let mut out: IdMap<Session> = IdMap::new();
    let mut conns: Vec<u64> = Vec::new();
    let mut i: usize = 0;
    while i < n
        invariant
            i <= n,
            n == ids.len(),
            ids == m.keys(),
            idmap::ascending(ids),
            ids.no_duplicates(),
            forall|c: u64| #[trigger] m@.contains_key(c) <==> ids.contains(c),
            forall|c: u64| #[trigger]
                out@.contains_key(c) <==> exists|k: int| 0 <= k < i && #[trigger] ids[k] == c,
            forall|k: int| 0 <= k < i ==> out@[#[trigger] ids[k]] == lapsed(m@[ids[k]], now),
            idmap::ascending(conns@),
            forall|k: int|
                0 <= k < conns@.len() ==> exists|p: int|
                    0 <= p < i && #[trigger] conns@[k] == #[trigger] ids[p],
            forall|c: u64| #[trigger]
                conns@.contains(c) <==> exists|k: int|
                    0 <= k < i && #[trigger] ids[k] == c && overdue(m@[ids[k]], now),
        decreases n - i,
    {
        let ghost done = out@;
        let ghost cleared = conns@;
        let c: u64 = m.key_at(i);
        let s = m.value_at(i);
        let over = match s.expires_at {
            Some(t) => t <= now,
            None => false,
        };
        let session = if over {
            Session {
                user: s.user.copy(),
                state: Json::Null,
                channel: s.channel,
                updated_at: s.updated_at,
                expires_at: None,
            }
        } else {
            Session {
                user: s.user.copy(),
                state: s.state.copy(),
                channel: s.channel,
                updated_at: s.updated_at,
                expires_at: s.expires_at,
            }
        };
        assert(session@ == lapsed(m@[c], now));
        out.insert(c, session);
        if over {
            conns.push(c);
        }
        proof {
            assert(ids[i as int] == c);
            assert forall|x: u64| #[trigger] out@.contains_key(x) <==> exists|k: int|
                0 <= k < i + 1 && #[trigger] ids[k] == x by {
                if out@.contains_key(x) {
                    if x == c {
                        assert(ids[i as int] == x);
                    } else {
                        assert(done.contains_key(x));
                    }
                }
                if exists|k: int| 0 <= k < i + 1 && #[trigger] ids[k] == x {
                    let k = choose|k: int| 0 <= k < i + 1 && #[trigger] ids[k] == x;
                    if k < i {
                        assert(done.contains_key(x));
                    }
                }
            }
            assert forall|k: int| 0 <= k < conns@.len() implies exists|p: int|
                0 <= p < i + 1 && #[trigger] conns@[k] == #[trigger] ids[p] by {
                if k < cleared.len() {
                    let p = choose|p: int| 0 <= p < i && cleared[k] == #[trigger] ids[p];
                    assert(conns@[k] == ids[p]);
                } else {
                    assert(conns@[k] == ids[i as int]);
                }
            }
            assert forall|a: int, b: int| 0 <= a < b < conns@.len() implies #[trigger] idmap::precedes(
                conns@[a],
                conns@[b],
            ) by {
                if b < cleared.len() {
                    assert(idmap::precedes(cleared[a], cleared[b]));
                } else {
                    let p = choose|p: int| 0 <= p < i && cleared[a] == #[trigger] ids[p];
                    assert(idmap::precedes(ids[p], ids[i as int]));
                }
            }
            assert forall|x: u64| #[trigger] conns@.contains(x) <==> exists|k: int|
                0 <= k < i + 1 && #[trigger] ids[k] == x && overdue(m@[ids[k]], now) by {
                if conns@.contains(x) {
                    let q = conns@.index_of(x);
                    if q < cleared.len() {
                        assert(cleared[q] == x);
                        assert(cleared.contains(x));
                    } else {
                        assert(ids[i as int] == x);
                    }
                }
                if exists|k: int|
                    0 <= k < i + 1 && #[trigger] ids[k] == x && overdue(m@[ids[k]], now) {
                    let k = choose|k: int|
                        0 <= k < i + 1 && #[trigger] ids[k] == x && overdue(m@[ids[k]], now);
                    if k < i {
                        assert(cleared.contains(x));
                        let q = cleared.index_of(x);
                        assert(conns@[q] == x);
                    } else {
                        assert(conns@[conns@.len() - 1] == x);
                    }
                }
            }
        }
        i = i + 1;
    }
    proof {
        assert forall|x: u64| #[trigger] out@.contains_key(x) <==> m@.contains_key(x) by {
            if m@.contains_key(x) {
                assert(ids.contains(x));
                let k = ids.index_of(x);
                assert(ids[k] == x);
            }
            if out@.contains_key(x) {
                let k = choose|k: int| 0 <= k < n && #[trigger] ids[k] == x;
                assert(ids.contains(x));
            }
        }
        assert forall|x: u64| #[trigger] out@.contains_key(x) implies out@[x] == lapsed(
            m@[x],
            now,
        ) by {
            let k = choose|k: int| 0 <= k < n && #[trigger] ids[k] == x;
            assert(out@[ids[k]] == lapsed(m@[ids[k]], now));
        }
        assert(out@ =~= lapsed_room(m@, now));
        assert forall|x: u64| #[trigger] conns@.contains(x) <==> m@.contains_key(x) && overdue(
            m@[x],
            now,
        ) by {
            if conns@.contains(x) {
                let k = choose|k: int|
                    0 <= k < n && #[trigger] ids[k] == x && overdue(m@[ids[k]], now);
                assert(ids.contains(x));
            }
            if m@.contains_key(x) && overdue(m@[x], now) {
                assert(ids.contains(x));
                let k = ids.index_of(x);
                assert(ids[k] == x);
            }
        }
    }
    (out, conns)
}

} // verus!
