//! Presence over all databases: requests, expiry, broadcasts, and the exchange
//! with other instances of the server.
#[allow(unused_imports)]
use vstd::prelude::*;
#[allow(unused_imports)]
use vstd::string::*;

use crate::error;
use crate::error::{ErrorV, RtDbError};
use crate::json;
use crate::json::{Json, JsonV};
use crate::presence::config;
use crate::presence::config::{validate_room, validate_state, validate_ttl, PresenceConfig};
use crate::presence::db;
use crate::presence::db::{DbPresence, DbV, Expiry, Session, SessionV};
use crate::presence::union;
use crate::presence::union::{build_union, PeerMembers};
use crate::protocol;
use crate::protocol::{copy_members, AuthedUser, MemberV, PresenceMember};
use crate::strmap::StrMap;
use crate::text;
use crate::text::same;

verus! {

/// A room of a database.
#[derive(Debug)]
pub struct RoomKey {
    pub db: String,
    pub room: String,
}

/// The views of rooms of databases.
pub open spec fn key_views(v: Seq<RoomKey>) -> Seq<(Seq<char>, Seq<char>)> {
    Seq::new(v.len(), |i: int| (v[i].db@, v[i].room@))
}

/// What an instance last reported of a room, and when.
#[derive(Debug)]
pub struct PeerSnapshot {
    pub db: String,
    pub room: String,
    pub instance_id: String,
    pub members: Vec<PresenceMember>,
    pub last_beat: i64,
}

/// The mathematical form of a report.
pub struct PeerV {
    pub db: Seq<char>,
    pub room: Seq<char>,
    pub instance_id: Seq<char>,
    pub members: Seq<MemberV>,
    pub last_beat: i64,
}

impl View for PeerSnapshot {
    type V = PeerV;

    open spec fn view(&self) -> PeerV {
        PeerV {
            db: self.db@,
            room: self.room@,
            instance_id: self.instance_id@,
            members: protocol::member_views(self.members@),
            last_beat: self.last_beat,
        }
    }
}

/// The views of reports.
pub open spec fn peer_views(v: Seq<PeerSnapshot>) -> Seq<PeerV> {
    Seq::new(v.len(), |i: int| v[i]@)
}

/// What an instance tells the others of a room: all its members there.
#[derive(Debug)]
pub struct PresenceNotifyPayload {
    pub instance_id: String,
    pub db: String,
    pub room: String,
    pub members: Vec<PresenceMember>,
}

/// The mathematical form of a payload.
pub struct PayloadV {
    pub instance_id: Seq<char>,
    pub db: Seq<char>,
    pub room: Seq<char>,
    pub members: Seq<MemberV>,
}

impl View for PresenceNotifyPayload {
    type V = PayloadV;

    open spec fn view(&self) -> PayloadV {
        PayloadV {
            instance_id: self.instance_id@,
            db: self.db@,
            room: self.room@,
            members: protocol::member_views(self.members@),
        }
    }
}

/// The views of payloads.
pub open spec fn payload_views(v: Seq<PresenceNotifyPayload>) -> Seq<PayloadV> {
    Seq::new(v.len(), |i: int| v[i]@)
}

/// The members of a room, and the channels that hear of them.
#[derive(Debug)]
pub struct Broadcast {
    pub db: String,
    pub room: String,
    pub members: Vec<PresenceMember>,
    pub channels: Vec<u64>,
}

/// The mathematical form of a broadcast.
pub struct BroadcastV {
    pub db: Seq<char>,
    pub room: Seq<char>,
    pub members: Seq<MemberV>,
    pub channels: Seq<u64>,
}

impl View for Broadcast {
    type V = BroadcastV;

    open spec fn view(&self) -> BroadcastV {
        BroadcastV {
            db: self.db@,
            room: self.room@,
            members: protocol::member_views(self.members@),
            channels: self.channels@,
        }
    }
}

/// The views of broadcasts.
pub open spec fn broadcast_views(v: Seq<Broadcast>) -> Seq<BroadcastV> {
    Seq::new(v.len(), |i: int| v[i]@)
}

/// The presence of all databases.
#[derive(Debug)]
pub struct PresenceManager {
    pub dbs: StrMap<DbPresence>,
    pub dirty: Vec<RoomKey>,
    pub peers: Vec<PeerSnapshot>,
    pub config: PresenceConfig,
    pub multi_instance: bool,
    pub instance_id: String,
}

/// The mathematical form of the presence of all databases: the databases, the
/// rooms to broadcast, the reports of other instances.
pub struct ManagerV {
    pub dbs: Map<Seq<char>, DbV>,
    pub dirty: Seq<(Seq<char>, Seq<char>)>,
    pub peers: Seq<PeerV>,
    pub config: PresenceConfig,
    pub multi_instance: bool,
    pub instance_id: Seq<char>,
}

impl View for PresenceManager {
    type V = ManagerV;

    open spec fn view(&self) -> ManagerV {
        ManagerV {
            dbs: self.dbs@,
            dirty: key_views(self.dirty@),
            peers: peer_views(self.peers@),
            config: self.config,
            multi_instance: self.multi_instance,
            instance_id: self.instance_id@,
        }
    }
}

/// The presence of a database.
pub open spec fn db_of(m: ManagerV, db: Seq<char>) -> DbV {
    if m.dbs.contains_key(db) {
        m.dbs[db]
    } else {
        db::empty_db()
    }
}

/// The presence with another one for a database.
pub open spec fn with_db(m: ManagerV, db: Seq<char>, d: DbV) -> ManagerV {
    ManagerV { dbs: m.dbs.insert(db, d), ..m }
}

/// Rooms to broadcast with one more.
pub open spec fn marked(
    dirty: Seq<(Seq<char>, Seq<char>)>,
    key: (Seq<char>, Seq<char>),
) -> Seq<(Seq<char>, Seq<char>)> {
    if dirty.contains(key) {
        dirty
    } else {
        dirty.push(key)
    }
}

/// The presence with a room to broadcast.
pub open spec fn with_mark(m: ManagerV, db: Seq<char>, room: Seq<char>) -> ManagerV {
    ManagerV { dirty: marked(m.dirty, (db, room)), ..m }
}

/// What the other instances are told of a room. A room that is gone is told as
/// empty.
pub open spec fn payload(m: ManagerV, db: Seq<char>, room: Seq<char>) -> PayloadV {
    PayloadV {
        instance_id: m.instance_id,
        db,
        room,
        members: db::roster(db::room_of(db_of(m, db), room)),
    }
}

/// What the other instances are told of a room, where there are any.
pub open spec fn gossip(m: ManagerV, db: Seq<char>, room: Seq<char>) -> Option<PayloadV> {
    if m.multi_instance {
        Some(payload(m, db, room))
    } else {
        None
    }
}

/// The view of an optional payload.
pub open spec fn opt_payload(o: Option<PresenceNotifyPayload>) -> Option<PayloadV> {
    match o {
        Some(p) => Some(p@),
        None => None,
    }
}

/// The outcome of a request: the presence after it, and what it answers.
pub struct Outcome {
    pub after: ManagerV,
    pub answer: Result<Option<PayloadV>, ErrorV>,
}

/// What a request to join a room does.
pub open spec fn join_outcome(
    m: ManagerV,
    db: Seq<char>,
    conn: u64,
    room: Seq<char>,
    session: SessionV,
) -> Outcome {
    let c = m.config;
    if !c.enabled {
        Outcome { after: m, answer: Err(error::denied("presence not enabled"@)) }
    } else if config::room_fault(room, c) is Some {
        Outcome { after: m, answer: Err(config::room_fault(room, c)->0) }
    } else if config::state_fault(session.state, c) is Some {
        Outcome { after: m, answer: Err(config::state_fault(session.state, c)->0) }
    } else {
        let d = db_of(m, db);
        let next = with_db(
            m,
            db,
            db::joined(d, conn, room, session, c.max_rooms_per_conn, c.max_room_size),
        );
        match db::join_fault(d, conn, room, c.max_rooms_per_conn, c.max_room_size) {
            Some(e) => Outcome { after: next, answer: Err(e) },
            None => Outcome {
                after: with_mark(next, db, room),
                answer: Ok(gossip(next, db, room)),
            },
        }
    }
}

/// What a request to update a state does.
pub open spec fn update_outcome(
    m: ManagerV,
    db: Seq<char>,
    conn: u64,
    room: Seq<char>,
    state: JsonV,
    ttl_ms: Option<u64>,
    now: i64,
) -> Outcome {
    let c = m.config;
    if !c.enabled {
        Outcome { after: m, answer: Err(error::denied("presence not enabled"@)) }
    } else if config::state_fault(state, c) is Some {
        Outcome { after: m, answer: Err(config::state_fault(state, c)->0) }
    } else if config::ttl_fault(ttl_ms, c) is Some {
        Outcome { after: m, answer: Err(config::ttl_fault(ttl_ms, c)->0) }
    } else {
        let d = db_of(m, db);
        let next = with_db(
            m,
            db,
            db::updated(d, conn, room, state, ttl_ms, now, c.update_limit_per_sec),
        );
        match db::update_fault(d, conn, room, now, c.update_limit_per_sec) {
            Some(e) => Outcome { after: next, answer: Err(e) },
            None => Outcome {
                after: with_mark(next, db, room),
                answer: Ok(gossip(next, db, room)),
            },
        }
    }
}

/// What leaving a room does.
pub open spec fn leave_outcome(m: ManagerV, db: Seq<char>, conn: u64, room: Seq<char>) -> (
    ManagerV,
    Option<PayloadV>,
) {
    let d = db_of(m, db);
    let next = with_db(m, db, db::left(d, conn, room));
    if db::present(d, conn, room) {
        (with_mark(next, db, room), gossip(next, db, room))
    } else {
        (next, None)
    }
}

/// The rooms to broadcast with all rooms of a list.
pub open spec fn all_marked(
    dirty: Seq<(Seq<char>, Seq<char>)>,
    db: Seq<char>,
    rooms: Seq<Seq<char>>,
) -> Seq<(Seq<char>, Seq<char>)>
    decreases rooms.len(),
{
    if rooms.len() == 0 {
        dirty
    } else {
        marked(all_marked(dirty, db, rooms.drop_last()), (db, rooms.last()))
    }
}

/// What the other instances are told of all rooms of a list, where there are
/// any instances.
pub open spec fn all_gossip(m: ManagerV, db: Seq<char>, rooms: Seq<Seq<char>>) -> Seq<PayloadV> {
    if m.multi_instance {
        Seq::new(rooms.len(), |i: int| payload(m, db, rooms[i]))
    } else {
        Seq::empty()
    }
}

/// What the end of a connection does.
pub open spec fn remove_outcome(m: ManagerV, db: Seq<char>, conn: u64) -> (
    ManagerV,
    Seq<PayloadV>,
) {
    let d = db_of(m, db);
    let next = with_db(m, db, db::evicted(d, conn));
    let rooms = db::rooms_of(d, conn);
    (
        ManagerV { dirty: all_marked(next.dirty, db, rooms), ..next },
        all_gossip(next, db, rooms),
    )
}

/// Rooms of other databases.
pub open spec fn keys_without(dirty: Seq<(Seq<char>, Seq<char>)>, db: Seq<char>) -> Seq<
    (Seq<char>, Seq<char>),
>
    decreases dirty.len(),
{
    if dirty.len() == 0 {
        Seq::empty()
    } else if dirty.last().0 == db {
        keys_without(dirty.drop_last(), db)
    } else {
        keys_without(dirty.drop_last(), db).push(dirty.last())
    }
}

/// Reports on other databases.
pub open spec fn peers_without(peers: Seq<PeerV>, db: Seq<char>) -> Seq<PeerV>
    decreases peers.len(),
{
    if peers.len() == 0 {
        Seq::empty()
    } else if peers.last().db == db {
        peers_without(peers.drop_last(), db)
    } else {
        peers_without(peers.drop_last(), db).push(peers.last())
    }
}

/// The two reports are of one instance on one room.
pub open spec fn same_source(a: PeerV, b: PeerV) -> bool {
    a.db == b.db && a.room == b.room && a.instance_id == b.instance_id
}

/// Reports with a new one in place of what the instance reported before.
pub open spec fn reported(peers: Seq<PeerV>, p: PeerV) -> Seq<PeerV> {
    superseded(peers, p).push(p)
}

/// Reports that a new one does not replace.
pub open spec fn superseded(peers: Seq<PeerV>, p: PeerV) -> Seq<PeerV>
    decreases peers.len(),
{
    if peers.len() == 0 {
        Seq::empty()
    } else if same_source(peers.last(), p) {
        superseded(peers.drop_last(), p)
    } else {
        superseded(peers.drop_last(), p).push(peers.last())
    }
}

/// The earliest time of a report that still counts.
pub open spec fn cutoff(now: i64, timeout_ms: u64) -> int {
    now - timeout_ms
}

/// Reports that still count.
pub open spec fn live(peers: Seq<PeerV>, oldest: int) -> Seq<PeerV>
    decreases peers.len(),
{
    if peers.len() == 0 {
        Seq::empty()
    } else if peers.last().last_beat >= oldest {
        live(peers.drop_last(), oldest).push(peers.last())
    } else {
        live(peers.drop_last(), oldest)
    }
}

/// The rooms to broadcast with those that a report is dropped of.
pub open spec fn stale_marked(
    dirty: Seq<(Seq<char>, Seq<char>)>,
    peers: Seq<PeerV>,
    oldest: int,
) -> Seq<(Seq<char>, Seq<char>)>
    decreases peers.len(),
{
    if peers.len() == 0 {
        dirty
    } else if peers.last().last_beat >= oldest {
        stale_marked(dirty, peers.drop_last(), oldest)
    } else {
        marked(
            stale_marked(dirty, peers.drop_last(), oldest),
            (peers.last().db, peers.last().room),
        )
    }
}

/// What the instances reported of a room.
pub open spec fn reports(peers: Seq<PeerV>, db: Seq<char>, room: Seq<char>) -> Seq<
    (Seq<char>, Seq<MemberV>),
>
    decreases peers.len(),
{
    if peers.len() == 0 {
        Seq::empty()
    } else if peers.last().db == db && peers.last().room == room {
        reports(peers.drop_last(), db, room).push((peers.last().instance_id, peers.last().members))
    } else {
        reports(peers.drop_last(), db, room)
    }
}

/// The members of a room, those of other instances included.
pub open spec fn everyone(m: ManagerV, db: Seq<char>, room: Seq<char>) -> Seq<MemberV> {
    let local = db::roster(db::room_of(db_of(m, db), room));
    if m.multi_instance {
        union::union_of(local, reports(m.peers, db, room), m.config.max_room_size as nat)
    } else {
        local
    }
}

/// The broadcasts of rooms; a room without members has none.
pub open spec fn broadcasts(m: ManagerV, keys: Seq<(Seq<char>, Seq<char>)>) -> Seq<BroadcastV>
    decreases keys.len(),
{
    if keys.len() == 0 {
        Seq::empty()
    } else {
        let head = broadcasts(m, keys.drop_last());
        let (db, room) = keys.last();
        if everyone(m, db, room).len() == 0 {
            head
        } else {
            head.push(
                BroadcastV {
                    db,
                    room,
                    members: everyone(m, db, room),
                    channels: db::channels(db::room_of(db_of(m, db), room)),
                },
            )
        }
    }
}

fn has_key(dirty: &Vec<RoomKey>, db: &str, room: &str) -> (r: bool)
    ensures
        r == key_views(dirty@).contains((db@, room@)),
{
    let ghost vs = key_views(dirty@);
    let mut i: usize = 0;
    while i < dirty.len()
        invariant
            i <= dirty@.len(),
            vs == key_views(dirty@),
            forall|k: int| 0 <= k < i ==> #[trigger] vs[k] != (db@, room@),
        decreases dirty@.len() - i,
    {
        if same(dirty[i].db.as_str(), db) && same(dirty[i].room.as_str(), room) {
            assert(vs[i as int] == (db@, room@));
            return true;
        }
        i = i + 1;
    }
    false
}

impl PresenceManager {
    /// Presence without anybody.
    pub fn new(config: PresenceConfig, multi_instance: bool, instance_id: String) -> (m:
        PresenceManager)
        ensures
            m@ == (ManagerV {
                dbs: Map::empty(),
                dirty: Seq::empty(),
                peers: Seq::empty(),
                config,
                multi_instance,
                instance_id: instance_id@,
            }),
    {
        let m = PresenceManager {
            dbs: StrMap::new(),
            dirty: Vec::new(),
            peers: Vec::new(),
            config,
            multi_instance,
            instance_id,
        };
        assert(m@.dirty =~= Seq::<(Seq<char>, Seq<char>)>::empty());
        assert(m@.peers =~= Seq::<PeerV>::empty());
        m
    }

    /// The limits.
    pub fn config(&self) -> (c: PresenceConfig)
        ensures
            c == self@.config,
    {
        self.config
    }

    fn take_db(&mut self, db: &str) -> (d: DbPresence)
        ensures
            d@ == db_of(old(self)@, db@),
            final(self)@ == (ManagerV { dbs: old(self)@.dbs.remove(db@), ..old(self)@ }),
    {
        match self.dbs.remove(db) {
            Some(d) => d,
            None => DbPresence::new(),
        }
    }

    fn put_db(&mut self, db: &str, d: DbPresence)
        ensures
            final(self)@ == with_db(old(self)@, db@, d@),
    {
        self.dbs.insert(db.to_owned(), d);
    }

    /// Has a room broadcast with the next flush.
    pub fn mark_dirty(&mut self, db: &str, room: &str)
        ensures
            final(self)@ == with_mark(old(self)@, db@, room@),
    {
        if !has_key(&self.dirty, db, room) {
            let ghost before = key_views(self.dirty@);
            self.dirty.push(RoomKey { db: db.to_owned(), room: room.to_owned() });
            assert(key_views(self.dirty@) =~= before.push((db@, room@)));
        }
    }

    /// Clears the overdue states of a database. Gives what was cleared.
    pub fn sweep_db(&mut self, db: &str, now: i64) -> (r: Vec<Expiry>)
        ensures
            final(self)@ == with_db(
                old(self)@,
                db@,
                db::lapsed_db(db_of(old(self)@, db@), now),
            ),
            db::lists_overdue(db::expiry_views(r@), db_of(old(self)@, db@), now),
    {
        let ghost before = self@;
        let mut d = self.take_db(db);
        let list = d.expire(now);
        let ghost dv = d@;
        self.put_db(db, d);
        assert(self@.dbs =~= before.dbs.insert(db@, dv));
        list
    }

    /// What the other instances are told of a room.
    pub fn room_payload(&self, db: &str, room: &str) -> (r: PresenceNotifyPayload)
        ensures
            r@ == payload(self@, db@, room@),
    {
        PresenceNotifyPayload {
            instance_id: self.instance_id.clone(),
            db: db.to_owned(),
            room: room.to_owned(),
            members: self.snapshot(db, room),
        }
    }

    fn gossip(&self, db: &str, room: &str) -> (r: Option<PresenceNotifyPayload>)
        ensures
            opt_payload(r) == gossip(self@, db@, room@),
    {
        if self.multi_instance {
            Some(self.room_payload(db, room))
        } else {
            None
        }
    }

    /// The members of a room on this instance.
    pub fn snapshot(&self, db: &str, room: &str) -> (r: Vec<PresenceMember>)
        ensures
            protocol::member_views(r@) == db::roster(db::room_of(db_of(self@, db@), room@)),
    {
        match self.dbs.get(db) {
            Some(d) => d.members(room),
            None => {
                let none = DbPresence::new();
                none.members(room)
            },
        }
    }

    fn channels(&self, db: &str, room: &str) -> (r: Vec<u64>)
        ensures
            r@ == db::channels(db::room_of(db_of(self@, db@), room@)),
    {
        match self.dbs.get(db) {
            Some(d) => d.room_channels(room),
            None => {
                let none = DbPresence::new();
                none.room_channels(room)
            },
        }
    }

    /// Joins a room. Joining again replaces the session. Gives what to tell the
    /// other instances.
    pub fn join(
        &mut self,
        db: &str,
        conn: u64,
        room: &str,
        state: Option<Json>,
        user: AuthedUser,
        channel: u64,
        now: i64,
    ) -> (r: Result<Option<PresenceNotifyPayload>, RtDbError>)
        ensures
            ({
                let session = SessionV {
                    user: user@,
                    state: match state {
                        Some(s) => s@,
                        None => JsonV::Null,
                    },
                    channel,
                    updated_at: now,
                    expires_at: None,
                };
                let o = join_outcome(old(self)@, db@, conn, room@, session);
                &&& final(self)@ == o.after
                &&& match o.answer {
                    Ok(p) => r matches Ok(x) && opt_payload(x) == p,
                    Err(e) => r matches Err(x) && x@ == e,
                }
            }),
    {
        broadcast use json::lemma_json_view;

        let ghost before = self@;
        if !self.config.enabled {
            return Err(RtDbError::forbidden("presence not enabled".to_owned()));
        }
        match validate_room(room, &self.config) {
            Ok(_) => {},
            Err(e) => {
                return Err(e);
            },
        }
        let given = match state {
            Some(s) => s,
            None => Json::Null,
        };
        match validate_state(&given, &self.config) {
            Ok(_) => {},
            Err(e) => {
                return Err(e);
            },
        }
        let session = Session { user, state: given, channel, updated_at: now, expires_at: None };
        let mut d = self.take_db(db);
        let joined = d.join(
            conn,
            room,
            session,
            self.config.max_rooms_per_conn,
            self.config.max_room_size,
        );
        let ghost dv = d@;
        self.put_db(db, d);
        assert(self@.dbs =~= before.dbs.insert(db@, dv));
        match joined {
            Ok(_) => {
                let p = self.gossip(db, room);
                self.mark_dirty(db, room);
                Ok(p)
            },
            Err(e) => Err(e),
        }
    }

    /// Updates the state of a connection in a room it is in.
    pub fn update_state(
        &mut self,
        db: &str,
        conn: u64,
        room: &str,
        state: Json,
        ttl_ms: Option<u64>,
        now: i64,
    ) -> (r: Result<Option<PresenceNotifyPayload>, RtDbError>)
        ensures
            ({
                let o = update_outcome(old(self)@, db@, conn, room@, state@, ttl_ms, now);
                &&& final(self)@ == o.after
                &&& match o.answer {
                    Ok(p) => r matches Ok(x) && opt_payload(x) == p,
                    Err(e) => r matches Err(x) && x@ == e,
                }
            }),
    {
        let ghost before = self@;
        if !self.config.enabled {
            return Err(RtDbError::forbidden("presence not enabled".to_owned()));
        }
        match validate_state(&state, &self.config) {
            Ok(_) => {},
            Err(e) => {
                return Err(e);
            },
        }
        match validate_ttl(ttl_ms, &self.config) {
            Ok(_) => {},
            Err(e) => {
                return Err(e);
            },
        }
        let mut d = self.take_db(db);
        let done = d.update(conn, room, state, ttl_ms, now, self.config.update_limit_per_sec);
        let ghost dv = d@;
        self.put_db(db, d);
        assert(self@.dbs =~= before.dbs.insert(db@, dv));
        match done {
            Ok(_) => {
                let p = self.gossip(db, room);
                self.mark_dirty(db, room);
                Ok(p)
            },
            Err(e) => Err(e),
        }
    }

    /// Leaves a room; nothing happens where the connection is not in it.
    pub fn leave(&mut self, db: &str, conn: u64, room: &str) -> (r: Option<PresenceNotifyPayload>)
        ensures
            final(self)@ == leave_outcome(old(self)@, db@, conn, room@).0,
            opt_payload(r) == leave_outcome(old(self)@, db@, conn, room@).1,
    {
        let ghost before = self@;
        let mut d = self.take_db(db);
        let changed = d.leave(conn, room);
        let ghost dv = d@;
        self.put_db(db, d);
        assert(self@.dbs =~= before.dbs.insert(db@, dv));
        if changed {
            let p = self.gossip(db, room);
            self.mark_dirty(db, room);
            p
        } else {
            None
        }
    }

    /// Takes a connection that closed out of all its rooms.
    pub fn remove_conn(&mut self, db: &str, conn: u64) -> (r: Vec<PresenceNotifyPayload>)
        ensures
            final(self)@ == remove_outcome(old(self)@, db@, conn).0,
            payload_views(r@) == remove_outcome(old(self)@, db@, conn).1,
    {
        let ghost before = self@;
        let mut d = self.take_db(db);
        let rooms = d.remove_conn(conn);
        let ghost dv = d@;
        self.put_db(db, d);
        assert(self@.dbs =~= before.dbs.insert(db@, dv));
        let ghost next = self@;
        let ghost names = text::strs(rooms@);
        let mut out: Vec<PresenceNotifyPayload> = Vec::new();
        let mut i: usize = 0;
        assert(names.take(0) =~= Seq::<Seq<char>>::empty());
        assert(payload_views(out@) =~= all_gossip(next, db@, names.take(0)));
        while i < rooms.len()
            invariant
                i <= rooms@.len(),
                names == text::strs(rooms@),
                self@ == (ManagerV {
                    dirty: all_marked(next.dirty, db@, names.take(i as int)),
                    ..next
                }),
                payload_views(out@) == all_gossip(next, db@, names.take(i as int)),
            decreases rooms@.len() - i,
        {
            let ghost head = names.take(i as int);
            let ghost longer = names.take(i as int + 1);
            let ghost told = payload_views(out@);
            assert(longer.drop_last() =~= head);
            assert(longer.last() == rooms@[i as int]@);
            if let Some(p) = self.gossip(db, rooms[i].as_str()) {
                let ghost pv = p@;
                assert(pv == payload(next, db@, rooms@[i as int]@));
                out.push(p);
                assert(payload_views(out@) =~= told.push(pv));
                assert(payload_views(out@) =~= all_gossip(next, db@, longer));
            } else {
                assert(payload_views(out@) =~= all_gossip(next, db@, longer));
            }
            self.mark_dirty(db, rooms[i].as_str());
            i = i + 1;
        }
        assert(names.take(rooms@.len() as int) =~= names);
        out
    }

    /// Forgets a database that was deleted.
    pub fn drop_db(&mut self, db: &str)
        ensures
            final(self)@ == (ManagerV {
                dbs: old(self)@.dbs.remove(db@),
                dirty: keys_without(old(self)@.dirty, db@),
                peers: peers_without(old(self)@.peers, db@),
                ..old(self)@
            }),
    {
        let ghost before = self@;
        let gone = self.dbs.remove(db);
        let mut dirty: Vec<RoomKey> = Vec::new();
        let ghost keys = key_views(self.dirty@);
        let mut i: usize = 0;
        assert(keys.take(0) =~= Seq::<(Seq<char>, Seq<char>)>::empty());
        assert(key_views(dirty@) =~= Seq::<(Seq<char>, Seq<char>)>::empty());
        while i < self.dirty.len()
            invariant
                i <= self.dirty@.len(),
                keys == key_views(self.dirty@),
                key_views(dirty@) == keys_without(keys.take(i as int), db@),
            decreases self.dirty@.len() - i,
        {
            assert(keys.take(i as int + 1).drop_last() =~= keys.take(i as int));
            assert(keys.take(i as int + 1).last() == keys[i as int]);
            if !same(self.dirty[i].db.as_str(), db) {
                let ghost so_far = key_views(dirty@);
                dirty.push(
                    RoomKey { db: self.dirty[i].db.clone(), room: self.dirty[i].room.clone() },
                );
                assert(key_views(dirty@) =~= so_far.push(keys[i as int]));
            }
            i = i + 1;
        }
        assert(keys.take(self.dirty@.len() as int) =~= keys);
        let mut peers: Vec<PeerSnapshot> = Vec::new();
        let ghost pv = peer_views(self.peers@);
        let mut j: usize = 0;
        assert(pv.take(0) =~= Seq::<PeerV>::empty());
        assert(peer_views(peers@) =~= Seq::<PeerV>::empty());
        while j < self.peers.len()
            invariant
                j <= self.peers@.len(),
                pv == peer_views(self.peers@),
                peer_views(peers@) == peers_without(pv.take(j as int), db@),
            decreases self.peers@.len() - j,
        {
            assert(pv.take(j as int + 1).drop_last() =~= pv.take(j as int));
            assert(pv.take(j as int + 1).last() == pv[j as int]);
            if !same(self.peers[j].db.as_str(), db) {
                let ghost so_far = peer_views(peers@);
                peers.push(copy_peer(&self.peers[j]));
                assert(peer_views(peers@) =~= so_far.push(pv[j as int]));
            }
            j = j + 1;
        }
        assert(pv.take(self.peers@.len() as int) =~= pv);
        self.dirty = dirty;
        self.peers = peers;
    }

    /// Takes in what another instance reported of a room.
    pub fn ingest_peer_snapshot(
        &mut self,
        instance_id: &str,
        db: &str,
        room: &str,
        members: Vec<PresenceMember>,
        now: i64,
    )
        ensures
            ({
                let p = PeerV {
                    db: db@,
                    room: room@,
                    instance_id: instance_id@,
                    members: protocol::member_views(members@),
                    last_beat: now,
                };
                final(self)@ == with_mark(
                    ManagerV { peers: reported(old(self)@.peers, p), ..old(self)@ },
                    db@,
                    room@,
                )
            }),
    {
        let p = PeerSnapshot {
            db: db.to_owned(),
            room: room.to_owned(),
            instance_id: instance_id.to_owned(),
            members,
            last_beat: now,
        };
        let ghost added = p@;
        let mut peers: Vec<PeerSnapshot> = Vec::new();
        let ghost pv = peer_views(self.peers@);
        let mut j: usize = 0;
        assert(pv.take(0) =~= Seq::<PeerV>::empty());
        assert(peer_views(peers@) =~= Seq::<PeerV>::empty());
        while j < self.peers.len()
            invariant
                j <= self.peers@.len(),
                pv == peer_views(self.peers@),
                added.db == db@,
                added.room == room@,
                added.instance_id == instance_id@,
                peer_views(peers@) == superseded(pv.take(j as int), added),
            decreases self.peers@.len() - j,
        {
            assert(pv.take(j as int + 1).drop_last() =~= pv.take(j as int));
            assert(pv.take(j as int + 1).last() == pv[j as int]);
            let other = &self.peers[j];
            if !(same(other.db.as_str(), db) && same(other.room.as_str(), room) && same(
                other.instance_id.as_str(),
                instance_id,
            )) {
                let ghost so_far = peer_views(peers@);
                peers.push(copy_peer(other));
                assert(peer_views(peers@) =~= so_far.push(pv[j as int]));
            }
            j = j + 1;
        }
        assert(pv.take(self.peers@.len() as int) =~= pv);
        let ghost kept = peer_views(peers@);
        peers.push(p);
        assert(peer_views(peers@) =~= kept.push(added));
        self.peers = peers;
        self.mark_dirty(db, room);
    }

    /// Drops reports of instances that have been silent too long.
    pub fn expire_peers(&mut self, now: i64)
        ensures
            final(self)@ == (if old(self)@.multi_instance {
                let oldest = cutoff(now, old(self)@.config.beat_timeout_ms);
                ManagerV {
                    peers: live(old(self)@.peers, oldest),
                    dirty: stale_marked(old(self)@.dirty, old(self)@.peers, oldest),
                    ..old(self)@
                }
            } else {
                old(self)@
            }),
    {
        if !self.multi_instance {
            return;
        }
        let ghost before = self@;
        let oldest: i128 = now as i128 - self.config.beat_timeout_ms as i128;
        let mut peers: Vec<PeerSnapshot> = Vec::new();
        let ghost pv = peer_views(self.peers@);
        let n: usize = self.peers.len();
        let mut j: usize = 0;
        assert(pv.take(0) =~= Seq::<PeerV>::empty());
        assert(peer_views(peers@) =~= Seq::<PeerV>::empty());
        while j < n
            invariant
                j <= n,
                n == pv.len(),
                n == self.peers@.len(),
                pv == peer_views(self.peers@),
                oldest == cutoff(now, before.config.beat_timeout_ms),
                self@ == (ManagerV {
                    dirty: stale_marked(before.dirty, pv.take(j as int), oldest as int),
                    ..before
                }),
                peer_views(peers@) == live(pv.take(j as int), oldest as int),
            decreases n - j,
        {
            assert(pv.take(j as int + 1).drop_last() =~= pv.take(j as int));
            assert(pv.take(j as int + 1).last() == pv[j as int]);
            let other = copy_peer(&self.peers[j]);
            if other.last_beat as i128 >= oldest {
                let ghost so_far = peer_views(peers@);
                peers.push(other);
                assert(peer_views(peers@) =~= so_far.push(pv[j as int]));
            } else {
                self.mark_dirty(other.db.as_str(), other.room.as_str());
                assert(peer_views(self.peers@).len() == n);
            }
            j = j + 1;
        }
        assert(pv.take(n as int) =~= pv);
        self.peers = peers;
    }

    fn reports(&self, db: &str, room: &str) -> (r: Vec<PeerMembers>)
        ensures
            union::peer_views(r@) == reports(self@.peers, db@, room@),
    {
        let mut out: Vec<PeerMembers> = Vec::new();
        let ghost pv = peer_views(self.peers@);
        let mut j: usize = 0;
        assert(pv.take(0) =~= Seq::<PeerV>::empty());
        assert(union::peer_views(out@) =~= Seq::<(Seq<char>, Seq<MemberV>)>::empty());
        while j < self.peers.len()
            invariant
                j <= self.peers@.len(),
                pv == peer_views(self.peers@),
                union::peer_views(out@) == reports(pv.take(j as int), db@, room@),
            decreases self.peers@.len() - j,
        {
            assert(pv.take(j as int + 1).drop_last() =~= pv.take(j as int));
            assert(pv.take(j as int + 1).last() == pv[j as int]);
            let other = &self.peers[j];
            if same(other.db.as_str(), db) && same(other.room.as_str(), room) {
                let ghost so_far = union::peer_views(out@);
                out.push(
                    PeerMembers {
                        instance_id: other.instance_id.clone(),
                        members: copy_members(&other.members),
                    },
                );
                assert(union::peer_views(out@) =~= so_far.push(
                    (pv[j as int].instance_id, pv[j as int].members),
                ));
            }
            j = j + 1;
        }
        assert(pv.take(self.peers@.len() as int) =~= pv);
        out
    }

    /// The members of a room, those of other instances included.
    pub fn room_members(&self, db: &str, room: &str) -> (r: Vec<PresenceMember>)
        ensures
            protocol::member_views(r@) == everyone(self@, db@, room@),
    {
        let local = self.snapshot(db, room);
        if self.multi_instance {
            let peers = self.reports(db, room);
            build_union(&local, &peers, self.config.max_room_size)
        } else {
            local
        }
    }

    /// The broadcasts that are due; none is due afterwards.
    pub fn flush_once(&mut self) -> (r: Vec<Broadcast>)
        ensures
            final(self)@ == (ManagerV { dirty: Seq::empty(), ..old(self)@ }),
            broadcast_views(r@) == broadcasts(old(self)@, old(self)@.dirty),
    {
        let ghost before = self@;
        let ghost keys = key_views(self.dirty@);
        let mut out: Vec<Broadcast> = Vec::new();
        let mut i: usize = 0;
        assert(keys.take(0) =~= Seq::<(Seq<char>, Seq<char>)>::empty());
        assert(broadcast_views(out@) =~= Seq::<BroadcastV>::empty());
        while i < self.dirty.len()
            invariant
                i <= self.dirty@.len(),
                keys == key_views(self.dirty@),
                self@ == before,
                broadcast_views(out@) == broadcasts(before, keys.take(i as int)),
            decreases self.dirty@.len() - i,
        {
            assert(keys.take(i as int + 1).drop_last() =~= keys.take(i as int));
            assert(keys.take(i as int + 1).last() == keys[i as int]);
            let db = self.dirty[i].db.as_str();
            let room = self.dirty[i].room.as_str();
            let members = self.room_members(db, room);
            let ghost all = protocol::member_views(members@);
            if members.len() > 0 {
                let ghost so_far = broadcast_views(out@);
                let b = Broadcast {
                    db: db.to_owned(),
                    room: room.to_owned(),
                    members,
                    channels: self.channels(db, room),
                };
                let ghost bv = b@;
                out.push(b);
                assert(broadcast_views(out@) =~= so_far.push(bv));
            } else {
                assert(all.len() == 0);
            }
            i = i + 1;
        }
        assert(keys.take(self.dirty@.len() as int) =~= keys);
        self.dirty = Vec::new();
        assert(key_views(self.dirty@) =~= Seq::<(Seq<char>, Seq<char>)>::empty());
        out
    }
}

/// A copy of a report.
fn copy_peer(p: &PeerSnapshot) -> (r: PeerSnapshot)
    ensures
        r@ == p@,
{
    PeerSnapshot {
        db: p.db.clone(),
        room: p.room.clone(),
        instance_id: p.instance_id.clone(),
        members: copy_members(&p.members),
        last_beat: p.last_beat,
    }
}

} // verus!
