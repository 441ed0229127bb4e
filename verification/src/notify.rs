//! Notifications between instances of the server that share a database.
#[allow(unused_imports)]
use vstd::prelude::*;
#[allow(unused_imports)]
use vstd::string::*;
#[allow(unused_imports)]
use vstd::utf8::*;

use crate::op_feed::{EventV, OpEvent};
use crate::presence::manager::PresenceNotifyPayload;
use crate::text;
use crate::text::same;
use crate::txn::{DocOp, OpKind, OpV, WriteSet};

verus! {

/// The channel of the activity feed.
pub const OP_FEED_CHANNEL: &'static str = "rtdb_ops";

/// The channel of presence.
pub const PRESENCE_CHANNEL: &'static str = "rtdb_presence";

/// The channel that invalidates subscriptions.
pub const WRITE_SET_CHANNEL: &'static str = "rtdb_write_sets";

/// From how many bytes on a write set is spooled instead of sent.
pub const WRITE_SET_INLINE_LIMIT: usize = 7500;

/// How long a listener waits after a failure, in milliseconds.
pub const LISTEN_BACKOFF_MS: u64 = 2_000;

/// What a transaction of a database wrote, for the other instances.
#[derive(Debug, Clone)]
pub struct WriteSetNotifyPayload {
    pub instance_id: String,
    pub db: String,
    pub write_set: WriteSet,
}

/// A write, for the activity feeds of the other instances.
#[derive(Debug, Clone)]
pub struct OpNotifyPayload {
    pub instance_id: String,
    pub db: String,
    pub table: String,
    pub doc_id: String,
    pub kind: OpKind,
    pub ts: i64,
    pub owner: Option<String>,
    pub source: String,
}

/// The mathematical form of a write for the other instances.
pub struct OpPayloadV {
    pub instance_id: Seq<char>,
    pub db: Seq<char>,
    pub table: Seq<char>,
    pub doc_id: Seq<char>,
    pub kind: OpKind,
    pub ts: i64,
    pub owner: Option<Seq<char>>,
    pub source: Seq<char>,
}

impl View for OpNotifyPayload {
    type V = OpPayloadV;

    open spec fn view(&self) -> OpPayloadV {
        OpPayloadV {
            instance_id: self.instance_id@,
            db: self.db@,
            table: self.table@,
            doc_id: self.doc_id@,
            kind: self.kind,
            ts: self.ts,
            owner: text::opt_str(self.owner),
            source: self.source@,
        }
    }
}

/// The views of writes for the other instances.
pub open spec fn payload_views(v: Seq<OpNotifyPayload>) -> Seq<OpPayloadV> {
    Seq::new(v.len(), |i: int| v[i]@)
}

/// A digit of a hexadecimal number.
pub open spec fn hex_char(n: int) -> char {
    if n < 10 {
        ('0' as u32 + n) as char
    } else {
        ('a' as u32 + n - 10) as char
    }
}

/// Bytes in hexadecimal: two digits each, the high half first.
pub open spec fn hex_text(bytes: Seq<u8>) -> Seq<char> {
    Seq::new(
        2 * bytes.len(),
        |i: int|
            if i % 2 == 0 {
                hex_char(bytes[i / 2] as int / 16)
            } else {
                hex_char(bytes[i / 2] as int % 16)
            },
    )
}

/// `hex::encode`: the bytes in lower-case hexadecimal.
#[verifier::external_body]
fn hex_encode(bytes: &Vec<u8>) -> (s: String)
    ensures
        s@ == hex_text(bytes@),
{
    hex::encode(bytes)
}

/// `ring::rand::SecureRandom::fill` of `ring::rand::SystemRandom`, on as many
/// bytes as asked for; nothing where it fails. Which bytes come, and whether any
/// do, rests on chance and the machine, so nothing but their number is claimed.
#[verifier::external_body]
fn random_bytes(count: u8) -> (r: Option<Vec<u8>>)
    ensures
        r matches Some(b) ==> b@.len() == count,
{
    let mut bytes = vec![0u8; usize::from(count)];
    ring::rand::SecureRandom::fill(&ring::rand::SystemRandom::new(), &mut bytes).ok()?;
    Some(bytes)
}

/// The identity of an instance, made of bytes.
pub fn instance_id_of(bytes: &Vec<u8>) -> (s: String)
    ensures
        s@ == hex_text(bytes@),
{
    hex_encode(bytes)
}

/// The bytes that an identity is made of: those that were drawn, or zeros.
pub fn identity_bytes(drawn: Option<Vec<u8>>) -> (b: Vec<u8>)
    ensures
        b@ == (match drawn {
            Some(d) => d@,
            None => seq![0u8, 0u8, 0u8, 0u8],
        }),
{
    match drawn {
        Some(d) => d,
        None => vec![0u8, 0u8, 0u8, 0u8],
    }
}

/// A new identity for an instance: eight hexadecimal digits.
pub fn generate_instance_id() -> (s: String)
    ensures
        exists|bytes: Seq<u8>| bytes.len() == 4 && s@ == #[trigger] hex_text(bytes),
        s@.len() == 8,
{
    let bytes = identity_bytes(random_bytes(4));
    instance_id_of(&bytes)
}

/// The write of a transaction, for the other instances.
pub open spec fn op_payload(
    instance_id: Seq<char>,
    db: Seq<char>,
    owner: Option<Seq<char>>,
    source: Seq<char>,
    op: OpV,
    ts: i64,
) -> OpPayloadV {
    OpPayloadV {
        instance_id,
        db,
        table: op.table,
        doc_id: op.id,
        kind: op.kind,
        ts,
        owner,
        source,
    }
}

/// The writes of a transaction, for the other instances: one payload each, all
/// at one time.
pub fn op_payloads(
    instance_id: &str,
    db: &str,
    owner: Option<&str>,
    source: &str,
    ops: &Vec<DocOp>,
    ts: i64,
) -> (r: Vec<OpNotifyPayload>)
    ensures
        payload_views(r@) == Seq::new(
            ops@.len(),
            |i: int|
                op_payload(instance_id@, db@, text::opt_slice(owner), source@, ops@[i]@, ts),
        ),
{
    let mut out: Vec<OpNotifyPayload> = Vec::new();
    let mut i: usize = 0;
    while i < ops.len()
        invariant
            i <= ops@.len(),
            out@.len() == i,
            forall|k: int|
                0 <= k < i ==> (#[trigger] out@[k])@ == op_payload(
                    instance_id@,
                    db@,
                    text::opt_slice(owner),
                    source@,
                    ops@[k]@,
                    ts,
                ),
        decreases ops@.len() - i,
    {
        out.push(
            OpNotifyPayload {
                instance_id: instance_id.to_owned(),
                db: db.to_owned(),
                table: ops[i].table.clone(),
                doc_id: ops[i].id.clone(),
                kind: ops[i].kind,
                ts,
                owner: match owner {
                    Some(o) => Some(o.to_owned()),
                    None => None,
                },
                source: source.to_owned(),
            },
        );
        i = i + 1;
    }
    assert(payload_views(out@) =~= Seq::new(
        ops@.len(),
        |i: int| op_payload(instance_id@, db@, text::opt_slice(owner), source@, ops@[i]@, ts),
    ));
    out
}

/// The event that a payload brings to an instance; none where it is the
/// instance's own, which its feed has already.
pub open spec fn event_for(p: OpPayloadV, own: Seq<char>) -> Option<EventV> {
    if p.instance_id == own {
        None
    } else {
        Some(
            EventV {
                db: p.db,
                table: p.table,
                doc_id: p.doc_id,
                kind: p.kind,
                ts: p.ts,
                owner: p.owner,
                seq: 0,
                feed_epoch: Seq::empty(),
            },
        )
    }
}

/// The event that a payload brings.
pub fn received_event(p: OpNotifyPayload, own_instance_id: &str) -> (r: Option<OpEvent>)
    ensures
        match event_for(p@, own_instance_id@) {
            Some(e) => r matches Some(x) && x@ == e,
            None => r is None,
        },
{
    if is_own(p.instance_id.as_str(), own_instance_id) {
        None
    } else {
        let e = OpEvent {
            db: p.db,
            table: p.table,
            doc_id: p.doc_id,
            kind: p.kind,
            ts: p.ts,
            owner: p.owner,
            seq: 0,
            feed_epoch: String::new(),
        };
        assert(e@.feed_epoch =~= Seq::<char>::empty());
        Some(e)
    }
}

/// Whether a notification is the instance's own. A database hands an instance
/// its own notifications too.
pub fn is_own(instance_id: &str, own_instance_id: &str) -> (r: bool)
    ensures
        r == (instance_id@ == own_instance_id@),
{
    same(instance_id, own_instance_id)
}

/// Whether a presence report is taken in.
pub fn accepts_presence(p: &PresenceNotifyPayload, own_instance_id: &str) -> (r: bool)
    ensures
        r == (p@.instance_id != own_instance_id@),
{
    !is_own(p.instance_id.as_str(), own_instance_id)
}

/// Whether a write set re-runs the subscriptions it touches: it is another
/// instance's, and the schema of its database was found.
pub fn accepts_write_set(p: &WriteSetNotifyPayload, own: &str, schema_found: bool) -> (r: bool)
    ensures
        r == (p.instance_id@ != own@ && schema_found),
{
    !is_own(p.instance_id.as_str(), own) && schema_found
}

/// How a write set travels.
#[derive(Debug, Clone, Copy, PartialEq, Eq, Structural)]
pub enum Route {
    /// In the notification.
    Inline,
    /// In the spool; the notification names it.
    Spool,
}

/// How a write set of so many bytes travels.
pub open spec fn route_of(bytes: nat) -> Route {
    if bytes < WRITE_SET_INLINE_LIMIT {
        Route::Inline
    } else {
        Route::Spool
    }
}

/// How the JSON text of a write set travels.
pub fn write_set_route(text: &str) -> (r: Route)
    ensures
        r == route_of(encode_utf8(text@).len()),
{
    if text.as_bytes().len() < WRITE_SET_INLINE_LIMIT {
        Route::Inline
    } else {
        Route::Spool
    }
}

/// The number of an identifier of 128 bits in one of the forms that `uuid`
/// reads; none where the text is in none of them.
pub uninterp spec fn uuid_number(text: Seq<char>) -> Option<u128>;

/// `uuid::Uuid` read by its `FromStr`, as a number. The result is named, not
/// described: it is a function of the text.
#[verifier::external_body]
fn parse_uuid(text: &str) -> (r: Option<u128>)
    ensures
        r == uuid_number(text@),
{
    match text.parse::<uuid::Uuid>() {
        Ok(id) => Some(id.as_u128()),
        Err(_) => None,
    }
}

/// How many hexadecimal digits of an identifier stand before a place of its
/// text: hyphens part the digits after the first eight, and then after every
/// four of the next twelve.
pub open spec fn digits_before(i: int) -> int {
    if i <= 8 {
        i
    } else if i <= 13 {
        i - 1
    } else if i <= 18 {
        i - 2
    } else if i <= 23 {
        i - 3
    } else {
        i - 4
    }
}

/// The usual text of an identifier of 128 bits.
pub open spec fn uuid_form(id: u128) -> Seq<char> {
    Seq::new(
        36,
        |i: int|
            if i == 8 || i == 13 || i == 18 || i == 23 {
                '-'
            } else {
                hex_char(
                    (id as int / vstd::arithmetic::power::pow(16, (31 - digits_before(i)) as nat))
                        % 16,
                )
            },
    )
}

/// `uuid::Uuid` by its `Display`: lower-case hexadecimal with hyphens, a form
/// that its `FromStr` reads.
#[verifier::external_body]
fn uuid_text(id: u128) -> (s: String)
    ensures
        s@ == uuid_form(id),
        uuid_number(s@) == Some(id),
{
    uuid::Uuid::from_u128(id).to_string()
}

/// The notification of a write set in the spool. It is taken for nothing else.
pub fn spool_reference(id: u128) -> (s: String)
    ensures
        s@ == uuid_form(id),
        source_of(s@, uuid_number(s@)) == WriteSetSource::Spooled(id),
{
    let s = uuid_text(id);
    assert(s@[0] == hex_char((id as int / vstd::arithmetic::power::pow(16, 31)) % 16));
    s
}

/// Where the write set of a notification is.
#[derive(Debug, Clone, Copy, PartialEq, Eq, Structural)]
pub enum WriteSetSource {
    /// In the notification.
    Inline,
    /// In the spool, in the row of that number.
    Spooled(u128),
    /// Nowhere: the notification makes no sense.
    Neither,
}

/// Where the write set of a notification is: an object in braces is the write
/// set itself, anything else should name a row.
pub open spec fn source_of(raw: Seq<char>, row: Option<u128>) -> WriteSetSource {
    if raw.len() > 0 && raw[0] == '{' {
        WriteSetSource::Inline
    } else {
        match row {
            Some(id) => WriteSetSource::Spooled(id),
            None => WriteSetSource::Neither,
        }
    }
}

/// Where the write set is, given the row that the notification names, if any.
pub fn locate_write_set(raw: &str, row: Option<u128>) -> (r: WriteSetSource)
    ensures
        r == source_of(raw@, row),
{
    if opens_object(raw) {
        WriteSetSource::Inline
    } else {
        match row {
            Some(id) => WriteSetSource::Spooled(id),
            None => WriteSetSource::Neither,
        }
    }
}

fn opens_object(raw: &str) -> (r: bool)
    ensures
        r == (raw@.len() > 0 && raw@[0] == '{'),
{
    raw.unicode_len() > 0 && raw.get_char(0) == '{'
}

/// Where the write set of a notification is.
pub fn write_set_source(raw: &str) -> (r: WriteSetSource)
    ensures
        r == source_of(raw@, uuid_number(raw@)),
{
    locate_write_set(raw, parse_uuid(raw))
}

/// What a listener does next.
#[derive(Debug, Clone, Copy, PartialEq, Eq, Structural)]
pub enum Listening {
    /// Connects.
    Connect,
    /// Subscribes to its channel.
    Subscribe,
    /// Receives a notification.
    Receive,
}

/// What a listener does after it did something, and how long it waits before.
/// A failure of any kind starts it over.
pub fn listen_next(did: Listening, ok: bool) -> (r: (Listening, u64))
    ensures
        r == (if ok {
            match did {
                Listening::Connect => (Listening::Subscribe, 0u64),
                Listening::Subscribe => (Listening::Receive, 0u64),
                Listening::Receive => (Listening::Receive, 0u64),
            }
        } else {
            (Listening::Connect, LISTEN_BACKOFF_MS)
        }),
{
    if !ok {
        return (Listening::Connect, LISTEN_BACKOFF_MS);
    }
    match did {
        Listening::Connect => (Listening::Subscribe, 0),
        Listening::Subscribe => (Listening::Receive, 0),
        Listening::Receive => (Listening::Receive, 0),
    }
}

/// A write reaches every other instance's feed as it was, and its own instance's
/// feed not a second time.
pub proof fn law_write_reaches_other_instances(
    instance_id: Seq<char>,
    db: Seq<char>,
    owner: Option<Seq<char>>,
    source: Seq<char>,
    op: OpV,
    ts: i64,
    other: Seq<char>,
)
    ensures
        ({
            let p = op_payload(instance_id, db, owner, source, op, ts);
            &&& event_for(p, instance_id) is None
            &&& other != instance_id ==> event_for(p, other) == Some(
                crate::op_feed::event_of(db, owner, op, ts),
            )
        }),
{
}

} // verus!
