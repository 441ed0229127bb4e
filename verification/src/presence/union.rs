//! The members of a room over several instances of the server.
#[allow(unused_imports)]
use vstd::prelude::*;
#[allow(unused_imports)]
use vstd::string::*;

use crate::protocol;
use crate::protocol::{MemberV, PresenceMember};
use crate::text;
use crate::text::{before, cat3, same};

verus! {

/// Some member has the connection id.
pub open spec fn known(ms: Seq<MemberV>, id: Seq<char>) -> bool {
    exists|i: int| 0 <= i < ms.len() && (#[trigger] ms[i]).connection_id == id
}

/// Members with one more, unless its id is known.
pub open spec fn with(ms: Seq<MemberV>, m: MemberV) -> Seq<MemberV> {
    if known(ms, m.connection_id) {
        ms
    } else {
        ms.push(m)
    }
}

/// Members with others added one by one, until there are as many as the cap.
pub open spec fn filled(ms: Seq<MemberV>, more: Seq<MemberV>, cap: nat) -> Seq<MemberV>
    decreases more.len(),
{
    if more.len() == 0 {
        ms
    } else {
        let next = with(ms, more[0]);
        if next.len() >= cap {
            next
        } else {
            filled(next, more.drop_first(), cap)
        }
    }
}

/// The id of a connection of another instance.
pub open spec fn namespaced(instance: Seq<char>, m: MemberV) -> MemberV {
    MemberV { connection_id: instance + ":"@ + m.connection_id, ..m }
}

/// The members that one instance reported, each with the instance.
pub open spec fn tagged(instance: Seq<char>, ms: Seq<MemberV>) -> Seq<(Seq<char>, MemberV)> {
    Seq::new(ms.len(), |i: int| (instance, ms[i]))
}

/// The members that the instances reported, each with its instance.
pub open spec fn gathered(peers: Seq<(Seq<char>, Seq<MemberV>)>) -> Seq<(Seq<char>, MemberV)>
    decreases peers.len(),
{
    if peers.len() == 0 {
        Seq::empty()
    } else {
        gathered(peers.drop_last()) + tagged(peers.last().0, peers.last().1)
    }
}

/// The order of members of other instances: by instance, then by connection.
pub open spec fn sooner(a: (Seq<char>, MemberV), b: (Seq<char>, MemberV)) -> bool {
    text::chars_lt(a.0, b.0) || (a.0 == b.0 && text::chars_lt(
        a.1.connection_id,
        b.1.connection_id,
    ))
}

/// A member put in its place among ordered ones, behind its equals.
pub open spec fn placed(ms: Seq<(Seq<char>, MemberV)>, m: (Seq<char>, MemberV)) -> Seq<
    (Seq<char>, MemberV),
>
    decreases ms.len(),
{
    if ms.len() > 0 && sooner(m, ms.last()) {
        placed(ms.drop_last(), m).push(ms.last())
    } else {
        ms.push(m)
    }
}

/// Members ordered by instance and connection; equals stay in the order they
/// have.
pub open spec fn ordered(ms: Seq<(Seq<char>, MemberV)>) -> Seq<(Seq<char>, MemberV)>
    decreases ms.len(),
{
    if ms.len() == 0 {
        Seq::empty()
    } else {
        placed(ordered(ms.drop_last()), ms.last())
    }
}

/// Members of other instances under ids of their instances.
pub open spec fn all_namespaced(ms: Seq<(Seq<char>, MemberV)>) -> Seq<MemberV> {
    Seq::new(ms.len(), |i: int| namespaced(ms[i].0, ms[i].1))
}

/// The members of a room: those of this instance, then those of the others by
/// instance and connection, no id twice, until there are as many as the cap.
pub open spec fn union_of(
    local: Seq<MemberV>,
    peers: Seq<(Seq<char>, Seq<MemberV>)>,
    cap: nat,
) -> Seq<MemberV> {
    let here = filled(Seq::empty(), local, cap);
    if local.len() > 0 && here.len() >= cap {
        here
    } else {
        filled(here, all_namespaced(ordered(gathered(peers))), cap)
    }
}

/// What another instance reported of a room.
#[derive(Debug)]
pub struct PeerMembers {
    pub instance_id: String,
    pub members: Vec<PresenceMember>,
}

/// The views of reports.
pub open spec fn peer_views(v: Seq<PeerMembers>) -> Seq<(Seq<char>, Seq<MemberV>)> {
    Seq::new(v.len(), |i: int| (v[i].instance_id@, protocol::member_views(v[i].members@)))
}

fn is_known(ms: &Vec<PresenceMember>, id: &str) -> (r: bool)
    ensures
        r == known(protocol::member_views(ms@), id@),
{
    let ghost vs = protocol::member_views(ms@);
    let mut i: usize = 0;
    while i < ms.len()
        invariant
            i <= ms@.len(),
            vs == protocol::member_views(ms@),
            forall|k: int| 0 <= k < i ==> (#[trigger] vs[k]).connection_id != id@,
        decreases ms@.len() - i,
    {
        if same(ms[i].connection_id.as_str(), id) {
            assert(vs[i as int].connection_id == id@);
            return true;
        }
        i = i + 1;
    }
    false
}

/// Adds members until there are as many as the cap. Says whether the cap was
/// reached by an addition.
fn fill(ms: &mut Vec<PresenceMember>, more: &Vec<PresenceMember>, cap: usize) -> (r: bool)
    ensures
        protocol::member_views(final(ms)@) == filled(
            protocol::member_views(old(ms)@),
            protocol::member_views(more@),
            cap as nat,
        ),
        r == (more@.len() > 0 && final(ms)@.len() >= cap),
{
    let ghost start = protocol::member_views(ms@);
    let ghost add = protocol::member_views(more@);
    let mut i: usize = 0;
    assert(add.skip(0) =~= add);
    while i < more.len()
        invariant
            i <= more@.len(),
            add == protocol::member_views(more@),
            start == protocol::member_views(old(ms)@),
            filled(start, add, cap as nat) == filled(
                protocol::member_views(ms@),
                add.skip(i as int),
                cap as nat,
            ),
            i > 0 ==> ms@.len() < cap,
        decreases more@.len() - i,
    {
        let ghost rest = add.skip(i as int);
        let ghost so_far = protocol::member_views(ms@);
        assert(rest[0] == more@[i as int]@);
        assert(rest.drop_first() =~= add.skip(i as int + 1));
        if !is_known(ms, more[i].connection_id.as_str()) {
            ms.push(more[i].copy());
            assert(protocol::member_views(ms@) =~= so_far.push(more@[i as int]@));
        }
        assert(protocol::member_views(ms@) == with(so_far, rest[0]));
        if ms.len() >= cap {
            return true;
        }
        i = i + 1;
    }
    false
}

/// A member of another instance, before its id is namespaced.
struct Remote<'a> {
    instance_id: &'a String,
    member: &'a PresenceMember,
}

impl<'a> View for Remote<'a> {
    type V = (Seq<char>, MemberV);

    closed spec fn view(&self) -> (Seq<char>, MemberV) {
        (self.instance_id@, self.member@)
    }
}

spec fn remote_views(v: Seq<Remote>) -> Seq<(Seq<char>, MemberV)> {
    Seq::new(v.len(), |i: int| v[i]@)
}

fn is_sooner(a: &Remote, b: &Remote) -> (r: bool)
    ensures
        r == sooner(a@, b@),
{
    before(a.instance_id.as_str(), b.instance_id.as_str()) || (same(
        a.instance_id.as_str(),
        b.instance_id.as_str(),
    ) && before(a.member.connection_id.as_str(), b.member.connection_id.as_str()))
}

/// Puts a member in its place.
fn place<'a>(ms: &mut Vec<Remote<'a>>, m: Remote<'a>)
    ensures
        remote_views(final(ms)@) == placed(remote_views(old(ms)@), m@),
{
    let ghost start = remote_views(ms@);
    let ghost mv = m@;
    let ghost none = Seq::<(Seq<char>, MemberV)>::empty();
    let mut p: usize = ms.len();
    assert(start.take(start.len() as int) =~= start);
    assert(start.skip(start.len() as int) =~= none);
    assert(placed(start, mv) =~= placed(start, mv) + none);
    while p > 0 && is_sooner(&m, &ms[p - 1])
        invariant
            p <= ms@.len(),
            m@ == mv,
            start == remote_views(ms@),
            ms@ == old(ms)@,
            placed(start, mv) == placed(start.take(p as int), mv) + start.skip(p as int),
        decreases p,
    {
        proof {
            let head = start.take(p as int);
            assert(head.last() == ms@[p - 1]@);
            assert(head.drop_last() =~= start.take(p - 1));
            assert(placed(head.drop_last(), mv).push(head.last()) + start.skip(p as int)
                =~= placed(head.drop_last(), mv) + start.skip(p - 1));
        }
        p = p - 1;
    }
    proof {
        let head = start.take(p as int);
        if p > 0 {
            assert(head.last() == ms@[p - 1]@);
        }
        assert(placed(head, mv) == head.push(mv));
    }
    ms.insert(p, m);
    assert(remote_views(ms@) =~= start.take(p as int).push(mv) + start.skip(p as int));
}

/// The members of other instances in order, under ids of their instances.
fn remote_members(peers: &Vec<PeerMembers>) -> (r: Vec<PresenceMember>)
    ensures
        protocol::member_views(r@) == all_namespaced(ordered(gathered(peer_views(peers@)))),
{
    let ghost pv = peer_views(peers@);
    let mut sorted: Vec<Remote> = Vec::new();
    let mut i: usize = 0;
    assert(remote_views(sorted@) =~= Seq::<(Seq<char>, MemberV)>::empty());
    assert(pv.take(0) =~= Seq::<(Seq<char>, Seq<MemberV>)>::empty());
    while i < peers.len()
        invariant
            i <= peers@.len(),
            pv == peer_views(peers@),
            remote_views(sorted@) == ordered(gathered(pv.take(i as int))),
        decreases peers@.len() - i,
    {
        let ghost head = gathered(pv.take(i as int));
        let ghost own = tagged(pv[i as int].0, pv[i as int].1);
        let members = &peers[i].members;
        let mut j: usize = 0;
        assert(head + own.take(0) =~= head);
        while j < members.len()
            invariant
                i < peers@.len(),
                *members == peers@[i as int].members,
                j <= members@.len(),
                pv == peer_views(peers@),
                own == tagged(pv[i as int].0, pv[i as int].1),
                own.len() == members@.len(),
                remote_views(sorted@) == ordered(head + own.take(j as int)),
            decreases members@.len() - j,
        {
            let m = Remote { instance_id: &peers[i].instance_id, member: &members[j] };
            proof {
                assert(m@ == own[j as int]);
                let next = head + own.take(j as int + 1);
                assert(next.drop_last() =~= head + own.take(j as int));
                assert(next.last() == own[j as int]);
            }
            place(&mut sorted, m);
            j = j + 1;
        }
        proof {
            assert(own.take(own.len() as int) =~= own);
            assert(pv.take(i as int + 1).drop_last() =~= pv.take(i as int));
            assert(pv.take(i as int + 1).last() == pv[i as int]);
        }
        i = i + 1;
    }
    assert(pv.take(peers@.len() as int) =~= pv);
    let ghost all = remote_views(sorted@);
    let mut out: Vec<PresenceMember> = Vec::new();
    let mut k: usize = 0;
    while k < sorted.len()
        invariant
            k <= sorted@.len(),
            all == remote_views(sorted@),
            out@.len() == k,
            forall|x: int| 0 <= x < k ==> (#[trigger] out@[x])@ == namespaced(all[x].0, all[x].1),
        decreases sorted@.len() - k,
    {
        let m = &sorted[k];
        assert(all[k as int] == m@);
        out.push(
            PresenceMember {
                connection_id: cat3(
                    m.instance_id.as_str(),
                    ":",
                    m.member.connection_id.as_str(),
                ),
                user: m.member.user.copy(),
                state: m.member.state.copy(),
            },
        );
        k = k + 1;
    }
    assert(protocol::member_views(out@) =~= all_namespaced(all));
    out
}

/// The members of a room over this instance and others.
pub fn build_union(local: &Vec<PresenceMember>, peers: &Vec<PeerMembers>, cap: usize) -> (r: Vec<
    PresenceMember,
>)
    ensures
        protocol::member_views(r@) == union_of(
            protocol::member_views(local@),
            peer_views(peers@),
            cap as nat,
        ),
{
    let mut union: Vec<PresenceMember> = Vec::new();
    assert(protocol::member_views(union@) =~= Seq::<MemberV>::empty());
    if fill(&mut union, local, cap) {
        return union;
    }
    let sorted = remote_members(peers);
    let reached = fill(&mut union, &sorted, cap);
    union
}

/// No id twice.
pub open spec fn distinct(ms: Seq<MemberV>) -> bool {
    forall|i: int, j: int|
        0 <= i < j < ms.len() ==> (#[trigger] ms[i]).connection_id != (
        #[trigger] ms[j]).connection_id
}

proof fn lemma_filled(ms: Seq<MemberV>, more: Seq<MemberV>, cap: nat)
    requires
        distinct(ms),
    ensures
        distinct(filled(ms, more, cap)),
        ms.len() <= filled(ms, more, cap).len(),
        filled(ms, more, cap).take(ms.len() as int) == ms,
        ms.len() < cap ==> filled(ms, more, cap).len() <= cap,
        filled(ms, more, cap).len() <= ms.len() + more.len(),
    decreases more.len(),
{
    if more.len() > 0 {
        let next = with(ms, more[0]);
        assert(distinct(next));
        if next.len() < cap {
            lemma_filled(next, more.drop_first(), cap);
            let all = filled(next, more.drop_first(), cap);
            assert(all.take(ms.len() as int) =~= all.take(next.len() as int).take(ms.len() as int));
            assert(next.take(ms.len() as int) =~= ms);
        } else {
            assert(next.take(ms.len() as int) =~= ms);
        }
    } else {
        assert(ms.take(ms.len() as int) =~= ms);
    }
}

/// No id occurs twice in a union, and there are no more members than the cap.
pub proof fn law_union_is_distinct_and_capped(
    local: Seq<MemberV>,
    peers: Seq<(Seq<char>, Seq<MemberV>)>,
    cap: nat,
)
    requires
        cap > 0,
    ensures
        distinct(union_of(local, peers, cap)),
        union_of(local, peers, cap).len() <= cap,
{
    let none = Seq::<MemberV>::empty();
    lemma_filled(none, local, cap);
    lemma_filled(filled(none, local, cap), all_namespaced(ordered(gathered(peers))), cap);
}

proof fn lemma_filled_all(ms: Seq<MemberV>, more: Seq<MemberV>, cap: nat)
    requires
        distinct(ms + more),
        ms.len() + more.len() <= cap,
    ensures
        filled(ms, more, cap) == ms + more,
    decreases more.len(),
{
    if more.len() > 0 {
        if known(ms, more[0].connection_id) {
            let i = choose|i: int|
                0 <= i < ms.len() && (#[trigger] ms[i]).connection_id == more[0].connection_id;
            assert((ms + more)[i] == ms[i]);
            assert((ms + more)[ms.len() as int] == more[0]);
        }
        assert(ms.push(more[0]) + more.drop_first() =~= ms + more);
        if ms.len() + 1 >= cap {
            assert(ms.push(more[0]) =~= ms + more);
        } else {
            lemma_filled_all(ms.push(more[0]), more.drop_first(), cap);
        }
    } else {
        assert(ms + more =~= ms);
    }
}

/// Where somebody is in this instance, somebody is in the union.
pub proof fn lemma_union_occupied(
    local: Seq<MemberV>,
    peers: Seq<(Seq<char>, Seq<MemberV>)>,
    cap: nat,
)
    requires
        local.len() > 0,
    ensures
        union_of(local, peers, cap).len() > 0,
{
    let none = Seq::<MemberV>::empty();
    let next = with(none, local[0]);
    assert(distinct(next));
    lemma_filled(next, local.drop_first(), cap);
    lemma_filled(none, local, cap);
    lemma_filled(filled(none, local, cap), all_namespaced(ordered(gathered(peers))), cap);
}

/// The members of this instance come first and none of them gives way to a
/// member of another, as long as they fit.
pub proof fn law_local_members_come_first(
    local: Seq<MemberV>,
    peers: Seq<(Seq<char>, Seq<MemberV>)>,
    cap: nat,
)
    requires
        distinct(local),
        local.len() <= cap,
    ensures
        union_of(local, peers, cap).len() >= local.len(),
        union_of(local, peers, cap).take(local.len() as int) == local,
{
    let none = Seq::<MemberV>::empty();
    assert(none + local =~= local);
    lemma_filled_all(none, local, cap);
    lemma_filled(local, all_namespaced(ordered(gathered(peers))), cap);
    assert(local.take(local.len() as int) =~= local);
}

/// Without reports of other instances the members are those of this one.
pub proof fn law_union_without_peers(local: Seq<MemberV>, cap: nat)
    requires
        distinct(local),
        local.len() <= cap,
    ensures
        union_of(local, Seq::empty(), cap) == local,
{
    let none = Seq::<MemberV>::empty();
    assert(none + local =~= local);
    lemma_filled_all(none, local, cap);
}

/// The members are in ascending order of instance and connection.
pub open spec fn in_order(ms: Seq<(Seq<char>, MemberV)>) -> bool {
    forall|i: int, j: int|
        0 <= i < j < ms.len() ==> !sooner(#[trigger] ms[j], #[trigger] ms[i])
}

/// The order is one: nothing comes before itself, what comes before another
/// comes before all behind it, and members that do not come before each other
/// have the same id.
proof fn lemma_sooner(
    a: (Seq<char>, MemberV),
    b: (Seq<char>, MemberV),
    c: (Seq<char>, MemberV),
)
    ensures
        sooner(a, b) ==> !sooner(b, a),
        sooner(a, b) && !sooner(c, b) ==> sooner(a, c),
{
    text::lemma_chars_lt_total(a.0, b.0);
    text::lemma_chars_lt_total(b.0, c.0);
    text::lemma_chars_lt_irreflexive(a.0);
    text::lemma_chars_lt_irreflexive(a.1.connection_id);
    if text::chars_lt(a.0, b.0) && text::chars_lt(b.0, a.0) {
        text::lemma_chars_lt_transitive(a.0, b.0, a.0);
    }
    if text::chars_lt(a.0, b.0) && text::chars_lt(b.0, c.0) {
        text::lemma_chars_lt_transitive(a.0, b.0, c.0);
    }
    let (x, y, z) = (a.1.connection_id, b.1.connection_id, c.1.connection_id);
    text::lemma_chars_lt_total(y, z);
    if text::chars_lt(x, y) && text::chars_lt(y, x) {
        text::lemma_chars_lt_transitive(x, y, x);
    }
    if text::chars_lt(x, y) && text::chars_lt(y, z) {
        text::lemma_chars_lt_transitive(x, y, z);
    }
}

proof fn lemma_placed(ms: Seq<(Seq<char>, MemberV)>, m: (Seq<char>, MemberV))
    requires
        in_order(ms),
    ensures
        in_order(placed(ms, m)),
        placed(ms, m).len() == ms.len() + 1,
        placed(ms, m).to_multiset() == ms.to_multiset().insert(m),
        forall|i: int|
            0 <= i < placed(ms, m).len() ==> (#[trigger] placed(ms, m)[i]) == m || ms.contains(
                placed(ms, m)[i],
            ),
    decreases ms.len(),
{
    broadcast use vstd::seq_lib::group_to_multiset_ensures;

    let r = placed(ms, m);
    if ms.len() > 0 && sooner(m, ms.last()) {
        let head = ms.drop_last();
        assert(in_order(head));
        lemma_placed(head, m);
        let ph = placed(head, m);
        assert(head.push(ms.last()) =~= ms);
        assert(r.to_multiset() =~= ms.to_multiset().insert(m));
        assert forall|i: int| 0 <= i < r.len() implies (#[trigger] r[i]) == m || ms.contains(
            r[i],
        ) by {
            if i < ph.len() {
                if ph[i] != m {
                    assert(head.contains(ph[i]));
                    let k = head.index_of(ph[i]);
                    assert(ms[k] == ph[i]);
                }
            } else {
                assert(ms[ms.len() - 1] == r[i]);
            }
        }
        assert forall|i: int, j: int| 0 <= i < j < r.len() implies !sooner(
            #[trigger] r[j],
            #[trigger] r[i],
        ) by {
            if j < ph.len() {
                assert(r[i] == ph[i] && r[j] == ph[j]);
            } else {
                assert(r[i] == ph[i]);
                if ph[i] == m {
                    lemma_sooner(m, r[j], m);
                } else {
                    assert(head.contains(ph[i]));
                    let k = head.index_of(ph[i]);
                    assert(ms[k] == ph[i]);
                }
            }
        }
    } else {
        assert forall|i: int, j: int| 0 <= i < j < r.len() implies !sooner(
            #[trigger] r[j],
            #[trigger] r[i],
        ) by {
            if j == ms.len() && i < ms.len() - 1 {
                let last = ms[ms.len() - 1];
                assert(!sooner(last, ms[i]));
                lemma_sooner(m, ms[i], last);
            }
        }
    }
}

/// The members of other instances are listed in ascending order of instance and
/// connection, each as often as it was reported, so that equal reports give
/// equal lists.
pub proof fn law_peers_are_in_order(ms: Seq<(Seq<char>, MemberV)>)
    ensures
        in_order(ordered(ms)),
        ordered(ms).len() == ms.len(),
        ordered(ms).to_multiset() == ms.to_multiset(),
    decreases ms.len(),
{
    broadcast use vstd::seq_lib::group_to_multiset_ensures;

    if ms.len() > 0 {
        law_peers_are_in_order(ms.drop_last());
        lemma_placed(ordered(ms.drop_last()), ms.last());
        assert(ms.drop_last().push(ms.last()) =~= ms);
    } else {
        assert(ordered(ms) =~= ms);
    }
}

} // verus!
