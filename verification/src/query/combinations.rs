//! Which parts of a query may stand together.
#[allow(unused_imports)]
use vstd::prelude::*;
#[allow(unused_imports)]
use vstd::string::*;

use crate::dsl::{Query, QueryV};
use crate::error;
use crate::error::{ErrorV, RtDbError};

verus! {

/// A part of a query that can exclude, or be excluded by, another.
#[derive(Debug, Clone, Copy, PartialEq, Eq, Structural)]
pub enum Peer {
    Get,
    Index,
    Eq,
    Gt,
    Gte,
    Lt,
    Lte,
    Order,
    Take,
    Unique,
    First,
    Count,
    Distinct,
    Aggregate,
    Paginate,
    Filter,
    Search,
    VectorSearch,
    HybridSearch,
}

/// The part is present in the query.
pub open spec fn present(p: Peer, q: QueryV) -> bool {
    match p {
        Peer::Get => q.get is Some,
        Peer::Index => q.index is Some,
        Peer::Eq => q.eq.len() > 0,
        Peer::Gt => q.gt is Some,
        Peer::Gte => q.gte is Some,
        Peer::Lt => q.lt is Some,
        Peer::Lte => q.lte is Some,
        Peer::Order => q.order is Some,
        Peer::Take => q.take is Some,
        Peer::Unique => q.unique,
        Peer::First => q.first,
        Peer::Count => q.count,
        Peer::Distinct => q.distinct,
        Peer::Aggregate => q.aggregate is Some,
        Peer::Paginate => q.paginate is Some,
        Peer::Filter => q.filter is Some,
        Peer::Search => q.search is Some,
        Peer::VectorSearch => q.vector_search is Some,
        Peer::HybridSearch => q.hybrid_search is Some,
    }
}

impl Peer {
    /// Whether the part is present in the query.
    pub fn is_set(self, q: &Query) -> (r: bool)
        ensures
            r == present(self, q@),
    {
        match self {
            Peer::Get => q.get.is_some(),
            Peer::Index => q.index.is_some(),
            Peer::Eq => q.eq.len() > 0,
            Peer::Gt => q.gt.is_some(),
            Peer::Gte => q.gte.is_some(),
            Peer::Lt => q.lt.is_some(),
            Peer::Lte => q.lte.is_some(),
            Peer::Order => q.order.is_some(),
            Peer::Take => q.take.is_some(),
            Peer::Unique => q.unique,
            Peer::First => q.first,
            Peer::Count => q.count,
            Peer::Distinct => q.distinct,
            Peer::Aggregate => q.aggregate.is_some(),
            Peer::Paginate => q.paginate.is_some(),
            Peer::Filter => q.filter.is_some(),
            Peer::Search => q.search.is_some(),
            Peer::VectorSearch => q.vector_search.is_some(),
            Peer::HybridSearch => q.hybrid_search.is_some(),
        }
    }
}

/// A rule: where `subject` is present, none of `peers` may be.
#[derive(Debug)]
pub struct Incompatible {
    pub subject: Peer,
    pub peers: Vec<Peer>,
    pub message: &'static str,
}

/// The mathematical form of a rule.
pub struct RuleV {
    pub subject: Peer,
    pub peers: Seq<Peer>,
    pub message: Seq<char>,
}

impl View for Incompatible {
    type V = RuleV;

    open spec fn view(&self) -> RuleV {
        RuleV { subject: self.subject, peers: self.peers@, message: self.message@ }
    }
}

/// The views of a sequence of rules.
pub open spec fn rule_views(v: Seq<Incompatible>) -> Seq<RuleV> {
    Seq::new(v.len(), |i: int| v[i]@)
}

/// The views of a sequence of tables of rules.
pub open spec fn table_views(v: Seq<Vec<Incompatible>>) -> Seq<Seq<RuleV>> {
    Seq::new(v.len(), |i: int| rule_views(v[i]@))
}

/// Some part of a list is present in the query.
pub open spec fn any_present(peers: Seq<Peer>, q: QueryV) -> bool {
    exists|i: int| 0 <= i < peers.len() && present(#[trigger] peers[i], q)
}

/// The query breaks the rule.
pub open spec fn breaks(q: QueryV, rule: RuleV) -> bool {
    present(rule.subject, q) && any_present(rule.peers, q)
}

/// The first of the rules that the query breaks.
pub open spec fn first_broken(q: QueryV, rules: Seq<RuleV>) -> Option<RuleV>
    decreases rules.len(),
{
    if rules.len() == 0 {
        None
    } else if breaks(q, rules[0]) {
        Some(rules[0])
    } else {
        first_broken(q, rules.drop_first())
    }
}

/// The first rule of the tables, in their order, that the query breaks.
pub open spec fn first_broken_in(q: QueryV, tables: Seq<Seq<RuleV>>) -> Option<RuleV>
    decreases tables.len(),
{
    if tables.len() == 0 {
        None
    } else {
        match first_broken(q, tables[0]) {
            Some(rule) => Some(rule),
            None => first_broken_in(q, tables.drop_first()),
        }
    }
}

/// A rule in mathematical form.
pub open spec fn rule(subject: Peer, peers: Seq<Peer>, message: Seq<char>) -> RuleV {
    RuleV { subject, peers, message }
}

/// What is said of a point read that stands with something else.
pub const GET_MESSAGE: &'static str =
    "get cannot be combined with index, eq, range bounds, order, take, unique, first, count, distinct, aggregate, paginate, filter, search, or vector search";

/// What is said of a unique read that stands with something else.
pub const UNIQUE_MESSAGE: &'static str =
    "unique cannot be combined with take, order, distinct, or aggregate";

/// What is said of a vector search that stands with something else.
pub const VECTOR_SEARCH_MESSAGE: &'static str =
    "vectorSearch cannot be combined with any other terminal";

/// What is said of a hybrid search that stands with something else.
pub const HYBRID_SEARCH_MESSAGE: &'static str =
    "hybridSearch cannot be combined with any other terminal";

/// What is said of a text search that stands with something else.
pub const SEARCH_MESSAGE: &'static str =
    "search cannot be combined with index, eq, range bounds, order, unique, first, count, distinct, aggregate, paginate, filter, or vector search";

/// The rules of a point read.
pub open spec fn get_rules() -> Seq<RuleV> {
    seq![
        rule(
            Peer::Get,
            seq![
                Peer::Index, Peer::Eq, Peer::Gt, Peer::Gte, Peer::Lt, Peer::Lte, Peer::Order,
                Peer::Take, Peer::Unique, Peer::First, Peer::Count, Peer::Distinct,
                Peer::Aggregate, Peer::Paginate, Peer::Filter, Peer::Search, Peer::VectorSearch,
                Peer::HybridSearch,
            ],
            GET_MESSAGE@,
        ),
    ]
}

/// The rules of a unique read.
pub open spec fn unique_rules() -> Seq<RuleV> {
    seq![
        rule(
            Peer::Unique,
            seq![
                Peer::Take, Peer::Order, Peer::Distinct, Peer::Aggregate,
            ],
            UNIQUE_MESSAGE@,
        ),
    ]
}

/// The rules of a first read.
pub open spec fn first_rules() -> Seq<RuleV> {
    seq![
        rule(Peer::First, seq![Peer::Unique], "first cannot be combined with unique"@),
        rule(Peer::First, seq![Peer::Take], "first cannot be combined with take"@),
        rule(Peer::First, seq![Peer::Distinct], "first cannot be combined with distinct"@),
        rule(Peer::First, seq![Peer::Aggregate], "first cannot be combined with aggregate"@),
    ]
}

/// The rules of a count.
pub open spec fn count_rules() -> Seq<RuleV> {
    seq![
        rule(Peer::Count, seq![Peer::Unique], "count cannot be combined with unique"@),
        rule(Peer::Count, seq![Peer::Take], "count cannot be combined with take"@),
        rule(Peer::Count, seq![Peer::First], "count cannot be combined with first"@),
        rule(Peer::Count, seq![Peer::Order], "count cannot be combined with order"@),
        rule(Peer::Count, seq![Peer::Distinct], "count cannot be combined with distinct"@),
        rule(Peer::Count, seq![Peer::Aggregate], "count cannot be combined with aggregate"@),
    ]
}

/// The rules of a distinct read.
pub open spec fn distinct_rules() -> Seq<RuleV> {
    seq![
        rule(Peer::Distinct, seq![Peer::Get], "distinct cannot be combined with get"@),
        rule(Peer::Distinct, seq![Peer::Take], "distinct cannot be combined with take"@),
        rule(Peer::Distinct, seq![Peer::Unique], "distinct cannot be combined with unique"@),
        rule(Peer::Distinct, seq![Peer::First], "distinct cannot be combined with first"@),
        rule(Peer::Distinct, seq![Peer::Count], "distinct cannot be combined with count"@),
        rule(Peer::Distinct, seq![Peer::Aggregate], "distinct cannot be combined with aggregate"@),
        rule(Peer::Distinct, seq![Peer::Order], "distinct cannot be combined with order"@),
        rule(Peer::Distinct, seq![Peer::Paginate], "distinct cannot be combined with paginate"@),
        rule(Peer::Distinct, seq![Peer::Search], "distinct cannot be combined with search"@),
        rule(
            Peer::Distinct,
            seq![Peer::VectorSearch],
            "distinct cannot be combined with vector search"@,
        ),
        rule(
            Peer::Distinct,
            seq![Peer::HybridSearch],
            "distinct cannot be combined with hybrid search"@,
        ),
    ]
}

/// The rules of an aggregation.
pub open spec fn aggregate_rules() -> Seq<RuleV> {
    seq![
        rule(Peer::Aggregate, seq![Peer::Get], "aggregate cannot be combined with get"@),
        rule(Peer::Aggregate, seq![Peer::Take], "aggregate cannot be combined with take"@),
        rule(Peer::Aggregate, seq![Peer::Unique], "aggregate cannot be combined with unique"@),
        rule(Peer::Aggregate, seq![Peer::First], "aggregate cannot be combined with first"@),
        rule(Peer::Aggregate, seq![Peer::Count], "aggregate cannot be combined with count"@),
        rule(Peer::Aggregate, seq![Peer::Distinct], "aggregate cannot be combined with distinct"@),
        rule(Peer::Aggregate, seq![Peer::Order], "aggregate cannot be combined with order"@),
        rule(Peer::Aggregate, seq![Peer::Paginate], "aggregate cannot be combined with paginate"@),
        rule(Peer::Aggregate, seq![Peer::Search], "aggregate cannot be combined with search"@),
        rule(
            Peer::Aggregate,
            seq![Peer::VectorSearch],
            "aggregate cannot be combined with vector search"@,
        ),
        rule(
            Peer::Aggregate,
            seq![Peer::HybridSearch],
            "aggregate cannot be combined with hybrid search"@,
        ),
    ]
}

/// The rules of a page.
pub open spec fn paginate_rules() -> Seq<RuleV> {
    seq![
        rule(Peer::Paginate, seq![Peer::Get], "paginate cannot be combined with get"@),
        rule(Peer::Paginate, seq![Peer::Count], "paginate cannot be combined with count"@),
        rule(Peer::Paginate, seq![Peer::Distinct], "paginate cannot be combined with distinct"@),
        rule(Peer::Paginate, seq![Peer::Aggregate], "paginate cannot be combined with aggregate"@),
        rule(Peer::Paginate, seq![Peer::Unique], "paginate cannot be combined with unique"@),
        rule(Peer::Paginate, seq![Peer::First], "paginate cannot be combined with first"@),
        rule(Peer::Paginate, seq![Peer::Take], "paginate cannot be combined with take"@),
    ]
}

/// The rules of a lower bound.
pub open spec fn lower_bound_rules() -> Seq<RuleV> {
    seq![
        rule(Peer::Gt, seq![Peer::Gte], "gt and gte cannot both be set"@),
    ]
}

/// The rules of an upper bound.
pub open spec fn upper_bound_rules() -> Seq<RuleV> {
    seq![
        rule(Peer::Lt, seq![Peer::Lte], "lt and lte cannot both be set"@),
    ]
}

/// The rules of a vector search.
pub open spec fn vector_search_rules() -> Seq<RuleV> {
    seq![
        rule(
            Peer::VectorSearch,
            seq![
                Peer::Index, Peer::Eq, Peer::Gt, Peer::Gte, Peer::Lt, Peer::Lte, Peer::Order,
                Peer::Unique, Peer::First, Peer::Count, Peer::Distinct, Peer::Aggregate,
                Peer::Paginate, Peer::Filter, Peer::Search, Peer::Take, Peer::HybridSearch,
            ],
            VECTOR_SEARCH_MESSAGE@,
        ),
    ]
}

/// The rules of a hybrid search.
pub open spec fn hybrid_search_rules() -> Seq<RuleV> {
    seq![
        rule(
            Peer::HybridSearch,
            seq![
                Peer::Index, Peer::Eq, Peer::Gt, Peer::Gte, Peer::Lt, Peer::Lte, Peer::Order,
                Peer::Take, Peer::Unique, Peer::First, Peer::Count, Peer::Distinct,
                Peer::Aggregate, Peer::Paginate, Peer::Filter, Peer::Search, Peer::VectorSearch,
            ],
            HYBRID_SEARCH_MESSAGE@,
        ),
    ]
}

/// The rules of a text search.
pub open spec fn search_rules() -> Seq<RuleV> {
    seq![
        rule(
            Peer::Search,
            seq![
                Peer::Index, Peer::Eq, Peer::Gt, Peer::Gte, Peer::Lt, Peer::Lte, Peer::Order,
                Peer::Unique, Peer::First, Peer::Count, Peer::Distinct, Peer::Aggregate,
                Peer::Paginate, Peer::Filter, Peer::VectorSearch, Peer::HybridSearch,
            ],
            SEARCH_MESSAGE@,
        ),
    ]
}

/// All the tables of rules, in the order in which they are judged.
pub open spec fn all_rules() -> Seq<Seq<RuleV>> {
    seq![
        get_rules(),
        unique_rules(),
        first_rules(),
        count_rules(),
        distinct_rules(),
        aggregate_rules(),
        paginate_rules(),
        lower_bound_rules(),
        upper_bound_rules(),
        vector_search_rules(),
        hybrid_search_rules(),
        search_rules(),
    ]
}

/// What is wrong with the combination of parts of a query, if anything.
pub open spec fn combination_fault(q: QueryV) -> Option<ErrorV> {
    match first_broken_in(q, all_rules()) {
        Some(rule) => Some(error::bad(rule.message)),
        None => None,
    }
}

/// A rule with a single peer.
fn excludes(subject: Peer, peer: Peer, message: &'static str) -> (r: Incompatible)
    ensures
        r@ == rule(subject, seq![peer], message@),
{
    let r = Incompatible { subject, peers: vec![peer], message };
    assert(r.peers@ =~= seq![peer]);
    r
}

fn get_incompatibles() -> (v: Vec<Incompatible>)
    ensures
        rule_views(v@) == get_rules(),
{
    let v: Vec<Incompatible> = vec![
        Incompatible {
            subject: Peer::Get,
            peers: vec![
                Peer::Index, Peer::Eq, Peer::Gt, Peer::Gte, Peer::Lt, Peer::Lte, Peer::Order,
                Peer::Take, Peer::Unique, Peer::First, Peer::Count, Peer::Distinct,
                Peer::Aggregate, Peer::Paginate, Peer::Filter, Peer::Search, Peer::VectorSearch,
                Peer::HybridSearch,
            ],
            message: GET_MESSAGE,
        },
    ];
    assert(v@[0].peers@ =~= get_rules()[0].peers);
    assert(rule_views(v@) =~= get_rules());
    v
}

fn unique_incompatibles() -> (v: Vec<Incompatible>)
    ensures
        rule_views(v@) == unique_rules(),
{
    let v: Vec<Incompatible> = vec![
        Incompatible {
            subject: Peer::Unique,
            peers: vec![
                Peer::Take, Peer::Order, Peer::Distinct, Peer::Aggregate,
            ],
            message: UNIQUE_MESSAGE,
        },
    ];
    assert(v@[0].peers@ =~= unique_rules()[0].peers);
    assert(rule_views(v@) =~= unique_rules());
    v
}

fn first_incompatibles() -> (v: Vec<Incompatible>)
    ensures
        rule_views(v@) == first_rules(),
{
    let v: Vec<Incompatible> = vec![
        excludes(Peer::First, Peer::Unique, "first cannot be combined with unique"),
        excludes(Peer::First, Peer::Take, "first cannot be combined with take"),
        excludes(Peer::First, Peer::Distinct, "first cannot be combined with distinct"),
        excludes(Peer::First, Peer::Aggregate, "first cannot be combined with aggregate"),
    ];
    assert(rule_views(v@) =~= first_rules());
    v
}

fn count_incompatibles() -> (v: Vec<Incompatible>)
    ensures
        rule_views(v@) == count_rules(),
{
    let v: Vec<Incompatible> = vec![
        excludes(Peer::Count, Peer::Unique, "count cannot be combined with unique"),
        excludes(Peer::Count, Peer::Take, "count cannot be combined with take"),
        excludes(Peer::Count, Peer::First, "count cannot be combined with first"),
        excludes(Peer::Count, Peer::Order, "count cannot be combined with order"),
        excludes(Peer::Count, Peer::Distinct, "count cannot be combined with distinct"),
        excludes(Peer::Count, Peer::Aggregate, "count cannot be combined with aggregate"),
    ];
    assert(rule_views(v@) =~= count_rules());
    v
}

fn distinct_incompatibles() -> (v: Vec<Incompatible>)
    ensures
        rule_views(v@) == distinct_rules(),
{
    let v: Vec<Incompatible> = vec![
        excludes(Peer::Distinct, Peer::Get, "distinct cannot be combined with get"),
        excludes(Peer::Distinct, Peer::Take, "distinct cannot be combined with take"),
        excludes(Peer::Distinct, Peer::Unique, "distinct cannot be combined with unique"),
        excludes(Peer::Distinct, Peer::First, "distinct cannot be combined with first"),
        excludes(Peer::Distinct, Peer::Count, "distinct cannot be combined with count"),
        excludes(Peer::Distinct, Peer::Aggregate, "distinct cannot be combined with aggregate"),
        excludes(Peer::Distinct, Peer::Order, "distinct cannot be combined with order"),
        excludes(Peer::Distinct, Peer::Paginate, "distinct cannot be combined with paginate"),
        excludes(Peer::Distinct, Peer::Search, "distinct cannot be combined with search"),
        excludes(
            Peer::Distinct,
            Peer::VectorSearch,
            "distinct cannot be combined with vector search",
        ),
        excludes(
            Peer::Distinct,
            Peer::HybridSearch,
            "distinct cannot be combined with hybrid search",
        ),
    ];
    assert(rule_views(v@) =~= distinct_rules());
    v
}

fn aggregate_incompatibles() -> (v: Vec<Incompatible>)
    ensures
        rule_views(v@) == aggregate_rules(),
{
    let v: Vec<Incompatible> = vec![
        excludes(Peer::Aggregate, Peer::Get, "aggregate cannot be combined with get"),
        excludes(Peer::Aggregate, Peer::Take, "aggregate cannot be combined with take"),
        excludes(Peer::Aggregate, Peer::Unique, "aggregate cannot be combined with unique"),
        excludes(Peer::Aggregate, Peer::First, "aggregate cannot be combined with first"),
        excludes(Peer::Aggregate, Peer::Count, "aggregate cannot be combined with count"),
        excludes(Peer::Aggregate, Peer::Distinct, "aggregate cannot be combined with distinct"),
        excludes(Peer::Aggregate, Peer::Order, "aggregate cannot be combined with order"),
        excludes(Peer::Aggregate, Peer::Paginate, "aggregate cannot be combined with paginate"),
        excludes(Peer::Aggregate, Peer::Search, "aggregate cannot be combined with search"),
        excludes(
            Peer::Aggregate,
            Peer::VectorSearch,
            "aggregate cannot be combined with vector search",
        ),
        excludes(
            Peer::Aggregate,
            Peer::HybridSearch,
            "aggregate cannot be combined with hybrid search",
        ),
    ];
    assert(rule_views(v@) =~= aggregate_rules());
    v
}

fn paginate_incompatibles() -> (v: Vec<Incompatible>)
    ensures
        rule_views(v@) == paginate_rules(),
{
    let v: Vec<Incompatible> = vec![
        excludes(Peer::Paginate, Peer::Get, "paginate cannot be combined with get"),
        excludes(Peer::Paginate, Peer::Count, "paginate cannot be combined with count"),
        excludes(Peer::Paginate, Peer::Distinct, "paginate cannot be combined with distinct"),
        excludes(Peer::Paginate, Peer::Aggregate, "paginate cannot be combined with aggregate"),
        excludes(Peer::Paginate, Peer::Unique, "paginate cannot be combined with unique"),
        excludes(Peer::Paginate, Peer::First, "paginate cannot be combined with first"),
        excludes(Peer::Paginate, Peer::Take, "paginate cannot be combined with take"),
    ];
    assert(rule_views(v@) =~= paginate_rules());
    v
}

fn lower_bound_incompatibles() -> (v: Vec<Incompatible>)
    ensures
        rule_views(v@) == lower_bound_rules(),
{
    let v: Vec<Incompatible> = vec![
        excludes(Peer::Gt, Peer::Gte, "gt and gte cannot both be set"),
    ];
    assert(rule_views(v@) =~= lower_bound_rules());
    v
}

fn upper_bound_incompatibles() -> (v: Vec<Incompatible>)
    ensures
        rule_views(v@) == upper_bound_rules(),
{
    let v: Vec<Incompatible> = vec![
        excludes(Peer::Lt, Peer::Lte, "lt and lte cannot both be set"),
    ];
    assert(rule_views(v@) =~= upper_bound_rules());
    v
}

fn vector_search_incompatibles() -> (v: Vec<Incompatible>)
    ensures
        rule_views(v@) == vector_search_rules(),
{
    let v: Vec<Incompatible> = vec![
        Incompatible {
            subject: Peer::VectorSearch,
            peers: vec![
                Peer::Index, Peer::Eq, Peer::Gt, Peer::Gte, Peer::Lt, Peer::Lte, Peer::Order,
                Peer::Unique, Peer::First, Peer::Count, Peer::Distinct, Peer::Aggregate,
                Peer::Paginate, Peer::Filter, Peer::Search, Peer::Take, Peer::HybridSearch,
            ],
            message: VECTOR_SEARCH_MESSAGE,
        },
    ];
    assert(v@[0].peers@ =~= vector_search_rules()[0].peers);
    assert(rule_views(v@) =~= vector_search_rules());
    v
}

fn hybrid_search_incompatibles() -> (v: Vec<Incompatible>)
    ensures
        rule_views(v@) == hybrid_search_rules(),
{
    let v: Vec<Incompatible> = vec![
        Incompatible {
            subject: Peer::HybridSearch,
            peers: vec![
                Peer::Index, Peer::Eq, Peer::Gt, Peer::Gte, Peer::Lt, Peer::Lte, Peer::Order,
                Peer::Take, Peer::Unique, Peer::First, Peer::Count, Peer::Distinct,
                Peer::Aggregate, Peer::Paginate, Peer::Filter, Peer::Search, Peer::VectorSearch,
            ],
            message: HYBRID_SEARCH_MESSAGE,
        },
    ];
    assert(v@[0].peers@ =~= hybrid_search_rules()[0].peers);
    assert(rule_views(v@) =~= hybrid_search_rules());
    v
}

fn search_incompatibles() -> (v: Vec<Incompatible>)
    ensures
        rule_views(v@) == search_rules(),
{
    let v: Vec<Incompatible> = vec![
        Incompatible {
            subject: Peer::Search,
            peers: vec![
                Peer::Index, Peer::Eq, Peer::Gt, Peer::Gte, Peer::Lt, Peer::Lte, Peer::Order,
                Peer::Unique, Peer::First, Peer::Count, Peer::Distinct, Peer::Aggregate,
                Peer::Paginate, Peer::Filter, Peer::VectorSearch, Peer::HybridSearch,
            ],
            message: SEARCH_MESSAGE,
        },
    ];
    assert(v@[0].peers@ =~= search_rules()[0].peers);
    assert(rule_views(v@) =~= search_rules());
    v
}

/// Whether some part of a list is present in the query.
fn any_set(q: &Query, peers: &Vec<Peer>) -> (r: bool)
    ensures
        r == any_present(peers@, q@),
{
    let mut i: usize = 0;
    while i < peers.len()
        invariant
            i <= peers@.len(),
            forall|k: int| 0 <= k < i ==> !present(#[trigger] peers@[k], q@),
        decreases peers@.len() - i,
    {
        if peers[i].is_set(q) {
            return true;
        }
        i = i + 1;
    }
    false
}

/// Rejects the query with the message of the first of the rules it breaks.
fn reject_per_peer_set(q: &Query, rules: &Vec<Incompatible>) -> (r: Result<(), RtDbError>)
    ensures
        match first_broken(q@, rule_views(rules@)) {
            Some(rule) => r matches Err(e) && e@ == error::bad(rule.message),
            None => r is Ok,
        },
{
    let ghost all = rule_views(rules@);
    let mut i: usize = 0;
    assert(all.skip(0) =~= all);
    while i < rules.len()
        invariant
            i <= rules@.len(),
            all == rule_views(rules@),
            first_broken(q@, all) == first_broken(q@, all.skip(i as int)),
        decreases rules@.len() - i,
    {
        assert(all.skip(i as int).drop_first() =~= all.skip(i as int + 1));
        assert(all.skip(i as int)[0] == rules@[i as int]@);
        if rules[i].subject.is_set(q) && any_set(q, &rules[i].peers) {
            return Err(RtDbError::bad_request(rules[i].message.to_owned()));
        }
        i = i + 1;
    }
    Ok(())
}

/// Rejects a query whose parts cannot stand together, with the message of the
/// first rule it breaks.
pub fn check_query_combinations(q: &Query) -> (r: Result<(), RtDbError>)
    ensures
        match combination_fault(q@) {
            Some(e) => r matches Err(x) && x@ == e,
            None => r is Ok,
        },
{
    let tables: Vec<Vec<Incompatible>> = vec![
        get_incompatibles(),
        unique_incompatibles(),
        first_incompatibles(),
        count_incompatibles(),
        distinct_incompatibles(),
        aggregate_incompatibles(),
        paginate_incompatibles(),
        lower_bound_incompatibles(),
        upper_bound_incompatibles(),
        vector_search_incompatibles(),
        hybrid_search_incompatibles(),
        search_incompatibles(),
    ];
    let ghost all = all_rules();
    assert(table_views(tables@) =~= all);
    let mut i: usize = 0;
    assert(all.skip(0) =~= all);
    while i < tables.len()
        invariant
            i <= tables@.len(),
            all == all_rules(),
            all == table_views(tables@),
            first_broken_in(q@, all) == first_broken_in(q@, all.skip(i as int)),
        decreases tables@.len() - i,
    {
        assert(all.skip(i as int).drop_first() =~= all.skip(i as int + 1));
        assert(all.skip(i as int)[0] == rule_views(tables@[i as int]@));
        match reject_per_peer_set(q, &tables[i]) {
            Ok(_) => {},
            Err(e) => {
                return Err(e);
            },
        }
        i = i + 1;
    }
    Ok(())
}

proof fn lemma_none_broken(q: QueryV, rules: Seq<RuleV>, j: int)
    requires
        first_broken(q, rules) is None,
        0 <= j < rules.len(),
    ensures
        !breaks(q, rules[j]),
    decreases rules.len(),
{
    if j > 0 {
        lemma_none_broken(q, rules.drop_first(), j - 1);
        assert(rules.drop_first()[j - 1] == rules[j]);
    }
}

proof fn lemma_none_broken_in(q: QueryV, tables: Seq<Seq<RuleV>>, i: int)
    requires
        first_broken_in(q, tables) is None,
        0 <= i < tables.len(),
    ensures
        first_broken(q, tables[i]) is None,
    decreases tables.len(),
{
    if i > 0 {
        lemma_none_broken_in(q, tables.drop_first(), i - 1);
        assert(tables.drop_first()[i - 1] == tables[i]);
    }
}

/// A query that is accepted breaks none of the rules.
pub proof fn law_accepted_query_breaks_no_rule(q: QueryV, i: int, j: int)
    requires
        combination_fault(q) is None,
        0 <= i < all_rules().len(),
        0 <= j < all_rules()[i].len(),
    ensures
        !breaks(q, all_rules()[i][j]),
{
    lemma_none_broken_in(q, all_rules(), i);
    lemma_none_broken(q, all_rules()[i], j);
}

proof fn lemma_broken(q: QueryV, rules: Seq<RuleV>)
    requires
        first_broken(q, rules) is Some,
    ensures
        exists|j: int| 0 <= j < rules.len() && breaks(q, #[trigger] rules[j]),
    decreases rules.len(),
{
    if !breaks(q, rules[0]) {
        let tail = rules.drop_first();
        lemma_broken(q, tail);
        let j = choose|j: int| 0 <= j < tail.len() && breaks(q, #[trigger] tail[j]);
        assert(rules[j + 1] == tail[j]);
    }
}

proof fn lemma_broken_in(q: QueryV, tables: Seq<Seq<RuleV>>)
    requires
        first_broken_in(q, tables) is Some,
    ensures
        exists|i: int, j: int|
            0 <= i < tables.len() && 0 <= j < tables[i].len() && breaks(q, #[trigger] tables[i][j]),
    decreases tables.len(),
{
    if first_broken(q, tables[0]) is Some {
        lemma_broken(q, tables[0]);
        let j = choose|j: int| 0 <= j < tables[0].len() && breaks(q, #[trigger] tables[0][j]);
        assert(breaks(q, tables[0][j]));
    } else {
        let tail = tables.drop_first();
        lemma_broken_in(q, tail);
        let (i, j) = choose|i: int, j: int|
            0 <= i < tail.len() && 0 <= j < tail[i].len() && breaks(q, #[trigger] tail[i][j]);
        assert(tables[i + 1] == tail[i]);
        assert(breaks(q, tables[i + 1][j]));
    }
}

/// A query that is refused breaks one of the rules.
pub proof fn law_refused_query_breaks_a_rule(q: QueryV)
    requires
        combination_fault(q) is Some,
    ensures
        exists|i: int, j: int|
            0 <= i < all_rules().len() && 0 <= j < all_rules()[i].len() && breaks(
                q,
                #[trigger] all_rules()[i][j],
            ),
{
    lemma_broken_in(q, all_rules());
}

/// A point read that is accepted stands alone.
pub proof fn law_point_read_stands_alone(q: QueryV, p: Peer)
    requires
        combination_fault(q) is None,
        q.get is Some,
        p != Peer::Get,
    ensures
        !present(p, q),
{
    law_accepted_query_breaks_no_rule(q, 0, 0);
    let peers = get_rules()[0].peers;
    assert(!any_present(peers, q));
    assert(peers.contains(p)) by {
        assert(peers[0] == Peer::Index && peers[1] == Peer::Eq && peers[2] == Peer::Gt);
        assert(peers[3] == Peer::Gte && peers[4] == Peer::Lt && peers[5] == Peer::Lte);
        assert(peers[6] == Peer::Order && peers[7] == Peer::Take && peers[8] == Peer::Unique);
        assert(peers[9] == Peer::First && peers[10] == Peer::Count && peers[11] == Peer::Distinct);
        assert(peers[12] == Peer::Aggregate && peers[13] == Peer::Paginate);
        assert(peers[14] == Peer::Filter && peers[15] == Peer::Search);
        assert(peers[16] == Peer::VectorSearch && peers[17] == Peer::HybridSearch);
    }
    let k = peers.index_of(p);
    assert(peers[k] == p);
}

} // verus!
