//! A compiled filter selects the rows whose documents meet the filter.
#[allow(unused_imports)]
use vstd::prelude::*;

use crate::dsl::{BindV, CtxV, FilterV, Rel};
use crate::error::ErrorV;
use crate::json;
use crate::json::JsonV;
use crate::number;
use crate::number::Sign;
use crate::query::filter;
use crate::query::filter::FilterUse;
use crate::query::laws;
use crate::query::meaning;
use crate::query::meaning::{Cond, Op, Row, Term};
use crate::query::row_auth;
use crate::schema;
use crate::schema::TableV;
use crate::text;

verus! {

/// The comparison of a relation.
spec fn op_of(rel: Rel) -> Op {
    match rel {
        Rel::Eq => Op::Equal,
        Rel::Neq => Op::Unequal,
        Rel::Gt => Op::Above,
        Rel::Gte => Op::AtLeast,
        Rel::Lt => Op::Below,
        Rel::Lte => Op::AtMost,
    }
}

/// The operator of a relation is written and means what the relation says: a
/// field above a value meets the test for greater, and so on. Different relations
/// have different operators.
pub proof fn law_operator_means_its_relation(rel: Rel)
    ensures
        exists|op: Op| #[trigger]
            meaning::op_text(op) == filter::operator(rel) && forall|s: Sign| #[trigger]
                meaning::op_holds(op, s) == meaning::rel_sign(rel, s),
        forall|other: Rel| #[trigger]
            filter::operator(other) == filter::operator(rel) ==> other == rel,
{
    lemma_operator(rel);
    assert(meaning::op_text(op_of(rel)) == filter::operator(rel));
    assert forall|other: Rel| #[trigger] filter::operator(other) == filter::operator(
        rel,
    ) implies other == rel by {
        lemma_operator(other);
        let a = meaning::op_text(op_of(rel));
        let b = meaning::op_text(op_of(other));
        assert(a.len() == b.len() && a[0] == b[0] && a.last() == b.last());
    }
}

proof fn lemma_operator(rel: Rel)
    ensures
        meaning::op_text(op_of(rel)) == filter::operator(rel),
        forall|s: Sign| #[trigger] meaning::op_holds(op_of(rel), s) == meaning::rel_sign(rel, s),
{
    reveal_strlit("=");
    reveal_strlit("<>");
    reveal_strlit(">");
    reveal_strlit(">=");
    reveal_strlit("<");
    reveal_strlit("<=");
    assert(meaning::op_text(op_of(rel)) =~= filter::operator(rel));
}

/// What a comparison reads of a row.
spec fn term_of(field: Seq<char>, v: JsonV, t: TableV) -> Term {
    if schema::is_index_field(t, field) {
        Term::Column(schema::column(field))
    } else {
        match v {
            JsonV::String(_) => Term::Text(field),
            JsonV::Number(_) => Term::Number(field),
            _ => Term::Boolean(field),
        }
    }
}

proof fn lemma_term(field: Seq<char>, v: JsonV, t: TableV)
    requires
        filter::field_term(field, v, t) is Ok,
    ensures
        ({
            let (lhs, b) = filter::field_term(field, v, t)->Ok_0;
            &&& meaning::term_text(term_of(field, v, t)) == lhs
            &&& forall|row: Row| #[trigger]
                meaning::mirrors(row, t) ==> meaning::term_order(term_of(field, v, t), row, b)
                    == meaning::field_order(t, field, row.doc, v, row.shown)
        }),
{
    let (lhs, b) = filter::field_term(field, v, t)->Ok_0;
    assert forall|row: Row| #[trigger] meaning::mirrors(row, t) implies meaning::term_order(
        term_of(field, v, t),
        row,
        b,
    ) == meaning::field_order(t, field, row.doc, v, row.shown) by {
        if schema::is_index_field(t, field) {
            assert(t.fields.contains_key(field) && schema::is_index_field(t, field));
        }
    }
}

/// The bound values from a number on are these.
pub open spec fn placed(env: Seq<BindV>, at: nat, binds: Seq<BindV>) -> bool {
    &&& 1 <= at
    &&& at - 1 + binds.len() <= env.len()
    &&& forall|i: int| 0 <= i < binds.len() ==> env[at - 1 + i] == #[trigger] binds[i]
}

proof fn lemma_in_terms(field: Seq<char>, vs: Seq<JsonV>, t: TableV)
    requires
        filter::in_terms(field, vs, t) is Ok,
    ensures
        ({
            let (lhs, binds) = filter::in_terms(field, vs, t)->Ok_0;
            &&& vs.len() > 0
            &&& binds.len() == vs.len()
            &&& forall|i: int|
                0 <= i < vs.len() ==> filter::field_term(field, #[trigger] vs[i], t) == Ok::<
                    (Seq<char>, BindV),
                    ErrorV,
                >((lhs, binds[i]))
        }),
    decreases vs.len(),
{
    if vs.len() > 1 {
        let init = vs.drop_last();
        lemma_in_terms(field, init, t);
        assert forall|i: int| 0 <= i < vs.len() implies filter::field_term(
            field,
            #[trigger] vs[i],
            t,
        ) == Ok::<(Seq<char>, BindV), ErrorV>(
            (filter::in_terms(field, vs, t)->Ok_0.0, filter::in_terms(field, vs, t)->Ok_0.1[i]),
        ) by {
            if i < init.len() {
                assert(init[i] == vs[i]);
            }
        }
    }
}

proof fn lemma_same_term(field: Seq<char>, v: JsonV, w: JsonV, t: TableV)
    requires
        filter::field_term(field, v, t) is Ok,
        filter::field_term(field, w, t) is Ok,
        filter::field_term(field, v, t)->Ok_0.0 == filter::field_term(field, w, t)->Ok_0.0,
    ensures
        term_of(field, v, t) == term_of(field, w, t),
{
    if !schema::is_index_field(t, field) {
        reveal_strlit("(doc->>'");
        reveal_strlit("')");
        reveal_strlit("')::float8");
        reveal_strlit("')::boolean");
        lemma_term(field, v, t);
        lemma_term(field, w, t);
        let a = meaning::term_text(term_of(field, v, t));
        let b = meaning::term_text(term_of(field, w, t));
        assert(a.len() == b.len());
    }
}

proof fn lemma_given(usage: FilterUse, vs: Seq<JsonV>)
    ensures
        filter::at_hand(usage, vs) == meaning::given(usage, vs),
    decreases vs.len(),
{
    reveal(Seq::filter);
    if vs.len() > 0 {
        lemma_given(usage, vs.drop_last());
    }
}

proof fn lemma_among(
    field: Seq<char>,
    vs: Seq<JsonV>,
    t: TableV,
    at: nat,
    env: Seq<BindV>,
    row: Row,
)
    requires
        filter::in_terms(field, vs, t) is Ok,
        placed(env, at, filter::in_terms(field, vs, t)->Ok_0.1),
        meaning::mirrors(row, t),
    ensures
        meaning::cond_value(Cond::Among(term_of(field, vs[0], t), at, vs.len()), row, env)
            == meaning::membership(
            vs.map(|i: int, v: JsonV| meaning::field_order(t, field, row.doc, v, row.shown)),
        ),
{
    let (lhs, binds) = filter::in_terms(field, vs, t)->Ok_0;
    let term = term_of(field, vs[0], t);
    lemma_in_terms(field, vs, t);
    let a = Seq::new(
        vs.len(),
        |i: int| meaning::term_order(term, row, meaning::bound(env, (at + i) as nat)),
    );
    let b = vs.map(|i: int, v: JsonV| meaning::field_order(t, field, row.doc, v, row.shown));
    assert forall|i: int| 0 <= i < vs.len() implies a[i] == b[i] by {
        assert(filter::field_term(field, vs[i], t) == Ok::<(Seq<char>, BindV), ErrorV>(
            (lhs, binds[i]),
        ));
        assert(filter::field_term(field, vs[0], t) == Ok::<(Seq<char>, BindV), ErrorV>(
            (lhs, binds[0]),
        ));
        lemma_same_term(field, vs[0], vs[i], t);
        lemma_term(field, vs[i], t);
        assert(env[at - 1 + i] == binds[i]);
    }
    assert(a =~= b);
}

/// The condition that a filter is compiled to.
spec fn cond_of(f: FilterV, t: TableV, start: nat, used: nat, usage: FilterUse) -> Cond
    decreases f,
{
    match f {
        FilterV::And(fs) => Cond::All(conds_of(fs, t, start, used, usage)),
        FilterV::Or(fs) => Cond::Any(conds_of(fs, t, start, used, usage)),
        FilterV::Not(g) => Cond::Untrue(Box::new(cond_of(*g, t, start, used, usage))),
        FilterV::Compare(rel, field, v) => if filter::lacking(usage, v) {
            Cond::Never
        } else {
            Cond::Compare(term_of(field, v, t), op_of(rel), start + used)
        },
        FilterV::In(field, values) => if filter::all_lacking(usage, values) {
            Cond::Never
        } else {
            let vs = filter::at_hand(usage, values);
            Cond::Among(term_of(field, vs[0], t), start + used, vs.len())
        },
        FilterV::Contains(field, v) => if filter::lacking(usage, v) {
            Cond::Never
        } else {
            Cond::Holds(field, start + used)
        },
        FilterV::Exists(field) => Cond::Present(field),
        FilterV::OlderThan(field, ms) => Cond::Compare(
            term_of(field, JsonV::Number(number::number_of(0)), t),
            Op::Below,
            start + used,
        ),
    }
}

spec fn conds_of(fs: Seq<FilterV>, t: TableV, start: nat, used: nat, usage: FilterUse) -> Seq<Cond>
    decreases fs,
{
    if fs.len() == 0 {
        Seq::empty()
    } else {
        let taken = filter::nodes_sql(fs.drop_last(), t, start, used, usage)->Ok_0.1.len();
        conds_of(fs.drop_last(), t, start, used, usage).push(
            cond_of(fs.last(), t, start, used + taken, usage),
        )
    }
}

proof fn lemma_node(
    f: FilterV,
    t: TableV,
    start: nat,
    used: nat,
    usage: FilterUse,
    env: Seq<BindV>,
)
    requires
        filter::node_sql(f, t, start, used, usage) is Ok,
        placed(env, start + used, filter::node_sql(f, t, start, used, usage)->Ok_0.1),
    ensures
        meaning::cond_text(cond_of(f, t, start, used, usage)) == filter::node_sql(
            f,
            t,
            start,
            used,
            usage,
        )->Ok_0.0,
        forall|row: Row| #[trigger]
            meaning::mirrors(row, t) ==> meaning::cond_value(
                cond_of(f, t, start, used, usage),
                row,
                env,
            ) == laws::scan_value(f, meaning::row_tests(t, row, usage)),
    decreases f,
{
    let c = cond_of(f, t, start, used, usage);
    match f {
        FilterV::And(fs) => {
            lemma_nodes(fs, t, start, used, usage, env);
        },
        FilterV::Or(fs) => {
            lemma_nodes(fs, t, start, used, usage, env);
        },
        FilterV::Not(g) => {
            lemma_node(*g, t, start, used, usage, env);
        },
        FilterV::Compare(rel, field, v) => {
            if !filter::lacking(usage, v) {
                lemma_operator(rel);
                lemma_term(field, v, t);
                assert(env[start + used - 1 + 0] == filter::node_sql(
                    f,
                    t,
                    start,
                    used,
                    usage,
                )->Ok_0.1[0]);
                assert forall|row: Row| #[trigger] meaning::mirrors(
                    row,
                    t,
                ) implies meaning::cond_value(c, row, env) == laws::scan_value(
                    f,
                    meaning::row_tests(t, row, usage),
                ) by {
                    if let Some(s) = meaning::field_order(t, field, row.doc, v, row.shown) {
                        assert(meaning::op_holds(op_of(rel), s) == meaning::rel_sign(rel, s));
                    }
                }
            }
        },
        FilterV::In(field, values) => {
            lemma_given(usage, values);
            let vs = filter::at_hand(usage, values);
            if filter::all_lacking(usage, values) {
                assert forall|row: Row| #[trigger] meaning::mirrors(
                    row,
                    t,
                ) implies meaning::cond_value(c, row, env) == laws::scan_value(
                    f,
                    meaning::row_tests(t, row, usage),
                ) by {
                    let none = vs.map(
                        |i: int, v: JsonV| meaning::field_order(t, field, row.doc, v, row.shown),
                    );
                    assert(none.len() == 0);
                }
            } else {
                lemma_in_terms(field, vs, t);
                lemma_term(field, vs[0], t);
                let binds = filter::in_terms(field, vs, t)->Ok_0.1;
                assert(filter::placeholders(start + used, binds.len()) =~= meaning::bound_texts(
                    start + used,
                    vs.len(),
                ));
                assert forall|row: Row| #[trigger] meaning::mirrors(
                    row,
                    t,
                ) implies meaning::cond_value(c, row, env) == laws::scan_value(
                    f,
                    meaning::row_tests(t, row, usage),
                ) by {
                    lemma_among(field, vs, t, start + used, env, row);
                }
            }
        },
        FilterV::Contains(field, v) => {
            if !filter::lacking(usage, v) {
                assert(env[start + used - 1 + 0] == filter::node_sql(
                    f,
                    t,
                    start,
                    used,
                    usage,
                )->Ok_0.1[0]);
            }
        },
        FilterV::Exists(field) => {},
        FilterV::OlderThan(field, ms) => {
            lemma_older(f, t, start, used, usage, env);
        },
    }
}

proof fn lemma_older(
    f: FilterV,
    t: TableV,
    start: nat,
    used: nat,
    usage: FilterUse,
    env: Seq<BindV>,
)
    requires
        f is OlderThan,
        filter::node_sql(f, t, start, used, usage) is Ok,
        placed(env, start + used, filter::node_sql(f, t, start, used, usage)->Ok_0.1),
    ensures
        meaning::cond_text(cond_of(f, t, start, used, usage)) == filter::node_sql(
            f,
            t,
            start,
            used,
            usage,
        )->Ok_0.0,
        forall|row: Row| #[trigger]
            meaning::mirrors(row, t) ==> meaning::cond_value(
                cond_of(f, t, start, used, usage),
                row,
                env,
            ) == laws::scan_value(f, meaning::row_tests(t, row, usage)),
{
    let c = cond_of(f, t, start, used, usage);
    match (f, usage) {
        (FilterV::OlderThan(field, ms), FilterUse::Scan(clock)) => {
            let cutoff = clock.wrapping_sub(ms);
            let v = JsonV::Number(number::number_of(cutoff));
            let (sql, binds) = filter::node_sql(f, t, start, used, usage)->Ok_0;
            let term = term_of(field, v, t);
            assert(env[start + used - 1 + 0] == binds[0]);
            let lhs = filter::older_than_term(field, ms, t, clock)->Ok_0.0;
            assert(meaning::term_text(term) == lhs);
            reveal_strlit(" < ");
            reveal_strlit(" ");
            assert(meaning::op_text(Op::Below) == seq!['<']);
            assert(" < "@ =~= " "@ + meaning::op_text(Op::Below) + " "@);
            let ph = filter::placeholder(start + used);
            assert(lhs + " < "@ + ph =~= lhs + " "@ + meaning::op_text(Op::Below) + " "@ + ph);
            assert forall|row: Row| #[trigger] meaning::mirrors(row, t) implies meaning::cond_value(
                c,
                row,
                env,
            ) == laws::scan_value(f, meaning::row_tests(t, row, usage)) by {
                if schema::is_index_field(t, field) {
                    assert(t.fields.contains_key(field) && schema::is_index_field(t, field));
                }
                assert(meaning::as_int(v) == Some(cutoff as int));
                assert(meaning::term_order(term, row, binds[0]) == meaning::field_order(
                    t,
                    field,
                    row.doc,
                    v,
                    row.shown,
                ));
            }
        },
        _ => {},
    }
}

/// What a scan makes of a list of filters, from what it makes of the last.
pub proof fn lemma_scan(fs: Seq<FilterV>, tests: spec_fn(FilterV) -> Option<bool>)
    requires
        fs.len() > 0,
    ensures
        laws::scan_all(fs, tests) == meaning::both(
            laws::scan_all(fs.drop_last(), tests),
            laws::scan_value(fs.last(), tests),
        ),
        laws::scan_any(fs, tests) == meaning::either(
            laws::scan_any(fs.drop_last(), tests),
            laws::scan_value(fs.last(), tests),
        ),
{
    let a = laws::scan_all(fs.drop_last(), tests);
    let b = laws::scan_value(fs.last(), tests);
    let e = laws::scan_any(fs.drop_last(), tests);
    assert(a is None || a == Some(true) || a == Some(false));
    assert(b is None || b == Some(true) || b == Some(false));
    assert(e is None || e == Some(true) || e == Some(false));
}

proof fn lemma_nodes(
    fs: Seq<FilterV>,
    t: TableV,
    start: nat,
    used: nat,
    usage: FilterUse,
    env: Seq<BindV>,
)
    requires
        filter::nodes_sql(fs, t, start, used, usage) is Ok,
        placed(env, start + used, filter::nodes_sql(fs, t, start, used, usage)->Ok_0.1),
    ensures
        meaning::cond_texts(conds_of(fs, t, start, used, usage)) == filter::nodes_sql(
            fs,
            t,
            start,
            used,
            usage,
        )->Ok_0.0,
        forall|row: Row| #[trigger]
            meaning::mirrors(row, t) ==> meaning::all_value(
                conds_of(fs, t, start, used, usage),
                row,
                env,
            ) == laws::scan_all(fs, meaning::row_tests(t, row, usage)) && meaning::any_value(
                conds_of(fs, t, start, used, usage),
                row,
                env,
            ) == laws::scan_any(fs, meaning::row_tests(t, row, usage)),
    decreases fs,
{
    if fs.len() > 0 {
        let init = fs.drop_last();
        let (parts, binds) = filter::nodes_sql(init, t, start, used, usage)->Ok_0;
        let (sql, more) = filter::node_sql(
            fs.last(),
            t,
            start,
            used + binds.len(),
            usage,
        )->Ok_0;
        let at = start + used;
        assert forall|i: int| 0 <= i < binds.len() implies env[at - 1 + i] == #[trigger] binds[i] by {
            assert((binds + more)[i] == binds[i]);
        }
        assert forall|i: int| 0 <= i < more.len() implies env[at + binds.len() - 1 + i]
            == #[trigger] more[i] by {
            assert((binds + more)[binds.len() + i] == more[i]);
        }
        lemma_nodes(init, t, start, used, usage, env);
        lemma_node(fs.last(), t, start, used + binds.len(), usage, env);
        let cs = conds_of(fs, t, start, used, usage);
        assert(cs.drop_last() =~= conds_of(init, t, start, used, usage));
        assert(cs.last() == cond_of(fs.last(), t, start, used + binds.len(), usage));
        assert forall|row: Row| #[trigger] meaning::mirrors(row, t) implies meaning::all_value(
            cs,
            row,
            env,
        ) == laws::scan_all(fs, meaning::row_tests(t, row, usage)) && meaning::any_value(
            cs,
            row,
            env,
        ) == laws::scan_any(fs, meaning::row_tests(t, row, usage)) by {
            let head = conds_of(init, t, start, used, usage);
            let tests = meaning::row_tests(t, row, usage);
            assert(meaning::all_value(head, row, env) == laws::scan_all(init, tests));
            assert(meaning::cond_value(cs.last(), row, env) == laws::scan_value(fs.last(), tests));
            let a = meaning::all_value(head, row, env);
            let e = meaning::any_value(head, row, env);
            let b = meaning::cond_value(cs.last(), row, env);
            assert(meaning::all_value(cs, row, env) == meaning::both(a, b));
            assert(meaning::any_value(cs, row, env) == meaning::either(e, b));
            lemma_scan(fs, tests);
        }
    }
}

/// The condition that a compiled filter is the text of.
pub proof fn lemma_condition(
    f: FilterV,
    t: TableV,
    start: nat,
    used: nat,
    usage: FilterUse,
    env: Seq<BindV>,
) -> (c: Cond)
    requires
        filter::node_sql(f, t, start, used, usage) is Ok,
        placed(env, start + used, filter::node_sql(f, t, start, used, usage)->Ok_0.1),
    ensures
        meaning::cond_text(c) == filter::node_sql(f, t, start, used, usage)->Ok_0.0,
        forall|row: Row| #[trigger]
            meaning::mirrors(row, t) ==> meaning::cond_value(c, row, env) == laws::scan_value(
                f,
                meaning::row_tests(t, row, usage),
            ),
{
    lemma_node(f, t, start, used, usage, env);
    cond_of(f, t, start, used, usage)
}

/// The text of a compiled filter, with its binds in their places, is that of a
/// condition whose value on every row is what the filter says of its document.
pub proof fn law_filter_text_means_filter(
    f: FilterV,
    t: TableV,
    start: nat,
    used: nat,
    usage: FilterUse,
    env: Seq<BindV>,
)
    requires
        filter::node_sql(f, t, start, used, usage) is Ok,
        placed(env, start + used, filter::node_sql(f, t, start, used, usage)->Ok_0.1),
    ensures
        means_filter(
            filter::node_sql(f, t, start, used, usage)->Ok_0.0,
            f,
            t,
            usage,
            env,
        ),
{
    let c = lemma_condition(f, t, start, used, usage, env);
    assert(meaning::cond_text(c) == filter::node_sql(f, t, start, used, usage)->Ok_0.0);
}

/// A text is that of a condition that says of every row what a filter says of
/// its document.
pub open spec fn means_filter(
    sql: Seq<char>,
    f: FilterV,
    t: TableV,
    usage: FilterUse,
    env: Seq<BindV>,
) -> bool {
    exists|c: Cond| #[trigger]
        meaning::cond_text(c) == sql && forall|row: Row| #[trigger]
            meaning::mirrors(row, t) ==> meaning::cond_value(c, row, env) == laws::scan_value(
                f,
                meaning::row_tests(t, row, usage),
            )
}

/// A stored value and one to test against are of one kind, and numbers are equal
/// exactly if they are the same.
pub open spec fn alike(x: JsonV, v: JsonV) -> bool {
    match (x, v) {
        (JsonV::String(_), JsonV::String(_)) => true,
        (JsonV::Bool(_), JsonV::Bool(_)) => true,
        (JsonV::Number(a), JsonV::Number(b)) => {
            let s = number::double_order(number::number_text(a), number::number_text(b));
            s is Some && (s == Some(Sign::Equal) <==> a == b)
        },
        _ => false,
    }
}

/// A test compares what can be compared in a document: values of one kind. Two
/// tests are left out that a scan and a look at the document judge differently:
/// that a null is unequal to something, and that something that is no array holds
/// a text.
pub open spec fn comparable_test(f: FilterV, t: TableV, doc: JsonV, usage: FilterUse) -> bool {
    match f {
        FilterV::Compare(rel, field, v) => !(usage is Authorize && v is Null) ==> {
            &&& !meaning::bound_as_int(t, field)
            &&& json::field_of(doc, field) matches Some(x) ==> if x is Null {
                rel != Rel::Neq
            } else {
                alike(x, v)
            }
        },
        FilterV::In(field, vs) => {
            &&& !meaning::bound_as_int(t, field)
            &&& forall|i: int|
                0 <= i < vs.len() && !(usage is Authorize && #[trigger] vs[i] is Null) ==> (
                meaning::stored(doc, field) matches Some(x) ==> alike(x, vs[i]))
        },
        FilterV::Contains(field, v) => !(usage is Authorize && v is Null) ==> {
            &&& !meaning::bound_as_int(t, field)
            &&& v is String
            &&& json::field_of(doc, field) matches Some(x) ==> x is Array
        },
        FilterV::Exists(_) => true,
        FilterV::OlderThan(_, _) => false,
        _ => true,
    }
}

/// Every test in a filter compares what can be compared in a document.
pub open spec fn comparable(f: FilterV, t: TableV, doc: JsonV, usage: FilterUse) -> bool
    decreases f,
{
    match f {
        FilterV::And(fs) => all_comparable(fs, t, doc, usage),
        FilterV::Or(fs) => all_comparable(fs, t, doc, usage),
        FilterV::Not(g) => comparable(*g, t, doc, usage),
        _ => comparable_test(f, t, doc, usage),
    }
}

/// Every test in the filters compares what can be compared in a document.
pub open spec fn all_comparable(fs: Seq<FilterV>, t: TableV, doc: JsonV, usage: FilterUse) -> bool
    decreases fs,
{
    fs.len() == 0 || (all_comparable(fs.drop_last(), t, doc, usage) && comparable(
        fs.last(),
        t,
        doc,
        usage,
    ))
}

proof fn lemma_rel(rel: Rel, x: JsonV, v: JsonV)
    requires
        alike(x, v),
    ensures
        meaning::scalar_order(x, v) matches Some(s) && (meaning::rel_sign(rel, s)
            <==> row_auth::rel_holds(rel, x, v)),
        meaning::scalar_order(x, v) == Some(Sign::Equal) <==> x == v,
{
}

proof fn lemma_scalar(field: Seq<char>, v: JsonV, t: TableV)
    requires
        filter::field_term(field, v, t) is Ok,
    ensures
        v is String || v is Number || v is Bool,
{
}

proof fn lemma_field_order(
    field: Seq<char>,
    v: JsonV,
    t: TableV,
    doc: JsonV,
    shown: spec_fn(JsonV) -> Seq<char>,
)
    requires
        !meaning::bound_as_int(t, field),
        meaning::stored(doc, field) matches Some(x) && alike(x, v),
    ensures
        meaning::field_order(t, field, doc, v, shown) == meaning::scalar_order(
            meaning::stored(doc, field)->0,
            v,
        ),
{
}

proof fn lemma_in_agrees(
    field: Seq<char>,
    vs: Seq<JsonV>,
    t: TableV,
    row: Row,
    usage: FilterUse,
    ctx: CtxV,
    start: nat,
    used: nat,
)
    requires
        filter::node_sql(FilterV::In(field, vs), t, start, used, usage) is Ok,
        comparable_test(FilterV::In(field, vs), t, row.doc, usage),
    ensures
        meaning::test_value(FilterV::In(field, vs), t, row.doc, row.shown, usage) == Some(true)
            <==> row_auth::doc_matches(row.doc, FilterV::In(field, vs), ctx),
{
    let kept = meaning::given(usage, vs);
    let keep = meaning::is_given(usage);
    lemma_given(usage, vs);
    let orders = kept.map(
        |i: int, v: JsonV| meaning::field_order(t, field, row.doc, v, row.shown),
    );
    let all = row_auth::resolved_values(vs, ctx);
    assert forall|i: int| 0 <= i < kept.len() implies vs.contains(#[trigger] kept[i]) && keep(
        kept[i],
    ) by {
        assert(kept.contains(kept[i]));
        vs.lemma_filter_contains_rev(keep, kept[i]);
        vs.lemma_filter_pred(keep, i);
    }
    assert forall|i: int| 0 <= i < vs.len() && keep(#[trigger] vs[i]) implies kept.contains(
        vs[i],
    ) by {
        vs.lemma_filter_contains(keep, i);
    }
    if kept.len() > 0 {
        lemma_in_terms(field, kept, t);
    }
    assert forall|i: int| 0 <= i < vs.len() implies all[i] == #[trigger] vs[i] by {
        if keep(vs[i]) {
            assert(kept.contains(vs[i]));
            let k = kept.index_of(vs[i]);
            assert(filter::field_term(field, kept[k], t) is Ok);
            lemma_scalar(field, vs[i], t);
        }
    }
    assert(all =~= vs);
    match meaning::stored(row.doc, field) {
        None => {
            if orders.contains(Some(Sign::Equal)) {
                let k = orders.index_of(Some(Sign::Equal));
                assert(orders[k] == None::<Sign>);
            }
        },
        Some(x) => {
            if vs.contains(x) {
                let i = vs.index_of(x);
                assert(vs[i] == x);
                assert(keep(vs[i]));
                assert(kept.contains(x));
                let k = kept.index_of(x);
                assert(alike(x, vs[i]));
                lemma_field_order(field, x, t, row.doc, row.shown);
                lemma_rel(Rel::Eq, x, x);
                assert(orders[k] == Some(Sign::Equal));
            }
            if orders.contains(Some(Sign::Equal)) {
                let k = orders.index_of(Some(Sign::Equal));
                assert(vs.contains(kept[k]));
                let i = vs.index_of(kept[k]);
                assert(keep(vs[i]));
                assert(alike(x, vs[i]));
                lemma_field_order(field, vs[i], t, row.doc, row.shown);
                lemma_rel(Rel::Eq, x, vs[i]);
                assert(orders[k] == meaning::field_order(t, field, row.doc, kept[k], row.shown));
                assert(x == vs[i]);
            }
        },
    }
}

proof fn lemma_test_agrees(
    f: FilterV,
    t: TableV,
    row: Row,
    usage: FilterUse,
    ctx: CtxV,
    start: nat,
    used: nat,
)
    requires
        laws::is_test(f),
        filter::node_sql(f, t, start, used, usage) is Ok,
        comparable_test(f, t, row.doc, usage),
    ensures
        meaning::test_value(f, t, row.doc, row.shown, usage) == Some(true)
            <==> row_auth::doc_matches(row.doc, f, ctx),
{
    match f {
        FilterV::Compare(rel, field, v) => {
            if !filter::lacking(usage, v) {
                lemma_scalar(field, v, t);
                if let Some(x) = meaning::stored(row.doc, field) {
                    lemma_field_order(field, v, t, row.doc, row.shown);
                    lemma_rel(rel, x, v);
                }
            }
        },
        FilterV::In(field, vs) => {
            lemma_in_agrees(field, vs, t, row, usage, ctx, start, used);
        },
        FilterV::Contains(field, v) => {
            if !filter::lacking(usage, v) {
                lemma_scalar(field, v, t);
            }
        },
        _ => {},
    }
}

/// What a scan makes of a compiled filter and what the document test makes of the
/// filter agree, for every row whose document the filter can be held against.
pub proof fn law_compiled_filter_agrees_with_document_test(
    f: FilterV,
    t: TableV,
    row: Row,
    usage: FilterUse,
    ctx: CtxV,
    start: nat,
    used: nat,
)
    requires
        filter::node_sql(f, t, start, used, usage) is Ok,
        comparable(f, t, row.doc, usage),
    ensures
        laws::scan_value(f, meaning::row_tests(t, row, usage)) == Some(true)
            <==> row_auth::doc_matches(row.doc, f, ctx),
    decreases f,
{
    match f {
        FilterV::And(fs) => lemma_tests_agree(fs, t, row, usage, ctx, start, used),
        FilterV::Or(fs) => lemma_tests_agree(fs, t, row, usage, ctx, start, used),
        FilterV::Not(g) => law_compiled_filter_agrees_with_document_test(
            *g,
            t,
            row,
            usage,
            ctx,
            start,
            used,
        ),
        _ => {
            lemma_test_agrees(f, t, row, usage, ctx, start, used);
        },
    }
}

proof fn lemma_tests_agree(
    fs: Seq<FilterV>,
    t: TableV,
    row: Row,
    usage: FilterUse,
    ctx: CtxV,
    start: nat,
    used: nat,
)
    requires
        filter::nodes_sql(fs, t, start, used, usage) is Ok,
        all_comparable(fs, t, row.doc, usage),
    ensures
        laws::scan_all(fs, meaning::row_tests(t, row, usage)) == Some(true)
            <==> row_auth::doc_matches_all(row.doc, fs, ctx),
        laws::scan_any(fs, meaning::row_tests(t, row, usage)) == Some(true)
            <==> row_auth::doc_matches_any(row.doc, fs, ctx),
    decreases fs,
{
    if fs.len() > 0 {
        lemma_tests_agree(fs.drop_last(), t, row, usage, ctx, start, used);
        let taken = filter::nodes_sql(fs.drop_last(), t, start, used, usage)->Ok_0.1.len();
        law_compiled_filter_agrees_with_document_test(
            fs.last(),
            t,
            row,
            usage,
            ctx,
            start,
            used + taken,
        );
        lemma_scan(fs, meaning::row_tests(t, row, usage));
    }
}

/// A client filter compiles to the text of a condition that, with its binds,
/// holds of a row exactly if the row's document meets the filter, for every row
/// whose document the filter can be held against.
pub proof fn law_compiled_client_filter_selects_matching_documents(
    f: FilterV,
    t: TableV,
    ctx: CtxV,
)
    requires
        filter::client_filter_sql(f, t, 1, None) is Ok,
    ensures
        ({
            let (sql, binds) = filter::client_filter_sql(f, t, 1, None)->Ok_0;
            exists|c: Cond| #[trigger]
                meaning::cond_text(c) == sql && forall|row: Row| #[trigger]
                    meaning::mirrors(row, t) && comparable(f, t, row.doc, FilterUse::Read) ==> (
                    meaning::cond_value(c, row, binds) == Some(true) <==> row_auth::doc_matches(
                        row.doc,
                        f,
                        ctx,
                    ))
        }),
{
    let (sql, binds) = filter::client_filter_sql(f, t, 1, None)->Ok_0;
    lemma_node(f, t, 1, 0, FilterUse::Read, binds);
    let c = cond_of(f, t, 1, 0, FilterUse::Read);
    assert(meaning::cond_text(c) == sql);
    assert forall|row: Row| #[trigger]
        meaning::mirrors(row, t) && comparable(f, t, row.doc, FilterUse::Read) implies (
    meaning::cond_value(c, row, binds) == Some(true) <==> row_auth::doc_matches(row.doc, f, ctx)) by {
        law_compiled_filter_agrees_with_document_test(f, t, row, FilterUse::Read, ctx, 1, 0);
    }
}

proof fn lemma_written(b: BindV)
    ensures
        filter::literal(b) == meaning::written(b),
{
    if b is Bool {
        reveal_strlit("true");
        reveal_strlit("false");
        assert(filter::literal(b) =~= meaning::written(b));
    }
}

proof fn lemma_all_at_hand(vs: Seq<JsonV>)
    ensures
        filter::at_hand(FilterUse::Read, vs) == vs,
    decreases vs.len(),
{
    if vs.len() > 0 {
        lemma_all_at_hand(vs.drop_last());
        assert(vs.drop_last().push(vs.last()) =~= vs);
    }
}

/// A filter that can be written out can be compiled with binds.
proof fn lemma_compiles(f: FilterV, t: TableV, start: nat, used: nat)
    requires
        filter::literal_sql(f, t) is Ok,
    ensures
        filter::node_sql(f, t, start, used, FilterUse::Read) is Ok,
    decreases f,
{
    match f {
        FilterV::And(fs) => lemma_all_compile(fs, t, start, used),
        FilterV::Or(fs) => lemma_all_compile(fs, t, start, used),
        FilterV::Not(g) => lemma_compiles(*g, t, start, used),
        FilterV::In(field, vs) => lemma_all_at_hand(vs),
        _ => {},
    }
}

proof fn lemma_all_compile(fs: Seq<FilterV>, t: TableV, start: nat, used: nat)
    requires
        filter::literals_sql(fs, t) is Ok,
    ensures
        filter::nodes_sql(fs, t, start, used, FilterUse::Read) is Ok,
    decreases fs,
{
    if fs.len() > 0 {
        lemma_all_compile(fs.drop_last(), t, start, used);
        let taken = filter::nodes_sql(fs.drop_last(), t, start, used, FilterUse::Read)->Ok_0.1.len();
        lemma_compiles(fs.last(), t, start, used + taken);
    }
}

proof fn lemma_literal(f: FilterV, t: TableV, start: nat, used: nat, env: Seq<BindV>)
    requires
        filter::literal_sql(f, t) is Ok,
        filter::node_sql(f, t, start, used, FilterUse::Read) is Ok,
        placed(env, start + used, filter::node_sql(f, t, start, used, FilterUse::Read)->Ok_0.1),
    ensures
        meaning::written_text(cond_of(f, t, start, used, FilterUse::Read), env)
            == filter::literal_sql(f, t)->Ok_0,
    decreases f,
{
    let c = cond_of(f, t, start, used, FilterUse::Read);
    match f {
        FilterV::And(fs) => lemma_literals(fs, t, start, used, env),
        FilterV::Or(fs) => lemma_literals(fs, t, start, used, env),
        FilterV::Not(g) => lemma_literal(*g, t, start, used, env),
        FilterV::Compare(rel, field, v) => {
            let b = filter::field_term(field, v, t)->Ok_0.1;
            lemma_operator(rel);
            lemma_term(field, v, t);
            lemma_written(b);
            assert(env[start + used - 1 + 0] == filter::node_sql(
                f,
                t,
                start,
                used,
                FilterUse::Read,
            )->Ok_0.1[0]);
        },
        FilterV::In(field, vs) => {
            lemma_all_at_hand(vs);
            lemma_in_terms(field, vs, t);
            lemma_term(field, vs[0], t);
            let binds = filter::in_terms(field, vs, t)->Ok_0.1;
            let at = start + used;
            let texts = Seq::new(
                vs.len(),
                |i: int| meaning::written(meaning::bound(env, (at + i) as nat)),
            );
            assert forall|i: int| 0 <= i < vs.len() implies filter::literals(binds)[i]
                == texts[i] by {
                lemma_written(binds[i]);
                assert(env[at - 1 + i] == binds[i]);
            }
            assert(filter::literals(binds) =~= texts);
        },
        FilterV::Contains(field, v) => {
            let b = filter::field_term(field, v, t)->Ok_0.1;
            lemma_written(b);
            assert(env[start + used - 1 + 0] == filter::node_sql(
                f,
                t,
                start,
                used,
                FilterUse::Read,
            )->Ok_0.1[0]);
        },
        _ => {},
    }
}

proof fn lemma_literals(fs: Seq<FilterV>, t: TableV, start: nat, used: nat, env: Seq<BindV>)
    requires
        filter::literals_sql(fs, t) is Ok,
        filter::nodes_sql(fs, t, start, used, FilterUse::Read) is Ok,
        placed(env, start + used, filter::nodes_sql(fs, t, start, used, FilterUse::Read)->Ok_0.1),
    ensures
        meaning::written_texts(conds_of(fs, t, start, used, FilterUse::Read), env)
            == filter::literals_sql(fs, t)->Ok_0,
    decreases fs,
{
    if fs.len() > 0 {
        let init = fs.drop_last();
        let (parts, binds) = filter::nodes_sql(init, t, start, used, FilterUse::Read)->Ok_0;
        let more = filter::node_sql(
            fs.last(),
            t,
            start,
            used + binds.len(),
            FilterUse::Read,
        )->Ok_0.1;
        let at = start + used;
        assert forall|i: int| 0 <= i < binds.len() implies env[at - 1 + i] == #[trigger] binds[i] by {
            assert((binds + more)[i] == binds[i]);
        }
        assert forall|i: int| 0 <= i < more.len() implies env[at + binds.len() - 1 + i]
            == #[trigger] more[i] by {
            assert((binds + more)[binds.len() + i] == more[i]);
        }
        lemma_literals(init, t, start, used, env);
        lemma_literal(fs.last(), t, start, used + binds.len(), env);
        let cs = conds_of(fs, t, start, used, FilterUse::Read);
        assert(cs.drop_last() =~= conds_of(init, t, start, used, FilterUse::Read));
        assert(cs.last() == cond_of(fs.last(), t, start, used + binds.len(), FilterUse::Read));
    }
}

/// A filter written out with literals says the same as the filter with binds: it
/// is the text of a condition with its values written out, and that condition
/// says of every row what the filter says of its document.
pub proof fn law_literal_text_means_filter(f: FilterV, t: TableV)
    requires
        filter::literal_sql(f, t) is Ok,
    ensures
        exists|c: Cond, env: Seq<BindV>| #[trigger]
            meaning::written_text(c, env) == filter::literal_sql(f, t)->Ok_0 && forall|row: Row|
                #[trigger]
                meaning::mirrors(row, t) ==> meaning::cond_value(c, row, env) == laws::scan_value(
                    f,
                    meaning::row_tests(t, row, FilterUse::Read),
                ),
{
    lemma_compiles(f, t, 1, 0);
    let env = filter::node_sql(f, t, 1, 0, FilterUse::Read)->Ok_0.1;
    lemma_literal(f, t, 1, 0, env);
    lemma_node(f, t, 1, 0, FilterUse::Read, env);
    let c = cond_of(f, t, 1, 0, FilterUse::Read);
    assert(meaning::written_text(c, env) == filter::literal_sql(f, t)->Ok_0);
}

} // verus!
