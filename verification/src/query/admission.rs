//! The rows that a query ranges over: exactly those that its index bounds, its
//! filter and the rules of the table admit.
#[allow(unused_imports)]
use vstd::prelude::*;

use crate::dsl::{BindV, CtxV, FilterV, QueryV, Rel};
use crate::error::ErrorV;
use crate::json;
use crate::json::JsonV;
use crate::number::Sign;
use crate::query::agreement;
use crate::query::filter;
use crate::query::filter::FilterUse;
use crate::query::laws;
use crate::query::meaning;
use crate::query::meaning::{Cond, Op, Row, Term};
use crate::query::row_auth;
use crate::query::window;
use crate::schema;
use crate::schema::{IndexV, TableV};
use crate::text;

verus! {

/// A row belongs to a user.
pub open spec fn is_owner(doc: JsonV, field: Seq<char>, user: Seq<char>) -> bool {
    meaning::stored(doc, field) == Some(JsonV::String(user))
}

/// A row is shared with a user.
pub open spec fn is_shared(doc: JsonV, field: Seq<char>, user: Seq<char>) -> bool {
    json::field_of(doc, field) matches Some(x) && meaning::holds_text(x, user)
}

/// A row belongs to a user or is shared with them, where the table has such a
/// rule. Where there is no user, every row does.
pub open spec fn may_see(t: TableV, user: Option<Seq<char>>, doc: JsonV) -> bool {
    match (t.owner_field, t.collaborators_field, user) {
        (Some(of), Some(cf), Some(u)) => is_owner(doc, of, u) || is_shared(doc, cf, u),
        (Some(of), None, Some(u)) => is_owner(doc, of, u),
        (None, Some(cf), Some(u)) => is_shared(doc, cf, u),
        _ => true,
    }
}

/// A row meets the predicate of the table for a user, where it has one.
pub open spec fn is_authorized(t: TableV, ctx: CtxV, row: Row) -> bool {
    match (t.authorize, ctx.user) {
        (Some(f), Some(_)) => laws::scan_value(
            row_auth::resolved_filter(f, ctx),
            meaning::row_tests(t, row, row_auth::predicate_use(f)),
        ) == Some(true),
        _ => true,
    }
}

/// A row is deleted.
pub open spec fn is_deleted(row: Row) -> bool {
    (row.filled)("deleted_at"@)
}

/// The row is one of the table: its typed columns mirror its document, and its
/// owner field, which is no integer field, holds text.
pub open spec fn is_row_of(row: Row, t: TableV) -> bool {
    &&& meaning::mirrors(row, t)
    &&& t.owner_field matches Some(of) ==> !meaning::bound_as_int(t, of) && (meaning::stored(
        row.doc,
        of,
    ) matches Some(x) ==> x is String)
}

/// All of the conditions hold of a row.
pub open spec fn all_hold(cs: Seq<Cond>, row: Row, env: Seq<BindV>) -> bool {
    meaning::all_value(cs, row, env) == Some(true)
}

/// A conjunction holds exactly if every condition in it does.
pub proof fn law_conjunction_is_every_condition(cs: Seq<Cond>, row: Row, env: Seq<BindV>)
    ensures
        all_hold(cs, row, env) <==> forall|i: int|
            0 <= i < cs.len() ==> meaning::cond_value(#[trigger] cs[i], row, env) == Some(true),
    decreases cs.len(),
{
    if cs.len() > 0 {
        let init = cs.drop_last();
        law_conjunction_is_every_condition(init, row, env);
        assert(forall|i: int| 0 <= i < init.len() ==> init[i] == cs[i]);
        if all_hold(cs, row, env) {
            assert forall|i: int| 0 <= i < cs.len() implies meaning::cond_value(
                #[trigger] cs[i],
                row,
                env,
            ) == Some(true) by {
                if i < init.len() {
                    assert(meaning::cond_value(init[i], row, env) == Some(true));
                }
            }
        } else if forall|i: int|
            0 <= i < cs.len() ==> meaning::cond_value(#[trigger] cs[i], row, env) == Some(true) {
            assert(meaning::cond_value(cs[cs.len() - 1], row, env) == Some(true));
            assert forall|i: int| 0 <= i < init.len() implies meaning::cond_value(
                #[trigger] init[i],
                row,
                env,
            ) == Some(true) by {
                assert(meaning::cond_value(cs[i], row, env) == Some(true));
            }
        }
    }
}

/// One more condition has its text last and must hold too.
pub proof fn lemma_one_more(cs: Seq<Cond>, c: Cond, row: Row, env: Seq<BindV>)
    ensures
        meaning::cond_texts(cs.push(c)) == meaning::cond_texts(cs).push(meaning::cond_text(c)),
        all_hold(cs.push(c), row, env) <==> all_hold(cs, row, env) && meaning::cond_value(
            c,
            row,
            env,
        ) == Some(true),
{
    assert(cs.push(c).drop_last() =~= cs);
}

proof fn lemma_owner_texts(of: Seq<char>, cf: Seq<char>, n: nat)
    ensures
        row_auth::row_auth_sql(Some(of), None, n) == meaning::cond_text(
            Cond::Compare(Term::Text(of), Op::Equal, n),
        ),
        row_auth::row_auth_sql(None, Some(cf), n) == meaning::cond_text(Cond::Holds(cf, n)),
        row_auth::row_auth_sql(Some(of), Some(cf), n) == meaning::cond_text(
            Cond::Any(
                pair(Cond::Compare(Term::Text(of), Op::Equal, n), Cond::Holds(cf, n)),
            ),
        ),
{
    reveal_strlit("(doc->>'");
    reveal_strlit("')");
    reveal_strlit(" ");
    reveal_strlit("') = ");
    reveal_strlit("(doc->'");
    reveal_strlit("') ? ");
    reveal_strlit(" ? ");
    reveal_strlit("((doc->>'");
    reveal_strlit(" OR (doc->'");
    reveal_strlit(" OR ");
    reveal_strlit("(");
    reveal_strlit(")");
    let p = filter::placeholder(n);
    let own = Cond::Compare(Term::Text(of), Op::Equal, n);
    let held = Cond::Holds(cf, n);
    let eq = meaning::op_text(Op::Equal);
    assert("') = "@ =~= "')"@ + " "@ + eq + " "@);
    assert("') ? "@ =~= "')"@ + " ? "@);
    let own_text = "(doc->>'"@ + of + "') = "@ + p;
    let held_text = "(doc->'"@ + cf + "') ? "@ + p;
    assert(own_text =~= "(doc->>'"@ + of + "')"@ + " "@ + eq + " "@ + p);
    assert(held_text =~= "(doc->'"@ + cf + "')"@ + " ? "@ + p);
    assert(meaning::cond_text(own) == own_text);
    assert(meaning::cond_text(held) == held_text);
    lemma_pair_texts(own, held);
    assert("((doc->>'"@ =~= "("@ + "(doc->>'"@);
    assert(" OR (doc->'"@ =~= " OR "@ + "(doc->'"@);
    let both = row_auth::row_auth_sql(Some(of), Some(cf), n);
    let first = "((doc->>'"@ + of + "') = "@ + p;
    assert(first =~= "("@ + own_text);
    let second = first + " OR (doc->'"@ + cf + "') ? "@ + p;
    assert(second =~= first + " OR "@ + held_text);
    assert(both == second + ")"@);
    let inner = own_text + " OR "@ + held_text;
    assert("("@ + own_text + " OR "@ + held_text =~= "("@ + inner);
}

/// Two conditions.
pub open spec fn pair(a: Cond, b: Cond) -> Seq<Cond> {
    seq![a, b]
}

pub proof fn lemma_pair_texts(a: Cond, b: Cond)
    ensures
        meaning::cond_texts(pair(a, b)) == seq![meaning::cond_text(a), meaning::cond_text(b)],
        text::joined(meaning::cond_texts(pair(a, b)), " OR "@) == meaning::cond_text(a) + " OR "@
            + meaning::cond_text(b),
        forall|row: Row, env: Seq<BindV>| #[trigger]
            meaning::any_value(pair(a, b), row, env) == meaning::either(
                meaning::cond_value(a, row, env),
                meaning::cond_value(b, row, env),
            ),
{
    let two = pair(a, b);
    let none = Seq::<Cond>::empty();
    assert(two.drop_last() =~= seq![a]);
    assert(seq![a].drop_last() =~= none);
    assert(meaning::cond_texts(none) =~= Seq::<Seq<char>>::empty());
    assert(meaning::cond_texts(seq![a]) =~= seq![meaning::cond_text(a)]);
    assert(meaning::cond_texts(two) =~= seq![meaning::cond_text(a), meaning::cond_text(b)]);
    let parts = seq![meaning::cond_text(a), meaning::cond_text(b)];
    assert(parts.drop_last() =~= seq![meaning::cond_text(a)]);
    assert(text::joined(seq![meaning::cond_text(a)], " OR "@) == meaning::cond_text(a));
    assert forall|row: Row, env: Seq<BindV>| #[trigger] meaning::any_value(
        two,
        row,
        env,
    ) == meaning::either(
        meaning::cond_value(a, row, env),
        meaning::cond_value(b, row, env),
    ) by {
        assert(meaning::any_value(none, row, env) == Some(false));
        assert(meaning::any_value(seq![a], row, env) == meaning::either(
            Some(false),
            meaning::cond_value(a, row, env),
        ));
    }
}

proof fn lemma_deleted_text()
    ensures
        "\"deleted_at\" IS NULL"@ == meaning::cond_text(Cond::Empty("deleted_at"@)),
{
    reveal_strlit("\"deleted_at\" IS NULL");
    reveal_strlit("deleted_at");
    reveal_strlit("\"");
    reveal_strlit(" IS NULL");
    assert("\"deleted_at\" IS NULL"@ =~= "\""@ + "deleted_at"@ + "\""@ + " IS NULL"@);
}

/// The rule of the table on whose rows these are, as a condition.
spec fn owner_cond(t: TableV, n: nat) -> Cond {
    match (t.owner_field, t.collaborators_field) {
        (Some(of), Some(cf)) => Cond::Any(
            pair(Cond::Compare(Term::Text(of), Op::Equal, n), Cond::Holds(cf, n)),
        ),
        (Some(of), None) => Cond::Compare(Term::Text(of), Op::Equal, n),
        (None, Some(cf)) => Cond::Holds(cf, n),
        (None, None) => Cond::Never,
    }
}

proof fn lemma_owner(t: TableV, user: Seq<char>, n: nat, env: Seq<BindV>)
    requires
        t.owner_field is Some || t.collaborators_field is Some,
        1 <= n <= env.len(),
        env[n - 1] == BindV::Text(user),
    ensures
        meaning::cond_text(owner_cond(t, n)) == row_auth::row_auth_sql(
            t.owner_field,
            t.collaborators_field,
            n,
        ),
        forall|row: Row| #[trigger]
            is_row_of(row, t) ==> (meaning::cond_value(owner_cond(t, n), row, env) == Some(true)
                <==> may_see(t, Some(user), row.doc)),
{
    let of = t.owner_field->0;
    let cf = t.collaborators_field->0;
    lemma_owner_texts(of, cf, n);
    let own = Cond::Compare(Term::Text(of), Op::Equal, n);
    let held = Cond::Holds(cf, n);
    lemma_pair_texts(own, held);
    assert forall|row: Row| #[trigger] is_row_of(row, t) implies (meaning::cond_value(
        owner_cond(t, n),
        row,
        env,
    ) == Some(true) <==> may_see(t, Some(user), row.doc)) by {
        assert(meaning::any_value(pair(own, held), row, env) == meaning::either(
            meaning::cond_value(own, row, env),
            meaning::cond_value(held, row, env),
        ));
    }
}

/// The conditions on rows that the rules of a table add for a caller: a row must
/// be theirs to see, meet the predicate of the table, and not be deleted where
/// deleted rows are hidden.
pub proof fn lemma_row_conditions(
    cs: Seq<Cond>,
    binds: Seq<BindV>,
    t: TableV,
    ctx: CtxV,
    owner: Option<Seq<char>>,
    start: nat,
    hide: bool,
    env: Seq<BindV>,
) -> (out: Seq<Cond>)
    requires
        filter::with_row_conditions(
            meaning::cond_texts(cs),
            binds,
            t,
            ctx,
            owner,
            start,
            hide,
        ) is Ok,
        agreement::placed(
            env,
            start,
            filter::with_row_conditions(
                meaning::cond_texts(cs),
                binds,
                t,
                ctx,
                owner,
                start,
                hide,
            )->Ok_0.1,
        ),
    ensures
        meaning::cond_texts(out) == filter::with_row_conditions(
            meaning::cond_texts(cs),
            binds,
            t,
            ctx,
            owner,
            start,
            hide,
        )->Ok_0.0,
        forall|row: Row| #[trigger]
            is_row_of(row, t) ==> (all_hold(out, row, env) <==> all_hold(cs, row, env) && may_see(
                t,
                owner,
                row.doc,
            ) && is_authorized(t, ctx, row) && !(hide && is_deleted(row))),
{
    let texts = meaning::cond_texts(cs);
    let all = filter::with_row_conditions(texts, binds, t, ctx, owner, start, hide)->Ok_0.1;
    let uid = row_auth::enforced_uid(t.owner_field, t.collaborators_field, owner);
    let n = start + binds.len();
    let (c1, b1) = match uid {
        Some(u) => (cs.push(owner_cond(t, n)), binds.push(BindV::Text(u))),
        None => (cs, binds),
    };
    let fragment = row_auth::authorize_sql(t, ctx, start, b1.len())->Ok_0;
    if let Some(u) = uid {
        assert(b1[binds.len() as int] == BindV::Text(u));
        assert(all[binds.len() as int] == BindV::Text(u));
        assert(env[start - 1 + binds.len()] == all[binds.len() as int]);
        lemma_owner(t, u, n, env);
    }
    let c2 = match fragment {
        Some((sql, more)) => {
            let f = t.authorize->0;
            let g = row_auth::resolved_filter(f, ctx);
            let usage = row_auth::predicate_use(f);
            assert forall|i: int| 0 <= i < more.len() implies env[start + b1.len() - 1 + i]
                == #[trigger] more[i] by {
                assert(all[b1.len() + i] == more[i]);
            }
            let c = agreement::lemma_condition(g, t, start, b1.len(), usage, env);
            c1.push(c)
        },
        None => c1,
    };
    let out = if hide {
        c2.push(Cond::Empty("deleted_at"@))
    } else {
        c2
    };
    lemma_deleted_text();
    let some_row = Row {
        doc: JsonV::Null,
        cells: |s: Seq<char>| None,
        filled: |s: Seq<char>| false,
        matches: |p: (Seq<char>, Option<Seq<char>>, Seq<char>)| None,
        like: |p: (Seq<char>, Seq<char>)| false,
        shown: |x: JsonV| Seq::empty(),
    };
    lemma_one_more(cs, owner_cond(t, n), some_row, env);
    lemma_one_more(c1, c2.last(), some_row, env);
    lemma_one_more(c2, Cond::Empty("deleted_at"@), some_row, env);
    assert forall|row: Row| #[trigger] is_row_of(row, t) implies (all_hold(out, row, env)
        <==> all_hold(cs, row, env) && may_see(t, owner, row.doc) && is_authorized(t, ctx, row)
        && !(hide && is_deleted(row))) by {
        lemma_one_more(cs, owner_cond(t, n), row, env);
        lemma_one_more(c1, c2.last(), row, env);
        lemma_one_more(c2, Cond::Empty("deleted_at"@), row, env);
        assert(meaning::mirrors(row, t));
    }
    out
}

/// A query bounds the index field behind its equality prefix.
pub open spec fn has_bound(q: QueryV) -> bool {
    q.gt is Some || q.gte is Some || q.lt is Some || q.lte is Some
}

/// A field that compares with the bounds of a query like this lies between them.
/// An exclusive bound counts before an inclusive one.
pub open spec fn between(q: QueryV, order: spec_fn(JsonV) -> Option<Sign>) -> bool {
    &&& q.gt matches Some(v) ==> order(v) == Some(Sign::Greater)
    &&& q.gt is None ==> (q.gte matches Some(v) ==> order(v) == Some(Sign::Greater) || order(v)
        == Some(Sign::Equal))
    &&& q.lt matches Some(v) ==> order(v) == Some(Sign::Less)
    &&& q.lt is None ==> (q.lte matches Some(v) ==> order(v) == Some(Sign::Less) || order(v)
        == Some(Sign::Equal))
}

/// How a field of a row compares with values.
pub open spec fn order_at(t: TableV, field: Seq<char>, row: Row) -> spec_fn(JsonV) -> Option<Sign> {
    |v: JsonV| meaning::field_order(t, field, row.doc, v, row.shown)
}

/// A row lies in the part of an index that a query names: its leading fields
/// equal the values of the prefix, and the field behind them lies between the
/// bounds.
pub open spec fn in_range(t: TableV, q: QueryV, ix: IndexV, row: Row) -> bool {
    &&& forall|i: int|
        0 <= i < q.eq.len() ==> order_at(t, #[trigger] ix.fields[i], row)(q.eq[i]) == Some(
            Sign::Equal,
        )
    &&& has_bound(q) ==> between(q, order_at(t, ix.fields[q.eq.len() as int], row))
}

/// A row meets the filter of a query, where it has one.
pub open spec fn meets_filter(t: TableV, f: Option<FilterV>, row: Row) -> bool {
    f matches Some(g) ==> laws::scan_value(g, meaning::row_tests(t, row, FilterUse::Read)) == Some(
        true,
    )
}

/// A query admits a row: it lies in the part of the index, meets the filter, is
/// the caller's to see, and is not deleted where deleted rows are hidden.
pub open spec fn admits(
    t: TableV,
    q: QueryV,
    index: Option<IndexV>,
    ctx: CtxV,
    include_deleted: bool,
    row: Row,
) -> bool {
    &&& index matches Some(ix) ==> in_range(t, q, ix, row)
    &&& meets_filter(t, q.filter, row)
    &&& may_see(t, ctx.user, row.doc)
    &&& is_authorized(t, ctx, row)
    &&& !(t.soft_delete && !include_deleted && is_deleted(row))
}

/// A comparison with a column, as the text of a bound writes it.
proof fn lemma_column_texts(field: Seq<char>, n: nat)
    ensures
        ({
            let c = Term::Column(schema::column(field));
            &&& window::column_condition(field, " = "@, n) == meaning::cond_text(
                Cond::Compare(c, Op::Equal, n),
            )
            &&& window::column_condition(field, " > "@, n) == meaning::cond_text(
                Cond::Compare(c, Op::Above, n),
            )
            &&& window::column_condition(field, " >= "@, n) == meaning::cond_text(
                Cond::Compare(c, Op::AtLeast, n),
            )
            &&& window::column_condition(field, " < "@, n) == meaning::cond_text(
                Cond::Compare(c, Op::Below, n),
            )
            &&& window::column_condition(field, " <= "@, n) == meaning::cond_text(
                Cond::Compare(c, Op::AtMost, n),
            )
        }),
{
    reveal_strlit(" ");
    reveal_strlit(" = ");
    reveal_strlit(" > ");
    reveal_strlit(" >= ");
    reveal_strlit(" < ");
    reveal_strlit(" <= ");
    lemma_spaced(schema::column(field), " = "@, Op::Equal, n);
    lemma_spaced(schema::column(field), " > "@, Op::Above, n);
    lemma_spaced(schema::column(field), " >= "@, Op::AtLeast, n);
    lemma_spaced(schema::column(field), " < "@, Op::Below, n);
    lemma_spaced(schema::column(field), " <= "@, Op::AtMost, n);
}

proof fn lemma_spaced(name: Seq<char>, op: Seq<char>, o: Op, n: nat)
    requires
        op =~= " "@ + meaning::op_text(o) + " "@,
    ensures
        filter::quoted(name) + op + filter::placeholder(n) == meaning::cond_text(
            Cond::Compare(Term::Column(name), o, n),
        ),
{
    let lhs = filter::quoted(name);
    let p = filter::placeholder(n);
    assert(lhs + op + p =~= lhs + " "@ + meaning::op_text(o) + " "@ + p);
}

proof fn lemma_column_order(t: TableV, field: Seq<char>, v: JsonV)
    requires
        t.fields.contains_key(field),
        schema::is_index_field(t, field),
        filter::eq_bind(t.fields[field], v) is Ok,
    ensures
        forall|row: Row| #[trigger]
            meaning::mirrors(row, t) ==> meaning::term_order(
                Term::Column(schema::column(field)),
                row,
                filter::eq_bind(t.fields[field], v)->Ok_0,
            ) == order_at(t, field, row)(v),
{
    assert forall|row: Row| #[trigger] meaning::mirrors(row, t) implies meaning::term_order(
        Term::Column(schema::column(field)),
        row,
        filter::eq_bind(t.fields[field], v)->Ok_0,
    ) == order_at(t, field, row)(v) by {
        assert(t.fields.contains_key(field) && schema::is_index_field(t, field));
    }
}

proof fn lemma_prefix(t: TableV, fields: Seq<Seq<char>>, eq: Seq<JsonV>)
    requires
        window::prefix_binds(t, fields, eq) is Ok,
    ensures
        window::prefix_binds(t, fields, eq)->Ok_0.len() == eq.len(),
        forall|i: int|
            0 <= i < eq.len() ==> t.fields.contains_key(fields[i]) && filter::eq_bind(
                t.fields[fields[i]],
                #[trigger] eq[i],
            ) == Ok::<BindV, ErrorV>(window::prefix_binds(t, fields, eq)->Ok_0[i]),
    decreases eq.len(),
{
    if eq.len() > 0 {
        let init = eq.drop_last();
        lemma_prefix(t, fields, init);
        let binds = window::prefix_binds(t, fields, eq)->Ok_0;
        assert forall|i: int| 0 <= i < eq.len() implies t.fields.contains_key(fields[i])
            && filter::eq_bind(t.fields[fields[i]], #[trigger] eq[i]) == Ok::<BindV, ErrorV>(
            binds[i],
        ) by {
            if i < init.len() {
                assert(init[i] == eq[i]);
            }
        }
    }
}

/// The conditions of an equality prefix.
spec fn prefix_conds(fields: Seq<Seq<char>>, n: nat) -> Seq<Cond>
    decreases n,
{
    if n == 0 {
        Seq::empty()
    } else {
        prefix_conds(fields, (n - 1) as nat).push(
            Cond::Compare(Term::Column(schema::column(fields[n - 1])), Op::Equal, n),
        )
    }
}

proof fn lemma_prefix_conds(
    t: TableV,
    ix: IndexV,
    eq: Seq<JsonV>,
    n: nat,
    env: Seq<BindV>,
)
    requires
        t.indexes.contains(ix),
        eq.len() <= ix.fields.len(),
        n <= eq.len() <= env.len(),
        window::prefix_binds(t, ix.fields, eq) is Ok,
        forall|i: int|
            0 <= i < eq.len() ==> #[trigger] env[i] == window::prefix_binds(
                t,
                ix.fields,
                eq,
            )->Ok_0[i],
    ensures
        meaning::cond_texts(prefix_conds(ix.fields, n)) == window::prefix_conditions(ix.fields, n),
        forall|row: Row| #[trigger]
            meaning::mirrors(row, t) ==> (all_hold(prefix_conds(ix.fields, n), row, env)
                <==> forall|i: int|
                0 <= i < n ==> order_at(t, #[trigger] ix.fields[i], row)(eq[i]) == Some(
                    Sign::Equal,
                )),
    decreases n,
{
    if n == 0 {
        assert(window::prefix_conditions(ix.fields, n) =~= Seq::<Seq<char>>::empty());
    } else {
        let m = (n - 1) as nat;
        lemma_prefix_conds(t, ix, eq, m, env);
        lemma_prefix(t, ix.fields, eq);
        let field = ix.fields[n - 1];
        let head = prefix_conds(ix.fields, m);
        let c = Cond::Compare(Term::Column(schema::column(field)), Op::Equal, n);
        lemma_column_texts(field, n);
        assert(window::prefix_conditions(ix.fields, n) =~= window::prefix_conditions(
            ix.fields,
            m,
        ).push(window::column_condition(field, " = "@, n)));
        assert(t.fields.contains_key(field) && filter::eq_bind(
            t.fields[field],
            eq[n - 1],
        ) is Ok);
        lemma_indexed(t, ix, n - 1);
        lemma_column_order(t, field, eq[n - 1]);
        assert(env[n - 1] == window::prefix_binds(t, ix.fields, eq)->Ok_0[n - 1]);
        assert(head.push(c).drop_last() =~= head);
        assert forall|row: Row| #[trigger] meaning::mirrors(row, t) implies (all_hold(
            prefix_conds(ix.fields, n),
            row,
            env,
        ) <==> forall|i: int|
            0 <= i < n ==> order_at(t, #[trigger] ix.fields[i], row)(eq[i]) == Some(
                Sign::Equal,
            )) by {
            lemma_one_more(head, c, row, env);
            assert(meaning::term_order(
                Term::Column(schema::column(field)),
                row,
                meaning::bound(env, n),
            ) == order_at(t, ix.fields[n - 1], row)(eq[n - 1]));
        }
    }
}

proof fn lemma_indexed(t: TableV, ix: IndexV, i: int)
    requires
        t.indexes.contains(ix),
        0 <= i < ix.fields.len(),
    ensures
        schema::is_index_field(t, ix.fields[i]),
{
    let k = t.indexes.index_of(ix);
    assert(t.indexes[k].fields.contains(ix.fields[i]));
}

proof fn lemma_find_index(indexes: Seq<IndexV>, name: Seq<char>)
    ensures
        schema::find_index(indexes, name) matches Some(ix) ==> indexes.contains(ix) && ix.name
            == name,
    decreases indexes.len(),
{
    if indexes.len() > 0 {
        if indexes[0].name == name {
            assert(indexes.contains(indexes[0]));
        } else {
            let rest = indexes.drop_first();
            lemma_find_index(rest, name);
            if let Some(ix) = schema::find_index(rest, name) {
                let k = rest.index_of(ix);
                assert(indexes[k + 1] == ix);
            }
        }
    }
}

/// The comparison that a bound makes, by the text of its operator.
spec fn bound_op(op: Seq<char>) -> Op {
    if op == " > "@ {
        Op::Above
    } else if op == " >= "@ {
        Op::AtLeast
    } else if op == " < "@ {
        Op::Below
    } else {
        Op::AtMost
    }
}

proof fn lemma_bound_ops()
    ensures
        bound_op(" > "@) == Op::Above,
        bound_op(" >= "@) == Op::AtLeast,
        bound_op(" < "@) == Op::Below,
        bound_op(" <= "@) == Op::AtMost,
{
    reveal_strlit(" > ");
    reveal_strlit(" >= ");
    reveal_strlit(" < ");
    reveal_strlit(" <= ");
    assert(" > "@[1] == '>' && " > "@.len() == 3);
    assert(" >= "@[1] == '>' && " >= "@.len() == 4);
    assert(" < "@[1] == '<' && " < "@.len() == 3);
    assert(" <= "@[1] == '<' && " <= "@.len() == 4);
}

/// A bound adds a condition that a row meets exactly if its field compares with
/// the bound as the operator says.
proof fn lemma_bound(
    t: TableV,
    cs: Seq<Cond>,
    conditions: Seq<Seq<char>>,
    binds: Seq<BindV>,
    bound: Option<(Seq<char>, JsonV)>,
    field: Seq<char>,
    eq_len: nat,
    env: Seq<BindV>,
) -> (out: Seq<Cond>)
    requires
        t.fields.contains_key(field),
        schema::is_index_field(t, field),
        bound matches Some((op, v)) ==> op == " > "@ || op == " >= "@ || op == " < "@ || op
            == " <= "@,
        window::with_bound(conditions, binds, bound, field, t.fields[field], eq_len) is Ok,
        agreement::placed(
            env,
            eq_len + 1,
            window::with_bound(conditions, binds, bound, field, t.fields[field], eq_len)->Ok_0.1,
        ),
    ensures
        out.len() >= cs.len(),
        out.len() == cs.len() + (if bound is Some {
            1int
        } else {
            0int
        }),
        out.take(cs.len() as int) == cs,
        bound matches Some((op, v)) ==> meaning::cond_text(out.last()) == window::with_bound(
            conditions,
            binds,
            bound,
            field,
            t.fields[field],
            eq_len,
        )->Ok_0.0.last(),
        bound matches Some((op, v)) ==> forall|row: Row| #[trigger]
            meaning::mirrors(row, t) ==> (meaning::cond_value(out.last(), row, env) == Some(true)
                <==> (order_at(t, field, row)(v) matches Some(s) && meaning::op_holds(
                bound_op(op),
                s,
            ))),
{
    match bound {
        Some((op, v)) => {
            let n = eq_len + binds.len() + 1;
            let all = window::with_bound(
                conditions,
                binds,
                bound,
                field,
                t.fields[field],
                eq_len,
            )->Ok_0.1;
            lemma_bound_ops();
            lemma_column_texts(field, n);
            lemma_column_order(t, field, v);
            assert(env[eq_len + 1 - 1 + binds.len()] == all[binds.len() as int]);
            let c = Cond::Compare(Term::Column(schema::column(field)), bound_op(op), n);
            let out = cs.push(c);
            assert(out.take(cs.len() as int) =~= cs);
            assert forall|row: Row| #[trigger] meaning::mirrors(row, t) implies (
            meaning::cond_value(out.last(), row, env) == Some(true) <==> (order_at(t, field, row)(
                v,
            ) matches Some(s) && meaning::op_holds(bound_op(op), s))) by {
                assert(meaning::bound(env, n) == filter::eq_bind(t.fields[field], v)->Ok_0);
            }
            out
        },
        None => {
            assert(cs.take(cs.len() as int) =~= cs);
            cs
        },
    }
}

/// The texts of two lists of conditions follow each other, and both must hold.
pub proof fn lemma_concat(a: Seq<Cond>, b: Seq<Cond>)
    ensures
        meaning::cond_texts(a + b) == meaning::cond_texts(a) + meaning::cond_texts(b),
        forall|row: Row, env: Seq<BindV>| #[trigger]
            all_hold(a + b, row, env) <==> all_hold(a, row, env) && all_hold(b, row, env),
    decreases b.len(),
{
    if b.len() == 0 {
        assert(a + b =~= a);
        assert(meaning::cond_texts(a) + meaning::cond_texts(b) =~= meaning::cond_texts(a));
    } else {
        let init = b.drop_last();
        lemma_concat(a, init);
        assert((a + b).drop_last() =~= a + init);
        assert((a + b).last() == b.last());
        assert(meaning::cond_texts(a + b) =~= meaning::cond_texts(a) + meaning::cond_texts(b));
        assert forall|row: Row, env: Seq<BindV>| #[trigger] all_hold(a + b, row, env) <==> all_hold(
            a,
            row,
            env,
        ) && all_hold(b, row, env) by {
            assert(all_hold(a + init, row, env) <==> all_hold(a, row, env) && all_hold(
                init,
                row,
                env,
            ));
        }
    }
}

proof fn lemma_range(t: TableV, q: QueryV, ix: IndexV, eq_len: nat, env: Seq<BindV>) -> (out: Seq<
    Cond,
>)
    requires
        t.indexes.contains(ix),
        has_bound(q),
        window::range_terms(t, Some(ix), q, eq_len) is Ok,
        agreement::placed(env, eq_len + 1, window::range_terms(t, Some(ix), q, eq_len)->Ok_0.1),
    ensures
        eq_len < ix.fields.len(),
        meaning::cond_texts(out) == window::range_terms(t, Some(ix), q, eq_len)->Ok_0.0,
        forall|row: Row| #[trigger]
            meaning::mirrors(row, t) ==> (all_hold(out, row, env) <==> between(
                q,
                order_at(t, ix.fields[eq_len as int], row),
            )),
{
    let field = ix.fields[eq_len as int];
    let ty = t.fields[field];
    let none = Seq::<Cond>::empty();
    let no_texts = Seq::<Seq<char>>::empty();
    let no_binds = Seq::<BindV>::empty();
    let (lc, lb) = window::with_bound(
        no_texts,
        no_binds,
        window::lower_bound(q),
        field,
        ty,
        eq_len,
    )->Ok_0;
    let (rc, rb) = window::range_terms(t, Some(ix), q, eq_len)->Ok_0;
    lemma_indexed(t, ix, eq_len as int);
    assert forall|i: int| 0 <= i < lb.len() implies env[eq_len + 1 - 1 + i] == #[trigger] lb[i] by {
        assert(rb[i] == lb[i]);
    }
    let low = lemma_bound(t, none, no_texts, no_binds, window::lower_bound(q), field, eq_len, env);
    let out = lemma_bound(t, low, lc, lb, window::upper_bound(q), field, eq_len, env);
    lemma_bound_ops();
    if window::lower_bound(q) is Some {
        assert(low =~= none.push(low.last()));
        assert(lc =~= no_texts.push(lc.last()));
        lemma_texts_push(none, low.last());
    } else {
        assert(low =~= none);
        assert(lc =~= no_texts);
    }
    assert(meaning::cond_texts(none) =~= no_texts);
    if window::upper_bound(q) is Some {
        assert(out =~= low.push(out.last())) by {
            assert(out.take(low.len() as int) == low);
        }
        assert(rc =~= lc.push(rc.last()));
        lemma_texts_push(low, out.last());
    } else {
        assert(out =~= low) by {
            assert(out.take(low.len() as int) == low);
        }
    }
    assert forall|row: Row| #[trigger] meaning::mirrors(row, t) implies (all_hold(out, row, env)
        <==> between(q, order_at(t, field, row))) by {
        if window::lower_bound(q) is Some {
            lemma_one_more(none, low.last(), row, env);
        }
        if window::upper_bound(q) is Some {
            lemma_one_more(low, out.last(), row, env);
        }
    }
    out
}

/// The text of one more condition comes last.
pub proof fn lemma_texts_push(cs: Seq<Cond>, c: Cond)
    ensures
        meaning::cond_texts(cs.push(c)) == meaning::cond_texts(cs).push(meaning::cond_text(c)),
{
    assert(cs.push(c).drop_last() =~= cs);
}

/// What a filter narrowed to the caller's own rows says.
proof fn lemma_owned(t: TableV, q: QueryV, ctx: CtxV, row: Row)
    requires
        is_row_of(row, t),
    ensures
        meets_filter(t, window::effective_filter(t, q, ctx), row) && may_see(
            t,
            window::separate_owner(t, ctx),
            row.doc,
        ) <==> meets_filter(t, q.filter, row) && may_see(t, ctx.user, row.doc),
{
    if t.owner_field is Some && t.collaborators_field is None && ctx.user is Some {
        let of = t.owner_field->0;
        let uid = ctx.user->0;
        let tests = meaning::row_tests(t, row, FilterUse::Read);
        let own = FilterV::Compare(Rel::Eq, of, JsonV::String(uid));
        assert(laws::scan_value(own, tests) == meaning::test_value(
            own,
            t,
            row.doc,
            row.shown,
            FilterUse::Read,
        ));
        assert(laws::scan_value(own, tests) == Some(true) <==> is_owner(row.doc, of, uid));
        if let Some(f) = q.filter {
            let fs = seq![f, own];
            let none = Seq::<FilterV>::empty();
            assert(fs.drop_last() =~= seq![f]);
            assert(seq![f].drop_last() =~= none);
            agreement::lemma_scan(fs, tests);
            agreement::lemma_scan(seq![f], tests);
            assert(laws::scan_all(none, tests) == Some(true));
        }
    }
}

/// The index of a window is the one that the query names.
pub open spec fn index_is_named(t: TableV, q: QueryV, index: Option<IndexV>) -> bool {
    match (q.index, index) {
        (Some(name), Some(ix)) => t.indexes.contains(ix) && ix.name == name,
        (None, None) => q.eq.len() == 0 && !has_bound(q),
        _ => false,
    }
}

/// Texts are those of conditions that, with their binds, hold of a row of the
/// table exactly if the query admits the row.
pub open spec fn selects(
    conditions: Seq<Seq<char>>,
    binds: Seq<BindV>,
    t: TableV,
    q: QueryV,
    index: Option<IndexV>,
    ctx: CtxV,
    include_deleted: bool,
) -> bool {
    exists|cs: Seq<Cond>| #[trigger]
        meaning::cond_texts(cs) == conditions && forall|row: Row| #[trigger]
            is_row_of(row, t) ==> (all_hold(cs, row, binds) <==> admits(
                t,
                q,
                index,
                ctx,
                include_deleted,
                row,
            ))
}

/// The conditions of a window as conditions, whatever is bound behind its binds.
pub proof fn lemma_window(
    t: TableV,
    q: QueryV,
    ctx: CtxV,
    include_deleted: bool,
    env: Seq<BindV>,
) -> (cs: Seq<Cond>)
    requires
        window::window(t, q, ctx, include_deleted) is Ok,
        agreement::placed(env, 1, window::window(t, q, ctx, include_deleted)->Ok_0.binds),
    ensures
        ({
            let w = window::window(t, q, ctx, include_deleted)->Ok_0;
            &&& index_is_named(t, q, w.index)
            &&& w.eq_len == q.eq.len()
            &&& w.index matches Some(ix) ==> w.eq_len <= ix.fields.len()
            &&& w.next == w.binds.len() + 1
            &&& meaning::cond_texts(cs) == w.conditions
            &&& forall|row: Row| #[trigger]
                is_row_of(row, t) ==> (all_hold(cs, row, env) <==> admits(
                    t,
                    q,
                    w.index,
                    ctx,
                    include_deleted,
                    row,
                ))
        }),
{
    let w = window::window(t, q, ctx, include_deleted)->Ok_0;
    assert(forall|i: int| 0 <= i < w.binds.len() ==> #[trigger] w.binds[i] == env[i]);
    let eq = match q.index {
        Some(name) => {
            lemma_find_index(t.indexes, name);
            window::eq_prefix(t, w.index->0, q.eq)->Ok_0
        },
        None => Seq::<BindV>::empty(),
    };
    let range = window::range_terms(t, w.index, q, eq.len())->Ok_0;
    let start = eq.len() + range.1.len() + 1;
    let hide = t.soft_delete && !include_deleted;
    let seek = match w.index {
        Some(ix) => {
            lemma_prefix(t, ix.fields, q.eq);
            assert forall|i: int| 0 <= i < q.eq.len() implies #[trigger] env[i] == eq[i] by {
                assert(w.binds[i] == eq[i]);
            }
            lemma_prefix_conds(t, ix, q.eq, q.eq.len(), env);
            let head = prefix_conds(ix.fields, q.eq.len());
            if has_bound(q) {
                assert forall|i: int| 0 <= i < range.1.len() implies env[eq.len() + 1 - 1 + i]
                    == #[trigger] range.1[i] by {
                    assert(w.binds[eq.len() + i] == range.1[i]);
                }
                let tail = lemma_range(t, q, ix, eq.len(), env);
                lemma_concat(head, tail);
                head + tail
            } else {
                let tail = Seq::<Cond>::empty();
                lemma_concat(head, tail);
                assert(meaning::cond_texts(tail) =~= range.0);
                head + tail
            }
        },
        None => {
            Seq::<Cond>::empty()
        },
    };
    let seek_texts = (match w.index {
        Some(ix) => window::prefix_conditions(ix.fields, eq.len()),
        None => Seq::empty(),
    }) + range.0;
    assert(meaning::cond_texts(seek) =~= seek_texts);
    assert forall|row: Row| #[trigger] is_row_of(row, t) implies (all_hold(seek, row, env) <==> (
    w.index matches Some(ix) ==> in_range(t, q, ix, row))) by {
        assert(meaning::mirrors(row, t));
    }
    let client = match window::effective_filter(t, q, ctx) {
        Some(f) => filter::client_filter_sql(f, t, start, None)->Ok_0.1,
        None => Seq::<BindV>::empty(),
    };
    let owner = window::separate_owner(t, ctx);
    let client_texts = match window::effective_filter(t, q, ctx) {
        Some(f) => seek_texts.push(filter::client_filter_sql(f, t, start, None)->Ok_0.0),
        None => seek_texts,
    };
    let all = filter::with_row_conditions(
        client_texts,
        client,
        t,
        ctx,
        owner,
        start,
        hide,
    )->Ok_0;
    assert(w.binds == eq + range.1 + all.1);
    assert forall|i: int| 0 <= i < all.1.len() implies env[start - 1 + i] == #[trigger] all.1[i] by {
        assert(w.binds[start - 1 + i] == all.1[i]);
    }
    let cs = match window::effective_filter(t, q, ctx) {
        Some(f) => {
            assert forall|i: int| 0 <= i < client.len() implies env[start + 0 - 1 + i]
                == #[trigger] client[i] by {
                assert(all.1[i] == client[i]);
            }
            let c = agreement::lemma_condition(f, t, start, 0, FilterUse::Read, env);
            lemma_texts_push(seek, c);
            seek.push(c)
        },
        None => seek,
    };
    assert(meaning::cond_texts(cs) == client_texts);
    let out = lemma_row_conditions(cs, client, t, ctx, owner, start, hide, env);
    assert(meaning::cond_texts(out) == w.conditions);
    assert forall|row: Row| #[trigger] is_row_of(row, t) implies (all_hold(out, row, env)
        <==> admits(t, q, w.index, ctx, include_deleted, row)) by {
        assert(meaning::mirrors(row, t));
        lemma_owned(t, q, ctx, row);
        lemma_one_more(seek, cs.last(), row, env);
        assert(all_hold(cs, row, env) <==> all_hold(seek, row, env) && meets_filter(
            t,
            window::effective_filter(t, q, ctx),
            row,
        ));
    }
    out
}

/// The conditions of a window, with its binds, hold of exactly the rows that the
/// query admits: whose leading fields equal the prefix, whose next field lies
/// between the bounds, which meet the filter, and which the caller may see.
pub proof fn law_window_selects_what_the_query_admits(
    t: TableV,
    q: QueryV,
    ctx: CtxV,
    include_deleted: bool,
)
    requires
        window::window(t, q, ctx, include_deleted) is Ok,
    ensures
        ({
            let w = window::window(t, q, ctx, include_deleted)->Ok_0;
            &&& index_is_named(t, q, w.index)
            &&& w.next == w.binds.len() + 1
            &&& selects(w.conditions, w.binds, t, q, w.index, ctx, include_deleted)
        }),
{
    let w = window::window(t, q, ctx, include_deleted)->Ok_0;
    let cs = lemma_window(t, q, ctx, include_deleted, w.binds);
    assert(meaning::cond_texts(cs) == w.conditions);
}

/// One value is at most another, for a field of integers or of text.
pub open spec fn at_most(t: TableV, field: Seq<char>, v: JsonV, w: JsonV) -> bool {
    if meaning::bound_as_int(t, field) {
        meaning::as_int(v) matches Some(a) && meaning::as_int(w) matches Some(b) && a <= b
    } else {
        &&& schema::is_index_field(t, field)
        &&& v matches JsonV::String(a)
        &&& w matches JsonV::String(b)
        &&& !text::chars_lt(b, a)
    }
}

proof fn lemma_order_nests(t: TableV, field: Seq<char>, row: Row, v: JsonV, w: JsonV)
    requires
        at_most(t, field, v, w),
    ensures
        order_at(t, field, row)(w) == Some(Sign::Greater) ==> order_at(t, field, row)(v) == Some(
            Sign::Greater,
        ),
        order_at(t, field, row)(w) == Some(Sign::Equal) ==> order_at(t, field, row)(v) == Some(
            Sign::Greater,
        ) || order_at(t, field, row)(v) == Some(Sign::Equal),
        order_at(t, field, row)(v) == Some(Sign::Less) ==> order_at(t, field, row)(w) == Some(
            Sign::Less,
        ),
        order_at(t, field, row)(v) == Some(Sign::Equal) ==> order_at(t, field, row)(w) == Some(
            Sign::Less,
        ) || order_at(t, field, row)(w) == Some(Sign::Equal),
{
    if !meaning::bound_as_int(t, field) {
        if let Some(JsonV::String(x)) = meaning::stored(row.doc, field) {
            let a = v->String_0;
            let b = w->String_0;
            text::lemma_chars_lt_total(a, b);
            text::lemma_chars_lt_total(x, a);
            text::lemma_chars_lt_total(x, b);
            text::lemma_chars_lt_irreflexive(x);
            if text::chars_lt(x, a) && text::chars_lt(a, b) {
                text::lemma_chars_lt_transitive(x, a, b);
            }
            if text::chars_lt(x, b) && text::chars_lt(b, x) {
                text::lemma_chars_lt_transitive(x, b, x);
            }
            if text::chars_lt(x, a) && text::chars_lt(a, x) {
                text::lemma_chars_lt_transitive(x, a, x);
            }
        }
    }
}

/// A larger lower bound admits no row that a smaller one does not, a smaller
/// upper bound none that a larger one does not, and an exclusive bound none that
/// the inclusive one at the same value does not.
pub proof fn law_tighter_bounds_admit_no_more(
    t: TableV,
    q: QueryV,
    ix: IndexV,
    ctx: CtxV,
    include_deleted: bool,
    row: Row,
    v: JsonV,
    w: JsonV,
)
    requires
        at_most(t, ix.fields[q.eq.len() as int], v, w),
    ensures
        admits(t, QueryV { gt: Some(w), ..q }, Some(ix), ctx, include_deleted, row) ==> admits(
            t,
            QueryV { gt: Some(v), ..q },
            Some(ix),
            ctx,
            include_deleted,
            row,
        ),
        admits(t, QueryV { lt: Some(v), ..q }, Some(ix), ctx, include_deleted, row) ==> admits(
            t,
            QueryV { lt: Some(w), ..q },
            Some(ix),
            ctx,
            include_deleted,
            row,
        ),
        admits(
            t,
            QueryV { gt: None, gte: Some(w), ..q },
            Some(ix),
            ctx,
            include_deleted,
            row,
        ) ==> admits(
            t,
            QueryV { gt: None, gte: Some(v), ..q },
            Some(ix),
            ctx,
            include_deleted,
            row,
        ),
        admits(
            t,
            QueryV { lt: None, lte: Some(v), ..q },
            Some(ix),
            ctx,
            include_deleted,
            row,
        ) ==> admits(
            t,
            QueryV { lt: None, lte: Some(w), ..q },
            Some(ix),
            ctx,
            include_deleted,
            row,
        ),
        admits(t, QueryV { gt: Some(v), ..q }, Some(ix), ctx, include_deleted, row) ==> admits(
            t,
            QueryV { gt: None, gte: Some(v), ..q },
            Some(ix),
            ctx,
            include_deleted,
            row,
        ),
        admits(t, QueryV { lt: Some(v), ..q }, Some(ix), ctx, include_deleted, row) ==> admits(
            t,
            QueryV { lt: None, lte: Some(v), ..q },
            Some(ix),
            ctx,
            include_deleted,
            row,
        ),
{
    lemma_order_nests(t, ix.fields[q.eq.len() as int], row, v, w);
}

/// A by-query write touches a row: it meets the filter at the time of the write,
/// is the caller's to see, and is not deleted.
pub open spec fn touches(
    t: TableV,
    ctx: CtxV,
    owner: Option<Seq<char>>,
    f: Option<FilterV>,
    now: i64,
    row: Row,
) -> bool {
    &&& f matches Some(g) ==> laws::scan_value(
        g,
        meaning::row_tests(t, row, FilterUse::Scan(now)),
    ) == Some(true)
    &&& may_see(t, owner, row.doc)
    &&& is_authorized(t, ctx, row)
    &&& !(t.soft_delete && is_deleted(row))
}

/// The conditions of a by-query write, with their binds, hold of exactly the rows
/// that it is to touch: those that meet its filter, as far as the caller could
/// read them.
pub proof fn law_scan_selects_what_the_write_touches(
    t: TableV,
    ctx: CtxV,
    owner: Option<Seq<char>>,
    f: Option<FilterV>,
    now: i64,
)
    requires
        filter::scan_where(t, ctx, owner, f, now) is Ok,
    ensures
        ({
            let (conditions, binds) = filter::scan_where(t, ctx, owner, f, now)->Ok_0;
            exists|cs: Seq<Cond>| #[trigger]
                meaning::cond_texts(cs) == conditions && forall|row: Row| #[trigger]
                    is_row_of(row, t) ==> (all_hold(cs, row, binds) <==> touches(
                        t,
                        ctx,
                        owner,
                        f,
                        now,
                        row,
                    ))
        }),
{
    let (conditions, env) = filter::scan_where(t, ctx, owner, f, now)->Ok_0;
    let none = Seq::<Cond>::empty();
    assert(meaning::cond_texts(none) =~= Seq::<Seq<char>>::empty());
    let client = match f {
        Some(g) => filter::client_filter_sql(g, t, 1, Some(now))->Ok_0.1,
        None => Seq::<BindV>::empty(),
    };
    let cs = match f {
        Some(g) => {
            assert forall|i: int| 0 <= i < client.len() implies env[1 + 0 - 1 + i]
                == #[trigger] client[i] by {}
            let c = agreement::lemma_condition(g, t, 1, 0, FilterUse::Scan(now), env);
            lemma_texts_push(none, c);
            assert(meaning::cond_texts(none.push(c)) =~= seq![meaning::cond_text(c)]);
            none.push(c)
        },
        None => none,
    };
    let out = lemma_row_conditions(cs, client, t, ctx, owner, 1, t.soft_delete, env);
    assert(meaning::cond_texts(out) == conditions);
    assert forall|row: Row| #[trigger] is_row_of(row, t) implies (all_hold(out, row, env)
        <==> touches(t, ctx, owner, f, now, row)) by {
        assert(meaning::mirrors(row, t));
        assert(all_hold(none, row, env));
        if f is Some {
            lemma_one_more(none, cs.last(), row, env);
        }
    }
}

/// A scan and a look at the document agree on whether the predicate of a table
/// lets a caller see a row, for every row whose document the predicate can be held
/// against.
pub proof fn law_predicate_agrees_with_document_test(
    t: TableV,
    f: FilterV,
    ctx: CtxV,
    row: Row,
    start: nat,
    used: nat,
)
    requires
        t.authorize == Some(f),
        ctx.user is Some,
        row_auth::authorize_sql(t, ctx, start, used) is Ok,
        agreement::comparable(
            row_auth::resolved_filter(f, ctx),
            t,
            row.doc,
            row_auth::predicate_use(f),
        ),
    ensures
        is_authorized(t, ctx, row) <==> row_auth::doc_matches(row.doc, f, ctx),
{
    let g = row_auth::resolved_filter(f, ctx);
    let usage = row_auth::predicate_use(f);
    agreement::law_compiled_filter_agrees_with_document_test(g, t, row, usage, ctx, start, used);
    laws::law_resolution_keeps_meaning(row.doc, f, ctx);
}

} // verus!
