//! Where a page goes on: the text that resumes a read selects the rows that sort
//! behind the cursor.
#[allow(unused_imports)]
use vstd::prelude::*;

use crate::dsl::BindV;
use crate::json::JsonV;
use crate::number::Sign;
use crate::query::agreement;
use crate::query::filter;
use crate::query::keyset;
use crate::query::keyset::{SortColV, SortKeyV};
use crate::query::meaning;
use crate::query::meaning::Op;
use crate::text;

verus! {

/// A comparison of a sorted column with a bound value, which may be cast.
pub struct Step {
    pub column: Seq<char>,
    pub op: Op,
    pub n: nat,
    pub cast: bool,
}

/// The text of a comparison.
pub open spec fn step_text(s: Step) -> Seq<char> {
    s.column + " "@ + meaning::op_text(s.op) + " "@ + if s.cast {
        meaning::bound_text(s.n) + "::bigint"@
    } else {
        meaning::bound_text(s.n)
    }
}

/// The texts of comparisons.
pub open spec fn step_texts(steps: Seq<Step>) -> Seq<Seq<char>> {
    Seq::new(steps.len(), |i: int| step_text(steps[i]))
}

/// The texts of lists of comparisons, each of which must all hold.
pub open spec fn path_texts(paths: Seq<Seq<Step>>) -> Seq<Seq<char>> {
    Seq::new(paths.len(), |i: int| text::joined(step_texts(paths[i]), " AND "@))
}

/// The text of a choice between lists of comparisons.
pub open spec fn choice_text(paths: Seq<Seq<Step>>) -> Seq<char> {
    "("@ + text::joined(path_texts(paths), " OR "@) + ")"@
}

/// A comparison holds of a row, whose columns compare with values like this.
pub open spec fn step_holds(
    s: Step,
    order: spec_fn((Seq<char>, BindV)) -> Option<Sign>,
    env: Seq<BindV>,
) -> bool {
    order((s.column, meaning::bound(env, s.n))) matches Some(x) && meaning::op_holds(s.op, x)
}

/// All comparisons of a list hold.
pub open spec fn path_holds(
    path: Seq<Step>,
    order: spec_fn((Seq<char>, BindV)) -> Option<Sign>,
    env: Seq<BindV>,
) -> bool {
    forall|j: int| 0 <= j < path.len() ==> step_holds(#[trigger] path[j], order, env)
}

/// Some list of comparisons holds.
pub open spec fn choice_holds(
    paths: Seq<Seq<Step>>,
    order: spec_fn((Seq<char>, BindV)) -> Option<Sign>,
    env: Seq<BindV>,
) -> bool {
    exists|i: int| 0 <= i < paths.len() && path_holds(#[trigger] paths[i], order, env)
}

/// The value of a cursor, as it is compared with a sorted column.
pub open spec fn cursor_cell(kind: SortColV, v: JsonV) -> BindV {
    match (kind, v) {
        (SortColV::IndexField(t), _) => filter::eq_bind(t, v)->Ok_0,
        (SortColV::Id, JsonV::String(s)) => BindV::Text(s),
        (_, JsonV::Number(n)) => BindV::Num(n),
        _ => BindV::Bool(false),
    }
}

/// A row comes behind a cursor in a sort order, as told by the columns from one
/// on: at the first column where they differ it holds more, or less where the
/// largest comes first.
pub open spec fn comes_behind(
    keys: Seq<SortKeyV>,
    values: Seq<JsonV>,
    order: spec_fn((Seq<char>, BindV)) -> Option<Sign>,
    from: int,
) -> bool
    decreases keys.len() - from,
{
    if from < 0 || from >= keys.len() {
        false
    } else {
        match order((keys[from].column, cursor_cell(keys[from].kind, values[from]))) {
            Some(Sign::Equal) => comes_behind(keys, values, order, from + 1),
            Some(Sign::Greater) => !keys[from].descending,
            Some(Sign::Less) => keys[from].descending,
            None => false,
        }
    }
}

/// A text says of a row that it comes behind the cursor.
pub open spec fn means_behind(
    sql: Seq<char>,
    env: Seq<BindV>,
    keys: Seq<SortKeyV>,
    values: Seq<JsonV>,
) -> bool {
    exists|paths: Seq<Seq<Step>>| #[trigger]
        choice_text(paths) == sql && forall|order: spec_fn((Seq<char>, BindV)) -> Option<Sign>|
            #[trigger]
            choice_holds(paths, order, env) <==> comes_behind(keys, values, order, 0)
}

/// The comparisons of the branch that breaks the tie at column `i`.
spec fn path_of(keys: Seq<SortKeyV>, i: int, n: nat, pos: nat) -> Seq<Step> {
    Seq::new(
        n,
        |j: int|
            Step {
                column: keys[j].column,
                op: if j < i {
                    Op::Equal
                } else if keys[j].descending {
                    Op::Below
                } else {
                    Op::Above
                },
                n: (pos + j) as nat,
                cast: keys[j].kind is CreatedAt,
            },
    )
}

proof fn lemma_path(values: Seq<JsonV>, keys: Seq<SortKeyV>, i: int, n: nat, pos: nat)
    requires
        keyset::branch_terms(values, keys, i, n, pos) is Ok,
    ensures
        ({
            let (texts, binds) = keyset::branch_terms(values, keys, i, n, pos)->Ok_0;
            &&& texts == step_texts(path_of(keys, i, n, pos))
            &&& binds.len() == n
            &&& forall|j: int|
                0 <= j < n ==> #[trigger] binds[j] == cursor_cell(keys[j].kind, values[j])
        }),
    decreases n,
{
    let (texts, binds) = keyset::branch_terms(values, keys, i, n, pos)->Ok_0;
    if n == 0 {
        assert(texts =~= step_texts(path_of(keys, i, n, pos)));
    } else {
        let m = (n - 1) as nat;
        let j = n - 1;
        lemma_path(values, keys, i, m, pos);
        let path = path_of(keys, i, n, pos);
        reveal_strlit("=");
        reveal_strlit("<");
        reveal_strlit(">");
        let op = keyset::op_text(keyset::term_op(i, j), keys[j].descending);
        assert(meaning::op_text(path[j].op) =~= op);
        assert(texts.last() == step_text(path[j]));
        assert(texts =~= step_texts(path_of(keys, i, m, pos)).push(step_text(path[j])));
        assert(texts =~= step_texts(path));
    }
}

/// The branches of the resume predicate.
spec fn paths_of(values: Seq<JsonV>, keys: Seq<SortKeyV>, n: nat, pos: nat) -> Seq<Seq<Step>>
    decreases n,
{
    if n == 0 {
        Seq::empty()
    } else {
        let m = (n - 1) as nat;
        let taken = keyset::branches(values, keys, m, pos)->Ok_0.1.len();
        paths_of(values, keys, m, pos).push(path_of(keys, n - 1, n, pos + taken))
    }
}

/// The row is as the cursor up to a column and behind it there.
spec fn breaks_at(
    keys: Seq<SortKeyV>,
    values: Seq<JsonV>,
    order: spec_fn((Seq<char>, BindV)) -> Option<Sign>,
    i: int,
) -> bool {
    &&& forall|j: int|
        0 <= j < i ==> order(
            ((#[trigger] keys[j]).column, cursor_cell(keys[j].kind, values[j])),
        ) == Some(Sign::Equal)
    &&& order((keys[i].column, cursor_cell(keys[i].kind, values[i]))) == Some(
        if keys[i].descending {
            Sign::Less
        } else {
            Sign::Greater
        },
    )
}

proof fn lemma_paths(values: Seq<JsonV>, keys: Seq<SortKeyV>, n: nat, pos: nat, env: Seq<BindV>)
    requires
        n <= keys.len(),
        keyset::branches(values, keys, n, pos) is Ok,
        agreement::placed(env, pos, keyset::branches(values, keys, n, pos)->Ok_0.1),
    ensures
        path_texts(paths_of(values, keys, n, pos)) == keyset::branches(
            values,
            keys,
            n,
            pos,
        )->Ok_0.0,
        paths_of(values, keys, n, pos).len() == n,
        forall|order: spec_fn((Seq<char>, BindV)) -> Option<Sign>, i: int|
            0 <= i < n ==> (path_holds(#[trigger] paths_of(values, keys, n, pos)[i], order, env)
                <==> #[trigger] breaks_at(keys, values, order, i)),
    decreases n,
{
    let (parts, binds) = keyset::branches(values, keys, n, pos)->Ok_0;
    let all = paths_of(values, keys, n, pos);
    if n == 0 {
        assert(path_texts(all) =~= parts);
    } else {
        let m = (n - 1) as nat;
        let i = n - 1;
        let (head, first) = keyset::branches(values, keys, m, pos)->Ok_0;
        let at = pos + first.len();
        let more = keyset::branch_terms(values, keys, i, n, at)->Ok_0.1;
        assert forall|k: int| 0 <= k < first.len() implies env[pos - 1 + k] == #[trigger] first[k] by {
            assert(binds[k] == first[k]);
        }
        lemma_paths(values, keys, m, pos, env);
        lemma_path(values, keys, i, n, at);
        let path = path_of(keys, i, n, at);
        assert(path_texts(all) =~= path_texts(paths_of(values, keys, m, pos)).push(
            text::joined(step_texts(path), " AND "@),
        ));
        assert forall|order: spec_fn((Seq<char>, BindV)) -> Option<Sign>, k: int|
            0 <= k < n implies (path_holds(#[trigger] all[k], order, env)
            <==> #[trigger] breaks_at(keys, values, order, k)) by {
            if k < m {
                assert(all[k] == paths_of(values, keys, m, pos)[k]);
            } else {
                assert(all[k] == path);
                assert forall|j: int| 0 <= j < n implies meaning::bound(env, path[j].n)
                    == cursor_cell(keys[j].kind, values[j]) by {
                    assert(binds[first.len() + j] == more[j]);
                    assert(env[pos - 1 + (first.len() + j)] == binds[first.len() + j]);
                }
                if path_holds(path, order, env) {
                    assert forall|j: int| 0 <= j < i implies order(
                        ((#[trigger] keys[j]).column, cursor_cell(keys[j].kind, values[j])),
                    ) == Some(Sign::Equal) by {
                        assert(step_holds(path[j], order, env));
                    }
                    assert(step_holds(path[i], order, env));
                }
                if breaks_at(keys, values, order, k) {
                    assert forall|j: int| 0 <= j < path.len() implies step_holds(
                        #[trigger] path[j],
                        order,
                        env,
                    ) by {
                        if j < i {
                            assert(order((keys[j].column, cursor_cell(keys[j].kind, values[j])))
                                == Some(Sign::Equal));
                        }
                    }
                }
            }
        }
    }
}

proof fn lemma_behind(
    keys: Seq<SortKeyV>,
    values: Seq<JsonV>,
    order: spec_fn((Seq<char>, BindV)) -> Option<Sign>,
    from: int,
)
    requires
        0 <= from <= keys.len(),
        forall|j: int|
            0 <= j < from ==> order(
                ((#[trigger] keys[j]).column, cursor_cell(keys[j].kind, values[j])),
            ) == Some(Sign::Equal),
    ensures
        comes_behind(keys, values, order, from) <==> exists|i: int|
            from <= i < keys.len() && #[trigger] breaks_at(keys, values, order, i),
    decreases keys.len() - from,
{
    if from < keys.len() {
        let o = order((keys[from].column, cursor_cell(keys[from].kind, values[from])));
        if o == Some(Sign::Equal) {
            lemma_behind(keys, values, order, from + 1);
            if exists|i: int|
                from <= i < keys.len() && #[trigger] breaks_at(keys, values, order, i) {
                let i = choose|i: int|
                    from <= i < keys.len() && #[trigger] breaks_at(keys, values, order, i);
                assert(i != from);
            }
        } else {
            if comes_behind(keys, values, order, from) {
                assert(breaks_at(keys, values, order, from));
            }
            if exists|i: int|
                from <= i < keys.len() && #[trigger] breaks_at(keys, values, order, i) {
                let i = choose|i: int|
                    from <= i < keys.len() && #[trigger] breaks_at(keys, values, order, i);
                if i > from {
                    assert(order((keys[from].column, cursor_cell(keys[from].kind, values[from])))
                        == Some(Sign::Equal));
                }
            }
        }
    }
}

/// The text that resumes a read, with its binds in their places, holds of exactly
/// the rows that come behind the cursor in the sort order.
pub proof fn law_resume_text_selects_what_comes_behind(
    values: Seq<JsonV>,
    keys: Seq<SortKeyV>,
    pos: nat,
    env: Seq<BindV>,
)
    requires
        keyset::resume_sql(values, keys, pos) is Ok,
        agreement::placed(env, pos, keyset::resume_sql(values, keys, pos)->Ok_0.1),
    ensures
        means_behind(keyset::resume_sql(values, keys, pos)->Ok_0.0, env, keys, values),
{
    let n = keys.len();
    lemma_paths(values, keys, n, pos, env);
    let paths = paths_of(values, keys, n, pos);
    let sql = keyset::resume_sql(values, keys, pos)->Ok_0.0;
    assert(choice_text(paths) == sql);
    assert forall|order: spec_fn((Seq<char>, BindV)) -> Option<Sign>| #[trigger] choice_holds(
        paths,
        order,
        env,
    ) <==> comes_behind(keys, values, order, 0) by {
        lemma_behind(keys, values, order, 0);
        if choice_holds(paths, order, env) {
            let i = choose|i: int|
                0 <= i < paths.len() && path_holds(#[trigger] paths[i], order, env);
            assert(breaks_at(keys, values, order, i));
        }
        if comes_behind(keys, values, order, 0) {
            let i = choose|i: int|
                0 <= i < keys.len() && #[trigger] breaks_at(keys, values, order, i);
            assert(path_holds(paths[i], order, env));
        }
    }
}

} // verus!
