//! How a hybrid search ranks: by text and by distance, and by both together.
#[allow(unused_imports)]
use vstd::prelude::*;

use crate::dsl::{BindV, HybridSearchV};
use crate::query::compiled;
use crate::query::meaning;
use crate::query::retrieval;
use crate::query::retrieval::Sort;
use crate::query::search;
use crate::query::search::SearchCtxV;
use crate::text;

verus! {

/// A number computed from the ranks of a row.
pub enum Score {
    /// The rank by text.
    TextRank,
    /// The rank by distance.
    VectorRank,
    /// The bound value.
    Bound(nat),
    /// The sum of two numbers.
    Sum(Box<Score>, Box<Score>),
    /// One divided by a number.
    Reciprocal(Box<Score>),
}

/// The text of a number.
pub open spec fn score_text(s: Score) -> Seq<char>
    decreases s,
{
    match s {
        Score::TextRank => "r_text"@,
        Score::VectorRank => "r_vec"@,
        Score::Bound(n) => meaning::bound_text(n),
        Score::Sum(a, b) => score_text(*a) + " + "@ + score_text(*b),
        Score::Reciprocal(a) => "1.0/("@ + score_text(*a) + ")"@,
    }
}

/// The value of a number as a fraction, of the ranks of a row and the bound
/// value.
pub open spec fn score_value(s: Score, text_rank: int, vector_rank: int, k: int) -> (int, int)
    decreases s,
{
    match s {
        Score::TextRank => (text_rank, 1),
        Score::VectorRank => (vector_rank, 1),
        Score::Bound(_) => (k, 1),
        Score::Sum(a, b) => {
            let x = score_value(*a, text_rank, vector_rank, k);
            let y = score_value(*b, text_rank, vector_rank, k);
            (x.0 * y.1 + y.0 * x.1, x.1 * y.1)
        },
        Score::Reciprocal(a) => {
            let x = score_value(*a, text_rank, vector_rank, k);
            (x.1, x.0)
        },
    }
}

/// The fused score: the reciprocals of the smoothed ranks added up.
pub open spec fn fused(n: nat) -> Score {
    Score::Sum(
        Box::new(
            Score::Reciprocal(
                Box::new(Score::Sum(Box::new(Score::Bound(n)), Box::new(Score::TextRank))),
            ),
        ),
        Box::new(
            Score::Reciprocal(
                Box::new(Score::Sum(Box::new(Score::Bound(n)), Box::new(Score::VectorRank))),
            ),
        ),
    )
}

/// One fraction is more than another.
pub open spec fn exceeds(a: (int, int), b: (int, int)) -> bool {
    a.0 * b.1 > b.0 * a.1
}

proof fn lemma_fused_value(n: nat, r: int, v: int, k: int)
    ensures
        score_value(fused(n), r, v, k) == (((k + v) + (k + r)), (k + r) * (k + v)),
{
    reveal_with_fuel(score_value, 5);
    let x = k * 1 + r * 1;
    assert(x == k + r);
    assert((k + r) * 1 == k + r);
    assert(score_value(
        Score::Sum(Box::new(Score::Bound(n)), Box::new(Score::TextRank)),
        r,
        v,
        k,
    ) == (k + r, 1int));
    assert(score_value(
        Score::Sum(Box::new(Score::Bound(n)), Box::new(Score::VectorRank)),
        r,
        v,
        k,
    ) == (k + v, 1int));
    assert(1 * (k + v) + 1 * (k + r) == (k + v) + (k + r));
}

/// The score of a hybrid search is the fused one, and a row that ranks better in
/// one way and no worse in the other has the higher score.
pub proof fn law_better_ranks_score_higher(n: nat, r: int, v: int, s: int, w: int, k: int)
    requires
        0 <= k,
        0 < r <= s,
        0 < v <= w,
        r < s || v < w,
    ensures
        search::fused_score(n) == "("@ + score_text(fused(n)) + ")"@,
        exceeds(score_value(fused(n), r, v, k), score_value(fused(n), s, w, k)),
{
    lemma_fused_value(n, r, v, k);
    lemma_fused_value(n, s, w, k);
    let x = k + r;
    let y = k + v;
    let p = k + s;
    let q = k + w;
    assert((y + x) * (p * q) > (q + p) * (x * y)) by (nonlinear_arith)
        requires
            0 < x <= p,
            0 < y <= q,
            x < p || y < q,
    {
        assert((y + x) * (p * q) - (q + p) * (x * y) == x * p * (q - y) + y * q * (p - x));
        assert(x * p > 0);
        assert(y * q > 0);
        assert(x * p * (q - y) >= 0);
        assert(y * q * (p - x) >= 0);
        if x < p {
            assert(y * q * (p - x) > 0);
        } else {
            assert(x * p * (q - y) > 0);
        }
    }
    lemma_fused_text(n);
}

proof fn lemma_fused_text(n: nat)
    ensures
        search::fused_score(n) == "("@ + score_text(fused(n)) + ")"@,
{
    reveal_with_fuel(score_text, 5);
    let b = meaning::bound_text(n);
    reveal_strlit("(1.0/(");
    reveal_strlit("1.0/(");
    reveal_strlit("(");
    reveal_strlit(" + r_text) + 1.0/(");
    reveal_strlit(" + ");
    reveal_strlit("r_text");
    reveal_strlit(")");
    reveal_strlit(" + r_vec))");
    reveal_strlit("r_vec");
    let first = "1.0/("@ + (b + " + "@ + "r_text"@) + ")"@;
    let second = "1.0/("@ + (b + " + "@ + "r_vec"@) + ")"@;
    assert(score_text(fused(n)) == first + " + "@ + second);
    assert("(1.0/("@ =~= "("@ + "1.0/("@);
    assert(" + r_text) + 1.0/("@ =~= " + "@ + "r_text"@ + ")"@ + " + "@ + "1.0/("@);
    assert(" + r_vec))"@ =~= " + "@ + "r_vec"@ + ")"@ + ")"@);
    let a = "("@ + first + " + "@ + "1.0/("@;
    assert("(1.0/("@ + b + " + r_text) + 1.0/("@ =~= a);
    assert(a + b + " + r_vec))"@ =~= "("@ + (first + " + "@ + second) + ")"@);
}

/// A hybrid search ends by taking the rows with the highest score, the newer of
/// two alike first, as many as are asked for; the smoothing is the one given, or
/// sixty.
pub proof fn law_hybrid_search_takes_the_best(c: SearchCtxV, s: HybridSearchV)
    requires
        search::hybrid_search_sql(c, s, None) is Ok,
    ensures
        ({
            let r = search::hybrid_search_sql(c, s, None)->Ok_0;
            let n = r.binds.len();
            let tail = " FROM ranked"@ + retrieval::first_of(
                retrieval::best_first("("@ + score_text(fused((n - 1) as nat)) + ")"@),
                n,
            );
            &&& n >= 2
            &&& r.sql.len() >= tail.len()
            &&& r.sql.skip(r.sql.len() - tail.len()) == tail
            &&& r.binds[n - 1] == BindV::I64(s.limit as i64)
            &&& r.binds[n - 2] == BindV::I64(
                match s.k {
                    Some(k) => k as i64,
                    None => 60,
                },
            )
        }),
{
    let r = search::hybrid_search_sql(c, s, None)->Ok_0;
    let n = r.binds.len();
    let k = (n - 1) as nat;
    let score = search::fused_score(k);
    lemma_fused_text(k);
    retrieval::lemma_best_first(score, n);
    let list = retrieval::first_of(retrieval::best_first(score), n);
    let tail = " FROM ranked"@ + list;
    lemma_end(r.sql, c, s, tail);
}

proof fn lemma_end(sql: Seq<char>, c: SearchCtxV, s: HybridSearchV, tail: Seq<char>)
    requires
        search::hybrid_search_sql(c, s, None) is Ok,
        sql == search::hybrid_search_sql(c, s, None)->Ok_0.sql,
        ({
            let n = search::hybrid_search_sql(c, s, None)->Ok_0.binds.len();
            tail == " FROM ranked"@ + (" ORDER BY "@ + search::fused_score((n - 1) as nat)
                + " DESC, \"created_at\" DESC, \"id\" DESC"@ + compiled::limit_part(n))
        }),
    ensures
        sql.len() >= tail.len(),
        sql.skip(sql.len() - tail.len()) == tail,
{
    let n = search::hybrid_search_sql(c, s, None)->Ok_0.binds.len();
    let k = (n - 1) as nat;
    let six = search::first_usable(c.table.indexes, s.search_index, false)->0;
    let vix = search::first_usable(c.table.indexes, s.vector_index, true)->0;
    let (extra, binds) = search::extra_conditions(c, None, 2)->Ok_0;
    let rankings = search::hybrid_rankings(c, six, vix, extra, 2 + binds.len());
    let lit = " SELECT \"id\", \"doc\", \"created_at\", \"version\" FROM ranked ORDER BY "@;
    let head = " SELECT \"id\", \"doc\", \"created_at\", \"version\""@;
    reveal_strlit(" SELECT \"id\", \"doc\", \"created_at\", \"version\" FROM ranked ORDER BY ");
    reveal_strlit(" SELECT \"id\", \"doc\", \"created_at\", \"version\"");
    reveal_strlit(" FROM ranked");
    reveal_strlit(" ORDER BY ");
    assert(lit =~= head + " FROM ranked"@ + " ORDER BY "@);
    let score = search::fused_score(k);
    let rest = " DESC, \"created_at\" DESC, \"id\" DESC"@;
    let limit = compiled::limit_part(n);
    assert(sql == rankings + lit + score + rest + limit);
    assert(sql =~= (rankings + head) + tail);
    assert(sql.skip((rankings + head).len() as int) =~= tail);
}

/// The nearest first, rows without a vector last, and of two alike the newer one.
pub open spec fn nearest_first() -> Seq<Seq<char>> {
    seq![
        "dist"@ + " "@ + "ASC"@ + " NULLS LAST"@,
        retrieval::sort_text(
            Sort { by: meaning::name_text("created_at"@), largest_first: true },
        ),
        retrieval::sort_text(Sort { by: meaning::name_text("id"@), largest_first: true }),
    ]
}

/// The text that numbers rows in an order, under a name.
pub open spec fn numbered(order: Seq<Seq<char>>, name: Seq<char>) -> Seq<char> {
    "ROW_NUMBER() OVER (ORDER BY "@ + text::joined(order, ", "@) + ") AS "@ + name
}

/// The text that ranks the rows that were read: by text the best first, by
/// distance the nearest first.
pub open spec fn ranking() -> Seq<char> {
    " ), ranked AS ( SELECT \"id\", \"doc\", \"created_at\", \"version\", "@ + numbered(
        retrieval::sort_texts(retrieval::best_first("trank"@)),
        score_text(Score::TextRank),
    ) + ", "@ + numbered(nearest_first(), score_text(Score::VectorRank)) + " FROM matched )"@
}

proof fn lemma_orders()
    ensures
        text::joined(retrieval::sort_texts(retrieval::best_first("trank"@)), ", "@)
            == "trank DESC, \"created_at\" DESC, \"id\" DESC"@,
        text::joined(nearest_first(), ", "@)
            == "dist ASC NULLS LAST, \"created_at\" DESC, \"id\" DESC"@,
{
    reveal_strlit("\"");
    reveal_strlit("created_at");
    reveal_strlit("id");
    reveal_strlit(" ");
    reveal_strlit("DESC");
    reveal_strlit("ASC");
    reveal_strlit(" NULLS LAST");
    reveal_strlit(", ");
    reveal_strlit("trank");
    reveal_strlit("dist");
    reveal_strlit("trank DESC, \"created_at\" DESC, \"id\" DESC");
    reveal_strlit("dist ASC NULLS LAST, \"created_at\" DESC, \"id\" DESC");
    let a = "trank"@ + " "@ + "DESC"@;
    let n = "dist"@ + " "@ + "ASC"@ + " NULLS LAST"@;
    let b = meaning::name_text("created_at"@) + " "@ + "DESC"@;
    let d = meaning::name_text("id"@) + " "@ + "DESC"@;
    let texts = retrieval::sort_texts(retrieval::best_first("trank"@));
    assert(texts =~= seq![a, b, d]);
    assert(nearest_first() =~= seq![n, b, d]);
    lemma_three(a, b, d);
    lemma_three(n, b, d);
    assert(a + ", "@ + b + ", "@ + d =~= "trank DESC, \"created_at\" DESC, \"id\" DESC"@);
    assert(n + ", "@ + b + ", "@ + d =~= "dist ASC NULLS LAST, \"created_at\" DESC, \"id\" DESC"@);
}

proof fn lemma_three(a: Seq<char>, b: Seq<char>, d: Seq<char>)
    ensures
        text::joined(seq![a, b, d], ", "@) == a + ", "@ + b + ", "@ + d,
{
    assert(seq![a, b, d].drop_last() =~= seq![a, b]);
    assert(seq![a, b].drop_last() =~= seq![a]);
    assert(text::joined(seq![a], ", "@) == a);
    assert(text::joined(seq![a, b], ", "@) == a + ", "@ + b);
}

/// The text that ranks the rows, as one.
pub proof fn lemma_ranking()
    ensures
        ranking()
            == " ), ranked AS ( SELECT \"id\", \"doc\", \"created_at\", \"version\", ROW_NUMBER() OVER (ORDER BY trank DESC, \"created_at\" DESC, \"id\" DESC) AS r_text, ROW_NUMBER() OVER (ORDER BY dist ASC NULLS LAST, \"created_at\" DESC, \"id\" DESC) AS r_vec FROM matched )"@,
{
    lemma_orders();
    let best = "trank DESC, \"created_at\" DESC, \"id\" DESC"@;
    let near = "dist ASC NULLS LAST, \"created_at\" DESC, \"id\" DESC"@;
    reveal_strlit("trank DESC, \"created_at\" DESC, \"id\" DESC");
    reveal_strlit("dist ASC NULLS LAST, \"created_at\" DESC, \"id\" DESC");
    reveal_strlit("ROW_NUMBER() OVER (ORDER BY ");
    reveal_strlit(") AS ");
    reveal_strlit("r_text");
    reveal_strlit("r_vec");
    reveal_strlit(", ");
    reveal_strlit(" FROM matched )");
    reveal_strlit(" ), ranked AS ( SELECT \"id\", \"doc\", \"created_at\", \"version\", ");
    reveal_strlit(
        " ), ranked AS ( SELECT \"id\", \"doc\", \"created_at\", \"version\", ROW_NUMBER() OVER (ORDER BY trank DESC, \"created_at\" DESC, \"id\" DESC) AS r_text, ROW_NUMBER() OVER (ORDER BY dist ASC NULLS LAST, \"created_at\" DESC, \"id\" DESC) AS r_vec FROM matched )",
    );
    let whole =
        " ), ranked AS ( SELECT \"id\", \"doc\", \"created_at\", \"version\", ROW_NUMBER() OVER (ORDER BY trank DESC, \"created_at\" DESC, \"id\" DESC) AS r_text, ROW_NUMBER() OVER (ORDER BY dist ASC NULLS LAST, \"created_at\" DESC, \"id\" DESC) AS r_vec FROM matched )"@;
    assert(ranking() =~= whole);
}

} // verus!
