//! Keyset pagination: the predicate that resumes a sorted read behind the row
//! that a cursor stands for.
#[allow(unused_imports)]
use vstd::prelude::*;
#[allow(unused_imports)]
use vstd::string::*;

use crate::dsl;
use crate::dsl::{BindV, EqBind};
use crate::error;
use crate::error::{ErrorV, RtDbError};
use crate::json;
use crate::json::{Json, JsonV};
use crate::query::filter;
use crate::query::filter::{eq_bind_for, placeholder_text};
use crate::schema::{FieldType, TypeV};
use crate::text;
use crate::text::{cat2, cat3, cat5, join};

verus! {

/// What a sort column holds, which types the cursor value for it.
#[derive(Debug)]
pub enum SortCol<'a> {
    /// An indexed field of a declared type.
    IndexField(&'a FieldType),
    /// The creation time, a whole number.
    CreatedAt,
    /// The document id, a text.
    Id,
    /// A ranking key, a number.
    Rank,
}

/// One column of a sort order.
#[derive(Debug)]
pub struct SortKey<'a> {
    pub column: String,
    pub kind: SortCol<'a>,
    pub descending: bool,
}

/// The mathematical form of what a sort column holds.
pub enum SortColV {
    IndexField(TypeV),
    CreatedAt,
    Id,
    Rank,
}

/// The mathematical form of a sort column.
pub struct SortKeyV {
    pub column: Seq<char>,
    pub kind: SortColV,
    pub descending: bool,
}

impl<'a> View for SortCol<'a> {
    type V = SortColV;

    open spec fn view(&self) -> SortColV {
        match self {
            SortCol::IndexField(t) => SortColV::IndexField(t@),
            SortCol::CreatedAt => SortColV::CreatedAt,
            SortCol::Id => SortColV::Id,
            SortCol::Rank => SortColV::Rank,
        }
    }
}

impl<'a> View for SortKey<'a> {
    type V = SortKeyV;

    open spec fn view(&self) -> SortKeyV {
        SortKeyV { column: self.column@, kind: self.kind@, descending: self.descending }
    }
}

/// The views of a sequence of sort columns.
pub open spec fn key_views(v: Seq<SortKey>) -> Seq<SortKeyV> {
    Seq::new(v.len(), |i: int| v[i]@)
}

/// The placeholder, with its cast, and the bind of one cursor value.
pub open spec fn cursor_term(kind: SortColV, v: JsonV, pos: nat) -> Result<
    (Seq<char>, BindV),
    ErrorV,
> {
    match kind {
        SortColV::IndexField(t) => match filter::eq_bind(t, v) {
            Ok(b) => Ok((filter::placeholder(pos), b)),
            Err(e) => Err(e),
        },
        SortColV::CreatedAt => match v {
            JsonV::Number(n) => Ok((filter::placeholder(pos) + "::bigint"@, BindV::Num(n))),
            _ => Err(error::bad("cursor value for created_at must be a number"@)),
        },
        SortColV::Id => match v {
            JsonV::String(s) => Ok((filter::placeholder(pos), BindV::Text(s))),
            _ => Err(error::bad("cursor value for id must be a string"@)),
        },
        SortColV::Rank => match v {
            JsonV::Number(n) => Ok((filter::placeholder(pos), BindV::Num(n))),
            _ => Err(error::bad("cursor value for the ranking key must be a number"@)),
        },
    }
}

impl<'a> SortCol<'a> {
    /// The placeholder, with its cast, and the bind of one cursor value.
    pub fn cursor_bind(&self, value: &Json, pos: u128) -> (r: Result<(String, EqBind), RtDbError>)
        ensures
            match cursor_term(self@, value@, pos as nat) {
                Ok(p) => r matches Ok(x) && x.0@ == p.0 && x.1@ == p.1,
                Err(e) => r matches Err(x) && x@ == e,
            },
    {
        match self {
            SortCol::IndexField(ft) => match eq_bind_for(ft, value) {
                Ok(b) => Ok((placeholder_text(pos), b)),
                Err(e) => Err(e),
            },
            SortCol::CreatedAt => match value {
                Json::Number(n) => Ok(
                    (cat2(placeholder_text(pos).as_str(), "::bigint"), EqBind::Num(n.copy())),
                ),
                _ => Err(
                    RtDbError::bad_request(
                        "cursor value for created_at must be a number".to_owned(),
                    ),
                ),
            },
            SortCol::Id => match value {
                Json::String(s) => Ok((placeholder_text(pos), EqBind::Text(s.clone()))),
                _ => Err(
                    RtDbError::bad_request("cursor value for id must be a string".to_owned()),
                ),
            },
            SortCol::Rank => match value {
                Json::Number(n) => Ok((placeholder_text(pos), EqBind::Num(n.copy()))),
                _ => Err(
                    RtDbError::bad_request(
                        "cursor value for the ranking key must be a number".to_owned(),
                    ),
                ),
            },
        }
    }
}

/// The operator that means "behind" in a sort direction.
pub open spec fn behind(descending: bool) -> Seq<char> {
    if descending {
        "<"@
    } else {
        ">"@
    }
}

/// How a term of the predicate compares a column with the cursor.
pub enum TermOp {
    Same,
    Behind,
}

/// How the branch that breaks the tie at column `i` compares column `j`: the
/// columns before `i` are equal to the cursor, column `i` is behind it.
pub open spec fn term_op(i: int, j: int) -> TermOp {
    if j < i {
        TermOp::Same
    } else {
        TermOp::Behind
    }
}

/// The operator of a comparison.
pub open spec fn op_text(op: TermOp, descending: bool) -> Seq<char> {
    match op {
        TermOp::Same => "="@,
        TermOp::Behind => behind(descending),
    }
}

/// The first `n` conjuncts of the branch that breaks the tie at column `i`.
pub open spec fn branch_terms(
    values: Seq<JsonV>,
    keys: Seq<SortKeyV>,
    i: int,
    n: nat,
    pos: nat,
) -> Result<(Seq<Seq<char>>, Seq<BindV>), ErrorV>
    decreases n,
{
    if n == 0 {
        Ok((Seq::empty(), Seq::empty()))
    } else {
        let j = n - 1;
        match branch_terms(values, keys, i, j as nat, pos) {
            Ok((conjuncts, binds)) => match cursor_term(
                keys[j].kind,
                values[j],
                pos + binds.len(),
            ) {
                Ok((ph, b)) => {
                    let op = op_text(term_op(i, j), keys[j].descending);
                    Ok((conjuncts.push(keys[j].column + " "@ + op + " "@ + ph), binds.push(b)))
                },
                Err(e) => Err(e),
            },
            Err(e) => Err(e),
        }
    }
}

/// The first `n` branches of the resume predicate.
pub open spec fn branches(values: Seq<JsonV>, keys: Seq<SortKeyV>, n: nat, pos: nat) -> Result<
    (Seq<Seq<char>>, Seq<BindV>),
    ErrorV,
>
    decreases n,
{
    if n == 0 {
        Ok((Seq::empty(), Seq::empty()))
    } else {
        match branches(values, keys, (n - 1) as nat, pos) {
            Ok((parts, binds)) => match branch_terms(
                values,
                keys,
                n - 1,
                n,
                pos + binds.len(),
            ) {
                Ok((conjuncts, more)) => Ok(
                    (parts.push(text::joined(conjuncts, " AND "@)), binds + more),
                ),
                Err(e) => Err(e),
            },
            Err(e) => Err(e),
        }
    }
}

/// The predicate that a row sorts behind the cursor values, and its binds
/// numbered from `pos`: the row is behind at the first column where it differs.
pub open spec fn resume_sql(values: Seq<JsonV>, keys: Seq<SortKeyV>, pos: nat) -> Result<
    (Seq<char>, Seq<BindV>),
    ErrorV,
> {
    match branches(values, keys, keys.len(), pos) {
        Ok((parts, binds)) => Ok(("("@ + text::joined(parts, " OR "@) + ")"@, binds)),
        Err(e) => Err(e),
    }
}

proof fn lemma_branch_fail(values: Seq<JsonV>, keys: Seq<SortKeyV>, i: int, n: nat, m: nat, pos: nat)
    requires
        m <= n,
        branch_terms(values, keys, i, m, pos) is Err,
    ensures
        branch_terms(values, keys, i, n, pos) == branch_terms(values, keys, i, m, pos),
    decreases n,
{
    if m < n {
        lemma_branch_fail(values, keys, i, (n - 1) as nat, m, pos);
    }
}

proof fn lemma_branches_fail(values: Seq<JsonV>, keys: Seq<SortKeyV>, n: nat, m: nat, pos: nat)
    requires
        m <= n,
        branches(values, keys, m, pos) is Err,
    ensures
        branches(values, keys, n, pos) == branches(values, keys, m, pos),
    decreases n,
{
    if m < n {
        lemma_branches_fail(values, keys, (n - 1) as nat, m, pos);
    }
}

fn build_branch(values: &Vec<Json>, keys: &Vec<SortKey>, i: usize, pos: u128) -> (r: Result<
    (Vec<String>, Vec<EqBind>),
    RtDbError,
>)
    requires
        i < keys@.len(),
        keys@.len() == values@.len(),
        pos <= filter::MAX_POSITION,
    ensures
        match branch_terms(
            json::json_views(values@),
            key_views(keys@),
            i as int,
            (i + 1) as nat,
            pos as nat,
        ) {
            Ok(p) => r matches Ok(x) && text::strs(x.0@) == p.0 && dsl::bind_views(x.1@) == p.1,
            Err(e) => r matches Err(x) && x@ == e,
        },
{
    let ghost vs = json::json_views(values@);
    let ghost ks = key_views(keys@);
    let mut conjuncts: Vec<String> = Vec::new();
    let mut binds: Vec<EqBind> = Vec::new();
    let n: usize = keys.len();
    let mut j: usize = 0;
    assert(text::strs(conjuncts@) =~= Seq::<Seq<char>>::empty());
    assert(dsl::bind_views(binds@) =~= Seq::<BindV>::empty());
    while j <= i
        invariant
            j <= i + 1,
            i < n,
            n == keys@.len(),
            keys@.len() == values@.len(),
            pos <= filter::MAX_POSITION,
            vs == json::json_views(values@),
            ks == key_views(keys@),
            binds@.len() == j,
            branch_terms(vs, ks, i as int, j as nat, pos as nat) == Ok::<
                (Seq<Seq<char>>, Seq<BindV>),
                ErrorV,
            >((text::strs(conjuncts@), dsl::bind_views(binds@))),
        decreases i + 1 - j,
    {
        assert(ks[j as int] == keys@[j as int]@);
        assert(vs[j as int] == values@[j as int]@);
        assert(dsl::bind_views(binds@).len() == j);
        let op = if j < i {
            "="
        } else if keys[j].descending {
            "<"
        } else {
            ">"
        };
        match keys[j].kind.cursor_bind(&values[j], pos + binds.len() as u128) {
            Ok((ph, b)) => {
                let ghost cs = text::strs(conjuncts@);
                let ghost bs = dsl::bind_views(binds@);
                let c = cat5(keys[j].column.as_str(), " ", op, " ", ph.as_str());
                conjuncts.push(c);
                binds.push(b);
                assert(text::strs(conjuncts@) =~= cs.push(c@));
                assert(dsl::bind_views(binds@) =~= bs.push(b@));
            },
            Err(e) => {
                proof {
                    lemma_branch_fail(vs, ks, i as int, (i + 1) as nat, (j + 1) as nat, pos as nat);
                }
                return Err(e);
            },
        }
        j = j + 1;
    }
    Ok((conjuncts, binds))
}

/// The number of binds of the first `n` branches.
pub open spec fn triangle(n: nat) -> nat
    decreases n,
{
    if n == 0 {
        0
    } else {
        triangle((n - 1) as nat) + n
    }
}

proof fn lemma_branch_len(values: Seq<JsonV>, keys: Seq<SortKeyV>, i: int, n: nat, pos: nat)
    ensures
        branch_terms(values, keys, i, n, pos) matches Ok(p) ==> p.0.len() == n && p.1.len() == n,
    decreases n,
{
    if n > 0 {
        lemma_branch_len(values, keys, i, (n - 1) as nat, pos);
    }
}

/// The resume predicate over `n` columns has one branch per column and binds
/// one value for each conjunct.
pub proof fn law_resume_has_one_branch_per_column(
    values: Seq<JsonV>,
    keys: Seq<SortKeyV>,
    n: nat,
    pos: nat,
)
    ensures
        branches(values, keys, n, pos) matches Ok(p) ==> p.0.len() == n && p.1.len() == triangle(n),
    decreases n,
{
    if n > 0 {
        law_resume_has_one_branch_per_column(values, keys, (n - 1) as nat, pos);
        match branches(values, keys, (n - 1) as nat, pos) {
            Ok((_, binds)) => {
                lemma_branch_len(values, keys, n - 1, n, pos + binds.len());
            },
            Err(_) => {},
        }
    }
}

/// Builds the predicate that a row sorts behind the cursor values, its binds
/// numbered from `next_bind_idx`.
pub fn build_cursor_conditions(
    cursor_values: &Vec<Json>,
    keys: &Vec<SortKey>,
    next_bind_idx: u128,
) -> (r: Result<(String, Vec<EqBind>), RtDbError>)
    requires
        keys@.len() == cursor_values@.len(),
        next_bind_idx + triangle(keys@.len()) <= filter::MAX_POSITION,
    ensures
        match resume_sql(json::json_views(cursor_values@), key_views(keys@), next_bind_idx as nat) {
            Ok(p) => r matches Ok(x) && x.0@ == p.0 && dsl::bind_views(x.1@) == p.1,
            Err(e) => r matches Err(x) && x@ == e,
        },
{
    let ghost vs = json::json_views(cursor_values@);
    let ghost ks = key_views(keys@);
    let mut parts: Vec<String> = Vec::new();
    let mut binds: Vec<EqBind> = Vec::new();
    let mut i: usize = 0;
    assert(text::strs(parts@) =~= Seq::<Seq<char>>::empty());
    assert(dsl::bind_views(binds@) =~= Seq::<BindV>::empty());
    while i < keys.len()
        invariant
            i <= keys@.len(),
            keys@.len() == cursor_values@.len(),
            next_bind_idx + triangle(keys@.len()) <= filter::MAX_POSITION,
            vs == json::json_views(cursor_values@),
            ks == key_views(keys@),
            branches(vs, ks, i as nat, next_bind_idx as nat) == Ok::<
                (Seq<Seq<char>>, Seq<BindV>),
                ErrorV,
            >((text::strs(parts@), dsl::bind_views(binds@))),
        decreases keys@.len() - i,
    {
        assert(dsl::bind_views(binds@).len() == binds@.len());
        proof {
            law_resume_has_one_branch_per_column(vs, ks, i as nat, next_bind_idx as nat);
            lemma_triangle_grows(i as nat, keys@.len());
        }
        match build_branch(cursor_values, keys, i, next_bind_idx + binds.len() as u128) {
            Ok((conjuncts, mut more)) => {
                let ghost ps = text::strs(parts@);
                let ghost bs = dsl::bind_views(binds@);
                let ghost ms = dsl::bind_views(more@);
                let part = join(&conjuncts, " AND ");
                parts.push(part);
                binds.append(&mut more);
                assert(text::strs(parts@) =~= ps.push(part@));
                assert(dsl::bind_views(binds@) =~= bs + ms);
            },
            Err(e) => {
                proof {
                    lemma_branches_fail(
                        vs,
                        ks,
                        keys@.len(),
                        (i + 1) as nat,
                        next_bind_idx as nat,
                    );
                }
                return Err(e);
            },
        }
        i = i + 1;
    }
    Ok((cat3("(", join(&parts, " OR ").as_str(), ")"), binds))
}

/// The number of binds grows with the number of branches.
pub proof fn lemma_triangle_grows(m: nat, n: nat)
    requires
        m <= n,
    ensures
        triangle(m) <= triangle(n),
    decreases n,
{
    if m < n {
        lemma_triangle_grows(m, (n - 1) as nat);
    }
}

/// The number of binds in closed form.
pub proof fn lemma_triangle_closed(n: nat)
    ensures
        2 * triangle(n) == n * (n + 1),
    decreases n,
{
    if n > 0 {
        let m = (n - 1) as nat;
        lemma_triangle_closed(m);
        assert(m * (m + 1) + 2 * n == n * (n + 1)) by (nonlinear_arith)
            requires
                m + 1 == n,
        ;
    } else {
        assert(n * (n + 1) == 0) by (nonlinear_arith)
            requires
                n == 0,
        ;
    }
}

/// The binds of a sort order held in memory can be numbered.
pub proof fn lemma_triangle_fits(n: nat)
    requires
        n <= usize::MAX,
    ensures
        triangle(n) <= 0x8000_0000_0000_0000_0000_0000_0000_0000,
{
    lemma_triangle_closed(n);
    assert(n * (n + 1) <= 0xffff_ffff_ffff_ffff * 0x1_0000_0000_0000_0000) by (nonlinear_arith)
        requires
            0 <= n <= 0xffff_ffff_ffff_ffff,
    ;
}

} // verus!
