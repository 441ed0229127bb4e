//! References to fields in filters and value expressions: finding them, and
//! renaming them.
#[allow(unused_imports)]
use vstd::prelude::*;
#[allow(unused_imports)]
use vstd::string::*;

use crate::dsl;
use crate::dsl::{CaseWhen, FilterExpr, FilterV, ValueExpr, ValueShape, ValueV};
use crate::json;
use crate::query::warnings;
use crate::text::same;

verus! {

/// A name after a rename.
pub open spec fn renamed(name: Seq<char>, from: Seq<char>, to: Seq<char>) -> Seq<char> {
    if name == from {
        to
    } else {
        name
    }
}

/// A name after a rename.
pub fn rename(name: &String, from: &str, to: &str) -> (r: String)
    ensures
        r@ == renamed(name@, from@, to@),
{
    if same(name.as_str(), from) {
        to.to_owned()
    } else {
        name.clone()
    }
}

/// A filter after a rename of a field.
pub open spec fn renamed_filter(f: FilterV, from: Seq<char>, to: Seq<char>) -> FilterV
    decreases f,
{
    match f {
        FilterV::And(fs) => FilterV::And(renamed_filters(fs, from, to)),
        FilterV::Or(fs) => FilterV::Or(renamed_filters(fs, from, to)),
        FilterV::Not(g) => FilterV::Not(Box::new(renamed_filter(*g, from, to))),
        FilterV::Compare(rel, field, v) => FilterV::Compare(rel, renamed(field, from, to), v),
        FilterV::In(field, vs) => FilterV::In(renamed(field, from, to), vs),
        FilterV::Contains(field, v) => FilterV::Contains(renamed(field, from, to), v),
        FilterV::Exists(field) => FilterV::Exists(renamed(field, from, to)),
        FilterV::OlderThan(field, ms) => FilterV::OlderThan(renamed(field, from, to), ms),
    }
}

/// Filters after a rename of a field.
pub open spec fn renamed_filters(fs: Seq<FilterV>, from: Seq<char>, to: Seq<char>) -> Seq<FilterV>
    decreases fs,
{
    if fs.len() == 0 {
        Seq::empty()
    } else {
        renamed_filters(fs.drop_last(), from, to).push(renamed_filter(fs.last(), from, to))
    }
}

fn rename_filter_list(exprs: &Vec<FilterExpr>, from: &str, to: &str) -> (r: Vec<FilterExpr>)
    ensures
        dsl::filter_views(r@) == renamed_filters(dsl::filter_views(exprs@), from@, to@),
    decreases exprs,
{
    let ghost fs = dsl::filter_views(exprs@);
    let mut out: Vec<FilterExpr> = Vec::new();
    let mut i: usize = 0;
    assert(fs.take(0) =~= Seq::<FilterV>::empty());
    assert(dsl::filter_views(out@) =~= Seq::<FilterV>::empty());
    while i < exprs.len()
        invariant
            i <= exprs@.len(),
            fs == dsl::filter_views(exprs@),
            dsl::filter_views(out@) == renamed_filters(fs.take(i as int), from@, to@),
        decreases exprs@.len() - i,
    {
        assert(decreases_to!(*exprs => exprs[i as int]));
        assert(fs.take(i as int + 1).drop_last() =~= fs.take(i as int));
        assert(fs.take(i as int + 1).last() == exprs@[i as int]@);
        let item = rename_filter_fields(&exprs[i], from, to);
        let ghost before = dsl::filter_views(out@);
        let ghost iv = item@;
        out.push(item);
        assert(dsl::filter_views(out@) =~= before.push(iv));
        i = i + 1;
    }
    assert(fs.take(exprs@.len() as int) =~= fs);
    out
}

/// The filter with every reference to `from` made to `to`.
pub fn rename_filter_fields(expr: &FilterExpr, from: &str, to: &str) -> (r: FilterExpr)
    ensures
        r@ == renamed_filter(expr@, from@, to@),
    decreases expr,
{
    broadcast use dsl::lemma_filter_view;

    if let Some((rel, field, value)) = expr.comparison() {
        return FilterExpr::compare(rel, rename(field, from, to), value.copy());
    }
    match expr {
        FilterExpr::And { exprs } => FilterExpr::And { exprs: rename_filter_list(exprs, from, to) },
        FilterExpr::Or { exprs } => FilterExpr::Or { exprs: rename_filter_list(exprs, from, to) },
        FilterExpr::Not { expr: inner } => {
            FilterExpr::Not { expr: Box::new(rename_filter_fields(inner, from, to)) }
        },
        FilterExpr::In { field, values } => {
            FilterExpr::In { field: rename(field, from, to), values: json::copy_all(values) }
        },
        FilterExpr::Contains { field, value } => {
            FilterExpr::Contains { field: rename(field, from, to), value: value.copy() }
        },
        FilterExpr::Exists { field } => FilterExpr::Exists { field: rename(field, from, to) },
        FilterExpr::OlderThan { field, ms } => {
            FilterExpr::OlderThan { field: rename(field, from, to), ms: *ms }
        },
        _ => {
            assert(false);
            FilterExpr::Exists { field: String::new() }
        },
    }
}

fn list_references_field(exprs: &Vec<FilterExpr>, field: &str) -> (r: bool)
    ensures
        r == warnings::any_mentions(dsl::filter_views(exprs@), field@),
    decreases exprs,
{
    let ghost fs = dsl::filter_views(exprs@);
    let mut found = false;
    let mut i: usize = 0;
    assert(fs.take(0) =~= Seq::<FilterV>::empty());
    while i < exprs.len()
        invariant
            i <= exprs@.len(),
            fs == dsl::filter_views(exprs@),
            found == warnings::any_mentions(fs.take(i as int), field@),
        decreases exprs@.len() - i,
    {
        assert(decreases_to!(*exprs => exprs[i as int]));
        assert(fs.take(i as int + 1).drop_last() =~= fs.take(i as int));
        assert(fs.take(i as int + 1).last() == exprs@[i as int]@);
        if filter_expr_references_field(&exprs[i], field) {
            found = true;
        }
        i = i + 1;
    }
    assert(fs.take(exprs@.len() as int) =~= fs);
    found
}

/// Whether the filter tests the field somewhere.
pub fn filter_expr_references_field(expr: &FilterExpr, field: &str) -> (r: bool)
    ensures
        r == warnings::mentions(expr@, field@),
    decreases expr,
{
    broadcast use dsl::lemma_filter_view;

    match expr {
        FilterExpr::And { exprs } => list_references_field(exprs, field),
        FilterExpr::Or { exprs } => list_references_field(exprs, field),
        FilterExpr::Not { expr: inner } => filter_expr_references_field(inner, field),
        FilterExpr::Eq { field: f, .. } => same(f.as_str(), field),
        FilterExpr::Neq { field: f, .. } => same(f.as_str(), field),
        FilterExpr::Gt { field: f, .. } => same(f.as_str(), field),
        FilterExpr::Gte { field: f, .. } => same(f.as_str(), field),
        FilterExpr::Lt { field: f, .. } => same(f.as_str(), field),
        FilterExpr::Lte { field: f, .. } => same(f.as_str(), field),
        FilterExpr::In { field: f, .. } => same(f.as_str(), field),
        FilterExpr::Contains { field: f, .. } => same(f.as_str(), field),
        FilterExpr::Exists { field: f } => same(f.as_str(), field),
        FilterExpr::OlderThan { field: f, .. } => same(f.as_str(), field),
    }
}

/// A value expression after a rename of a field.
pub open spec fn renamed_value(e: ValueV, from: Seq<char>, to: Seq<char>) -> ValueV
    decreases e,
{
    match e {
        ValueV::Field(f) => ValueV::Field(renamed(f, from, to)),
        ValueV::Literal(v) => ValueV::Literal(v),
        ValueV::Now => ValueV::Now,
        ValueV::List(op, parts) => ValueV::List(op, renamed_values(parts, from, to)),
        ValueV::Arith(op, a, b) => ValueV::Arith(
            op,
            Box::new(renamed_value(*a, from, to)),
            Box::new(renamed_value(*b, from, to)),
        ),
        ValueV::Text(op, a) => ValueV::Text(op, Box::new(renamed_value(*a, from, to))),
        ValueV::Cast(to_type, a) => ValueV::Cast(to_type, Box::new(renamed_value(*a, from, to))),
        ValueV::Case(whens, a) => ValueV::Case(
            renamed_whens(whens, from, to),
            Box::new(renamed_value(*a, from, to)),
        ),
    }
}

/// Value expressions after a rename of a field.
pub open spec fn renamed_values(es: Seq<ValueV>, from: Seq<char>, to: Seq<char>) -> Seq<ValueV>
    decreases es,
{
    if es.len() == 0 {
        Seq::empty()
    } else {
        renamed_values(es.drop_last(), from, to).push(renamed_value(es.last(), from, to))
    }
}

/// Case branches after a rename of a field.
pub open spec fn renamed_whens(
    whens: Seq<(FilterV, ValueV)>,
    from: Seq<char>,
    to: Seq<char>,
) -> Seq<(FilterV, ValueV)>
    decreases whens,
{
    if whens.len() == 0 {
        Seq::empty()
    } else {
        renamed_whens(whens.drop_last(), from, to).push(
            (
                renamed_filter(whens.last().0, from, to),
                renamed_value(whens.last().1, from, to),
            ),
        )
    }
}

/// The expression with every reference to `from` made to `to`.
pub fn rename_value_expr_fields(expr: &ValueExpr, from: &str, to: &str) -> (r: ValueExpr)
    ensures
        r@ == renamed_value(expr@, from@, to@),
    decreases expr,
{
    broadcast use dsl::lemma_value_view;

    match expr.shape() {
        ValueShape::Field(field) => ValueExpr::Field { field: rename(field, from, to) },
        ValueShape::Literal(value) => ValueExpr::Literal { value: value.copy() },
        ValueShape::Now => ValueExpr::Now,
        ValueShape::List(op, parts) => {
            let ghost es = dsl::value_views(parts@);
            let mut out: Vec<ValueExpr> = Vec::new();
            let mut i: usize = 0;
            assert(es.take(0) =~= Seq::<ValueV>::empty());
            assert(dsl::value_views(out@) =~= Seq::<ValueV>::empty());
            while i < parts.len()
                invariant
                    i <= parts@.len(),
                    decreases_to!(*expr => *parts),
                    es == dsl::value_views(parts@),
                    dsl::value_views(out@) == renamed_values(es.take(i as int), from@, to@),
                decreases parts@.len() - i,
            {
                assert(decreases_to!(*parts => parts[i as int]));
                assert(es.take(i as int + 1).drop_last() =~= es.take(i as int));
                assert(es.take(i as int + 1).last() == parts@[i as int]@);
                let item = rename_value_expr_fields(&parts[i], from, to);
                let ghost before = dsl::value_views(out@);
                let ghost iv = item@;
                out.push(item);
                assert(dsl::value_views(out@) =~= before.push(iv));
                i = i + 1;
            }
            assert(es.take(parts@.len() as int) =~= es);
            op.of(out)
        },
        ValueShape::Arith(op, a, b) => op.of(
            rename_value_expr_fields(a, from, to),
            rename_value_expr_fields(b, from, to),
        ),
        ValueShape::Text(op, a) => op.of(rename_value_expr_fields(a, from, to)),
        ValueShape::Cast(to_type, a) => {
            ValueExpr::Cast {
                value: Box::new(rename_value_expr_fields(a, from, to)),
                to: to_type,
            }
        },
        ValueShape::Case(whens, otherwise) => {
            let ghost ws = dsl::when_views(whens@);
            let mut out: Vec<CaseWhen> = Vec::new();
            let mut i: usize = 0;
            assert(ws.take(0) =~= Seq::<(FilterV, ValueV)>::empty());
            assert(dsl::when_views(out@) =~= Seq::<(FilterV, ValueV)>::empty());
            while i < whens.len()
                invariant
                    i <= whens@.len(),
                    decreases_to!(*expr => *whens),
                    ws == dsl::when_views(whens@),
                    dsl::when_views(out@) == renamed_whens(ws.take(i as int), from@, to@),
                decreases whens@.len() - i,
            {
                assert(decreases_to!(*whens => whens[i as int]));
                assert(decreases_to!(whens[i as int] => whens[i as int].outcome));
                assert(ws.take(i as int + 1).drop_last() =~= ws.take(i as int));
                assert(ws.take(i as int + 1).last() == ws[i as int]);
                let outcome = rename_value_expr_fields(&whens[i].outcome, from, to);
                let when = rename_filter_fields(&whens[i].when, from, to);
                let ghost before = dsl::when_views(out@);
                let ghost wv = (when@, outcome@);
                out.push(CaseWhen { when, outcome });
                assert(dsl::when_views(out@) =~= before.push(wv));
                i = i + 1;
            }
            assert(ws.take(whens@.len() as int) =~= ws);
            ValueExpr::Case {
                whens: out,
                otherwise: Box::new(rename_value_expr_fields(otherwise, from, to)),
            }
        },
    }
}

/// A value expression reads the field somewhere, its case predicates included.
pub open spec fn value_mentions(e: ValueV, field: Seq<char>) -> bool
    decreases e,
{
    match e {
        ValueV::Field(f) => f == field,
        ValueV::Literal(_) => false,
        ValueV::Now => false,
        ValueV::List(_, parts) => values_mention(parts, field),
        ValueV::Arith(_, a, b) => value_mentions(*a, field) || value_mentions(*b, field),
        ValueV::Text(_, a) => value_mentions(*a, field),
        ValueV::Cast(_, a) => value_mentions(*a, field),
        ValueV::Case(whens, a) => whens_mention(whens, field) || value_mentions(*a, field),
    }
}

/// One of the expressions reads the field.
pub open spec fn values_mention(es: Seq<ValueV>, field: Seq<char>) -> bool
    decreases es,
{
    es.len() > 0 && (values_mention(es.drop_last(), field) || value_mentions(es.last(), field))
}

/// One of the case branches reads the field.
pub open spec fn whens_mention(whens: Seq<(FilterV, ValueV)>, field: Seq<char>) -> bool
    decreases whens,
{
    whens.len() > 0 && (whens_mention(whens.drop_last(), field) || warnings::mentions(
        whens.last().0,
        field,
    ) || value_mentions(whens.last().1, field))
}

/// Whether the expression reads the field somewhere.
pub fn value_expr_references_field(expr: &ValueExpr, field: &str) -> (r: bool)
    ensures
        r == value_mentions(expr@, field@),
    decreases expr,
{
    broadcast use dsl::lemma_value_view;

    match expr.shape() {
        ValueShape::Field(f) => same(f.as_str(), field),
        ValueShape::Literal(_) => false,
        ValueShape::Now => false,
        ValueShape::List(_, parts) => {
            let ghost es = dsl::value_views(parts@);
            let mut found = false;
            let mut i: usize = 0;
            assert(es.take(0) =~= Seq::<ValueV>::empty());
            while i < parts.len()
                invariant
                    i <= parts@.len(),
                    decreases_to!(*expr => *parts),
                    es == dsl::value_views(parts@),
                    found == values_mention(es.take(i as int), field@),
                decreases parts@.len() - i,
            {
                assert(decreases_to!(*parts => parts[i as int]));
                assert(es.take(i as int + 1).drop_last() =~= es.take(i as int));
                assert(es.take(i as int + 1).last() == parts@[i as int]@);
                if value_expr_references_field(&parts[i], field) {
                    found = true;
                }
                i = i + 1;
            }
            assert(es.take(parts@.len() as int) =~= es);
            found
        },
        ValueShape::Arith(_, a, b) => {
            let left = value_expr_references_field(a, field);
            let right = value_expr_references_field(b, field);
            left || right
        },
        ValueShape::Text(_, a) => value_expr_references_field(a, field),
        ValueShape::Cast(_, a) => value_expr_references_field(a, field),
        ValueShape::Case(whens, otherwise) => {
            let ghost ws = dsl::when_views(whens@);
            let mut found = false;
            let mut i: usize = 0;
            assert(ws.take(0) =~= Seq::<(FilterV, ValueV)>::empty());
            while i < whens.len()
                invariant
                    i <= whens@.len(),
                    decreases_to!(*expr => *whens),
                    ws == dsl::when_views(whens@),
                    found == whens_mention(ws.take(i as int), field@),
                decreases whens@.len() - i,
            {
                assert(decreases_to!(*whens => whens[i as int]));
                assert(decreases_to!(whens[i as int] => whens[i as int].outcome));
                assert(ws.take(i as int + 1).drop_last() =~= ws.take(i as int));
                assert(ws.take(i as int + 1).last() == ws[i as int]);
                if filter_expr_references_field(&whens[i].when, field) {
                    found = true;
                }
                if value_expr_references_field(&whens[i].outcome, field) {
                    found = true;
                }
                i = i + 1;
            }
            assert(ws.take(whens@.len() as int) =~= ws);
            let rest = value_expr_references_field(otherwise, field);
            found || rest
        },
    }
}

/// After a rename a filter tests a field exactly if it tested the name that the
/// field had; the old name is tested nowhere.
pub proof fn law_filter_rename_moves_references(
    f: FilterV,
    from: Seq<char>,
    to: Seq<char>,
    field: Seq<char>,
)
    requires
        from != to,
    ensures
        warnings::mentions(renamed_filter(f, from, to), field) == (if field == from {
            false
        } else if field == to {
            warnings::mentions(f, from) || warnings::mentions(f, to)
        } else {
            warnings::mentions(f, field)
        }),
    decreases f,
{
    match f {
        FilterV::And(fs) => {
            lemma_filters_rename_moves(fs, from, to, field);
        },
        FilterV::Or(fs) => {
            lemma_filters_rename_moves(fs, from, to, field);
        },
        FilterV::Not(g) => {
            law_filter_rename_moves_references(*g, from, to, field);
        },
        _ => {},
    }
}

proof fn lemma_filters_rename_moves(
    fs: Seq<FilterV>,
    from: Seq<char>,
    to: Seq<char>,
    field: Seq<char>,
)
    requires
        from != to,
    ensures
        warnings::any_mentions(renamed_filters(fs, from, to), field) == (if field == from {
            false
        } else if field == to {
            warnings::any_mentions(fs, from) || warnings::any_mentions(fs, to)
        } else {
            warnings::any_mentions(fs, field)
        }),
    decreases fs,
{
    if fs.len() > 0 {
        lemma_filters_rename_moves(fs.drop_last(), from, to, field);
        law_filter_rename_moves_references(fs.last(), from, to, field);
        let out = renamed_filters(fs, from, to);
        assert(out.drop_last() =~= renamed_filters(fs.drop_last(), from, to));
    }
}

/// Renaming back restores a filter that did not test the new name.
pub proof fn law_filter_rename_is_undone(f: FilterV, from: Seq<char>, to: Seq<char>)
    requires
        !warnings::mentions(f, to),
    ensures
        renamed_filter(renamed_filter(f, from, to), to, from) == f,
    decreases f,
{
    match f {
        FilterV::And(fs) => {
            lemma_filters_rename_undone(fs, from, to);
        },
        FilterV::Or(fs) => {
            lemma_filters_rename_undone(fs, from, to);
        },
        FilterV::Not(g) => {
            law_filter_rename_is_undone(*g, from, to);
        },
        _ => {},
    }
}

proof fn lemma_filters_rename_undone(fs: Seq<FilterV>, from: Seq<char>, to: Seq<char>)
    requires
        !warnings::any_mentions(fs, to),
    ensures
        renamed_filters(renamed_filters(fs, from, to), to, from) == fs,
    decreases fs,
{
    if fs.len() > 0 {
        lemma_filters_rename_undone(fs.drop_last(), from, to);
        law_filter_rename_is_undone(fs.last(), from, to);
        let out = renamed_filters(fs, from, to);
        assert(out.drop_last() =~= renamed_filters(fs.drop_last(), from, to));
        assert(fs.drop_last().push(fs.last()) =~= fs);
    } else {
        assert(fs =~= Seq::<FilterV>::empty());
    }
}

/// After a rename an expression reads a field exactly if it read the name that
/// the field had; the old name is read nowhere.
pub proof fn law_value_rename_moves_references(
    e: ValueV,
    from: Seq<char>,
    to: Seq<char>,
    field: Seq<char>,
)
    requires
        from != to,
    ensures
        value_mentions(renamed_value(e, from, to), field) == (if field == from {
            false
        } else if field == to {
            value_mentions(e, from) || value_mentions(e, to)
        } else {
            value_mentions(e, field)
        }),
    decreases e,
{
    match e {
        ValueV::List(_, parts) => {
            lemma_values_rename_moves(parts, from, to, field);
        },
        ValueV::Arith(_, a, b) => {
            law_value_rename_moves_references(*a, from, to, field);
            law_value_rename_moves_references(*b, from, to, field);
        },
        ValueV::Text(_, a) => {
            law_value_rename_moves_references(*a, from, to, field);
        },
        ValueV::Cast(_, a) => {
            law_value_rename_moves_references(*a, from, to, field);
        },
        ValueV::Case(whens, a) => {
            lemma_whens_rename_moves(whens, from, to, field);
            law_value_rename_moves_references(*a, from, to, field);
        },
        _ => {},
    }
}

proof fn lemma_values_rename_moves(
    es: Seq<ValueV>,
    from: Seq<char>,
    to: Seq<char>,
    field: Seq<char>,
)
    requires
        from != to,
    ensures
        values_mention(renamed_values(es, from, to), field) == (if field == from {
            false
        } else if field == to {
            values_mention(es, from) || values_mention(es, to)
        } else {
            values_mention(es, field)
        }),
    decreases es,
{
    if es.len() > 0 {
        lemma_values_rename_moves(es.drop_last(), from, to, field);
        law_value_rename_moves_references(es.last(), from, to, field);
        let out = renamed_values(es, from, to);
        assert(out.drop_last() =~= renamed_values(es.drop_last(), from, to));
    }
}

proof fn lemma_whens_rename_moves(
    whens: Seq<(FilterV, ValueV)>,
    from: Seq<char>,
    to: Seq<char>,
    field: Seq<char>,
)
    requires
        from != to,
    ensures
        whens_mention(renamed_whens(whens, from, to), field) == (if field == from {
            false
        } else if field == to {
            whens_mention(whens, from) || whens_mention(whens, to)
        } else {
            whens_mention(whens, field)
        }),
    decreases whens,
{
    if whens.len() > 0 {
        lemma_whens_rename_moves(whens.drop_last(), from, to, field);
        law_filter_rename_moves_references(whens.last().0, from, to, field);
        assert(decreases_to!(whens => whens[whens.len() - 1]));
        law_value_rename_moves_references(whens.last().1, from, to, field);
        let out = renamed_whens(whens, from, to);
        assert(out.drop_last() =~= renamed_whens(whens.drop_last(), from, to));
    }
}

/// Renaming back restores an expression that did not read the new name.
pub proof fn law_value_rename_is_undone(e: ValueV, from: Seq<char>, to: Seq<char>)
    requires
        !value_mentions(e, to),
    ensures
        renamed_value(renamed_value(e, from, to), to, from) == e,
    decreases e,
{
    match e {
        ValueV::List(_, parts) => {
            lemma_values_rename_undone(parts, from, to);
        },
        ValueV::Arith(_, a, b) => {
            law_value_rename_is_undone(*a, from, to);
            law_value_rename_is_undone(*b, from, to);
        },
        ValueV::Text(_, a) => {
            law_value_rename_is_undone(*a, from, to);
        },
        ValueV::Cast(_, a) => {
            law_value_rename_is_undone(*a, from, to);
        },
        ValueV::Case(whens, a) => {
            lemma_whens_rename_undone(whens, from, to);
            law_value_rename_is_undone(*a, from, to);
        },
        _ => {},
    }
}

proof fn lemma_values_rename_undone(es: Seq<ValueV>, from: Seq<char>, to: Seq<char>)
    requires
        !values_mention(es, to),
    ensures
        renamed_values(renamed_values(es, from, to), to, from) == es,
    decreases es,
{
    if es.len() > 0 {
        lemma_values_rename_undone(es.drop_last(), from, to);
        law_value_rename_is_undone(es.last(), from, to);
        let out = renamed_values(es, from, to);
        assert(out.drop_last() =~= renamed_values(es.drop_last(), from, to));
        assert(es.drop_last().push(es.last()) =~= es);
    } else {
        assert(es =~= Seq::<ValueV>::empty());
    }
}

proof fn lemma_whens_rename_undone(
    whens: Seq<(FilterV, ValueV)>,
    from: Seq<char>,
    to: Seq<char>,
)
    requires
        !whens_mention(whens, to),
    ensures
        renamed_whens(renamed_whens(whens, from, to), to, from) == whens,
    decreases whens,
{
    if whens.len() > 0 {
        lemma_whens_rename_undone(whens.drop_last(), from, to);
        law_filter_rename_is_undone(whens.last().0, from, to);
        law_value_rename_is_undone(whens.last().1, from, to);
        let out = renamed_whens(whens, from, to);
        assert(out.drop_last() =~= renamed_whens(whens.drop_last(), from, to));
        assert(whens.drop_last().push(whens.last()) =~= whens);
    } else {
        assert(whens =~= Seq::<(FilterV, ValueV)>::empty());
    }
}

} // verus!
