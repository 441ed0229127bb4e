//! The numbered placeholders in the text of a statement.
#[allow(unused_imports)]
use vstd::prelude::*;
#[allow(unused_imports)]
use vstd::string::*;

use crate::query::filter;
use crate::query::laws;
use crate::schema;
use crate::schema::{IndexV, TableV};
use crate::text;

verus! {

/// A decimal digit.
pub open spec fn is_digit(c: char) -> bool {
    '0' <= c && c <= '9'
}

/// Where the digits that start at `i` end.
pub open spec fn digits_end(s: Seq<char>, i: int) -> int
    decreases s.len() - i,
{
    if 0 <= i < s.len() && is_digit(s[i]) {
        digits_end(s, i + 1)
    } else {
        i
    }
}

/// The placeholder with number `n` starts at `i`: a dollar sign and as many
/// digits as follow it.
pub open spec fn mark_at(s: Seq<char>, i: int, n: nat) -> bool {
    &&& 0 <= i < s.len()
    &&& s[i] == '$'
    &&& digits_end(s, i + 1) > i + 1
    &&& text::digits_value(s.subrange(i + 1, digits_end(s, i + 1))) == Some(n)
}

/// The numbers of the placeholders in a text.
pub open spec fn numbers(s: Seq<char>) -> Set<nat> {
    Set::new(|n: nat| exists|i: int| #[trigger] mark_at(s, i, n))
}

/// The numbers from `lo` up to, but not including, `hi`.
pub open spec fn span(lo: nat, hi: nat) -> Set<nat> {
    Set::new(|n: nat| lo <= n < hi)
}

/// The numbers of the placeholders in several texts.
pub open spec fn numbers_all(parts: Seq<Seq<char>>) -> Set<nat>
    decreases parts.len(),
{
    if parts.len() == 0 {
        Set::empty()
    } else {
        numbers_all(parts.drop_last()).union(numbers(parts.last()))
    }
}

/// A text that does not go on with a number where another ends with one.
pub open spec fn solid(s: Seq<char>) -> bool {
    s.len() == 0 || !is_digit(s[0])
}

/// Several texts, each of which does not go on with a number.
pub open spec fn all_solid(parts: Seq<Seq<char>>) -> bool {
    forall|i: int| 0 <= i < parts.len() ==> solid(#[trigger] parts[i])
}

/// A text without placeholders, which does not go on with a number.
pub open spec fn inert(s: Seq<char>) -> bool {
    solid(s) && numbers(s) == Set::<nat>::empty()
}

proof fn lemma_digits_end(s: Seq<char>, i: int)
    requires
        0 <= i <= s.len(),
    ensures
        i <= digits_end(s, i) <= s.len(),
    decreases s.len() - i,
{
    if i < s.len() && is_digit(s[i]) {
        lemma_digits_end(s, i + 1);
    }
}

proof fn lemma_end_left(a: Seq<char>, b: Seq<char>, i: int)
    requires
        solid(b),
        0 <= i <= a.len(),
    ensures
        digits_end(a + b, i) == digits_end(a, i),
    decreases a.len() - i,
{
    if i < a.len() {
        assert((a + b)[i] == a[i]);
        if is_digit(a[i]) {
            lemma_end_left(a, b, i + 1);
        }
    } else if b.len() > 0 {
        assert((a + b)[i] == b[0]);
    }
}

proof fn lemma_end_right(a: Seq<char>, b: Seq<char>, i: int)
    requires
        0 <= i <= b.len(),
    ensures
        digits_end(a + b, a.len() + i) == a.len() + digits_end(b, i),
    decreases b.len() - i,
{
    if i < b.len() {
        assert((a + b)[a.len() + i] == b[i]);
        if is_digit(b[i]) {
            lemma_end_right(a, b, i + 1);
        }
    }
}

/// The placeholders of two texts in a row are those of each.
pub broadcast proof fn lemma_cat(a: Seq<char>, b: Seq<char>)
    requires
        solid(b),
    ensures
        #[trigger] numbers(a + b) == numbers(a).union(numbers(b)),
{
    let s = a + b;
    assert forall|n: nat| #[trigger] numbers(s).contains(n) <==> numbers(a).union(
        numbers(b),
    ).contains(n) by {
        if numbers(s).contains(n) {
            let i = choose|i: int| #[trigger] mark_at(s, i, n);
            if i < a.len() {
                lemma_end_left(a, b, i + 1);
                lemma_digits_end(a, i + 1);
                assert(s.subrange(i + 1, digits_end(s, i + 1)) =~= a.subrange(
                    i + 1,
                    digits_end(a, i + 1),
                ));
                assert(mark_at(a, i, n));
            } else {
                let j = i - a.len();
                lemma_end_right(a, b, j + 1);
                lemma_digits_end(b, j + 1);
                assert(s.subrange(i + 1, digits_end(s, i + 1)) =~= b.subrange(
                    j + 1,
                    digits_end(b, j + 1),
                ));
                assert(mark_at(b, j, n));
            }
        }
        if numbers(a).contains(n) {
            let i = choose|i: int| #[trigger] mark_at(a, i, n);
            lemma_end_left(a, b, i + 1);
            lemma_digits_end(a, i + 1);
            assert(s.subrange(i + 1, digits_end(s, i + 1)) =~= a.subrange(
                i + 1,
                digits_end(a, i + 1),
            ));
            assert(mark_at(s, i, n));
        }
        if numbers(b).contains(n) {
            let j = choose|j: int| #[trigger] mark_at(b, j, n);
            let i = j + a.len();
            lemma_end_right(a, b, j + 1);
            lemma_digits_end(b, j + 1);
            assert(s.subrange(i + 1, digits_end(s, i + 1)) =~= b.subrange(
                j + 1,
                digits_end(b, j + 1),
            ));
            assert(mark_at(s, i, n));
        }
    }
    assert(numbers(s) =~= numbers(a).union(numbers(b)));
}

/// A text that starts with another starts as it does.
pub broadcast proof fn lemma_solid_cat(a: Seq<char>, b: Seq<char>)
    requires
        solid(a),
        solid(b),
    ensures
        #[trigger] solid(a + b),
{
    if a.len() == 0 {
        assert(a + b =~= b);
    }
}

/// What adds no placeholders, added to a set, leaves it as it is.
pub broadcast proof fn lemma_nothing_added(x: Set<nat>)
    ensures
        #[trigger] x.union(Set::<nat>::empty()) == x,
        #[trigger] Set::<nat>::empty().union(x) == x,
{
    assert(x.union(Set::<nat>::empty()) =~= x);
    assert(Set::<nat>::empty().union(x) =~= x);
}

pub broadcast group group_numbering {
    lemma_cat,
    lemma_solid_cat,
    lemma_nothing_added,
}

/// A text without a dollar sign is without placeholders.
pub proof fn lemma_inert(s: Seq<char>)
    requires
        laws::free_of(s, '$'),
        solid(s),
    ensures
        inert(s),
{
    assert(numbers(s) =~= Set::<nat>::empty()) by {
        assert forall|n: nat| !numbers(s).contains(n) by {
            if numbers(s).contains(n) {
                let i = choose|i: int| #[trigger] mark_at(s, i, n);
                assert(s[i] == '$');
            }
        }
    }
}

proof fn lemma_all_digits(s: Seq<char>, i: int)
    requires
        0 <= i <= s.len(),
        forall|k: int| i <= k < s.len() ==> is_digit(#[trigger] s[k]),
    ensures
        digits_end(s, i) == s.len(),
    decreases s.len() - i,
{
    if i < s.len() {
        assert(is_digit(s[i]));
        lemma_all_digits(s, i + 1);
    }
}

/// The decimal form of a number is digits that have its value.
pub proof fn lemma_dec(n: nat)
    ensures
        text::dec(n).len() > 0,
        forall|k: int| 0 <= k < text::dec(n).len() ==> is_digit(#[trigger] text::dec(n)[k]),
        text::digits_value(text::dec(n)) == Some(n),
    decreases n,
{
    let d = text::dec(n);
    if n < 10 {
        assert(d.drop_last() =~= Seq::<char>::empty());
        assert(text::digits_value(d.drop_last()) == Some(0nat));
        assert(text::digit_value(d.last()) == Some(n));
    } else {
        lemma_dec(n / 10);
        assert(d.drop_last() =~= text::dec(n / 10));
        assert(text::digit_value(d.last()) == Some(n % 10));
    }
}

/// A placeholder is the one placeholder in its text.
pub proof fn lemma_placeholder(n: nat)
    ensures
        numbers(filter::placeholder(n)) == set![n],
        solid(filter::placeholder(n)),
{
    let s = filter::placeholder(n);
    let d = text::dec(n);
    reveal_strlit("$");
    lemma_dec(n);
    assert(s[0] == '$');
    assert forall|k: int| 1 <= k < s.len() implies is_digit(#[trigger] s[k]) by {
        assert(s[k] == d[k - 1]);
    }
    lemma_all_digits(s, 1);
    assert(s.subrange(1, s.len() as int) =~= d);
    assert(mark_at(s, 0, n));
    assert forall|m: nat| #[trigger] numbers(s).contains(m) <==> set![n].contains(m) by {
        if numbers(s).contains(m) {
            let i = choose|i: int| #[trigger] mark_at(s, i, m);
            if i > 0 {
                assert(is_digit(s[i]));
            }
        }
    }
    assert(numbers(s) =~= set![n]);
}

/// The placeholders of joined texts are those of the texts.
pub proof fn lemma_joined(parts: Seq<Seq<char>>, sep: Seq<char>)
    requires
        all_solid(parts),
        inert(sep),
    ensures
        numbers(text::joined(parts, sep)) == numbers_all(parts),
        solid(text::joined(parts, sep)),
    decreases parts.len(),
{
    broadcast use group_numbering;

    if parts.len() == 0 {
        lemma_inert(Seq::<char>::empty());
    } else if parts.len() == 1 {
        assert(parts.drop_last() =~= Seq::<Seq<char>>::empty());
        assert(numbers_all(parts.drop_last()) == Set::<nat>::empty());
        assert(solid(parts[0]));
    } else {
        let head = parts.drop_last();
        assert(all_solid(head)) by {
            assert forall|i: int| 0 <= i < head.len() implies solid(#[trigger] head[i]) by {
                assert(head[i] == parts[i]);
            }
        }
        lemma_joined(head, sep);
        assert(solid(parts[parts.len() - 1]));
    }
}

/// One more text adds its placeholders.
pub proof fn lemma_push(parts: Seq<Seq<char>>, s: Seq<char>)
    requires
        all_solid(parts),
        solid(s),
    ensures
        all_solid(parts.push(s)),
        numbers_all(parts.push(s)) == numbers_all(parts).union(numbers(s)),
{
    assert(parts.push(s).drop_last() =~= parts);
}

/// More texts add their placeholders.
pub proof fn lemma_append(a: Seq<Seq<char>>, b: Seq<Seq<char>>)
    requires
        all_solid(a),
        all_solid(b),
    ensures
        all_solid(a + b),
        numbers_all(a + b) == numbers_all(a).union(numbers_all(b)),
    decreases b.len(),
{
    broadcast use group_numbering;

    if b.len() == 0 {
        assert(a + b =~= a);
    } else {
        assert(all_solid(b.drop_last())) by {
            assert forall|i: int| 0 <= i < b.drop_last().len() implies solid(
                #[trigger] b.drop_last()[i],
            ) by {
                assert(b.drop_last()[i] == b[i]);
            }
        }
        lemma_append(a, b.drop_last());
        assert((a + b).drop_last() =~= a + b.drop_last());
        assert((a + b).last() == b.last());
        assert(numbers_all(a + b) =~= numbers_all(a).union(numbers_all(b)));
        assert forall|i: int| 0 <= i < (a + b).len() implies solid(#[trigger] (a + b)[i]) by {
            if i < a.len() {
                assert((a + b)[i] == a[i]);
            } else {
                assert((a + b)[i] == b[i - a.len()]);
            }
        }
    }
}

/// Several texts without placeholders.
pub proof fn lemma_all_inert(parts: Seq<Seq<char>>)
    requires
        forall|i: int| 0 <= i < parts.len() ==> inert(#[trigger] parts[i]),
    ensures
        all_solid(parts),
        numbers_all(parts) == Set::<nat>::empty(),
    decreases parts.len(),
{
    broadcast use group_numbering;

    if parts.len() > 0 {
        let head = parts.drop_last();
        assert forall|i: int| 0 <= i < head.len() implies inert(#[trigger] head[i]) by {
            assert(head[i] == parts[i]);
        }
        lemma_all_inert(head);
        assert(inert(parts[parts.len() - 1]));
    }
}

/// Several texts that hold the same placeholders each.
pub proof fn lemma_all_alike(parts: Seq<Seq<char>>, x: Set<nat>)
    requires
        parts.len() > 0,
        forall|i: int| 0 <= i < parts.len() ==> solid(#[trigger] parts[i]) && numbers(parts[i]) == x,
    ensures
        all_solid(parts),
        numbers_all(parts) == x,
    decreases parts.len(),
{
    broadcast use group_numbering;

    let head = parts.drop_last();
    let last = parts[parts.len() - 1];
    if head.len() > 0 {
        assert forall|i: int| 0 <= i < head.len() implies solid(#[trigger] head[i]) && numbers(
            head[i],
        ) == x by {
            assert(head[i] == parts[i]);
        }
        lemma_all_alike(head, x);
        assert(x.union(x) =~= x);
    } else {
        assert(numbers_all(head) == Set::<nat>::empty());
    }
}

/// Consecutive placeholders hold consecutive numbers.
pub proof fn lemma_placeholders(from: nat, count: nat)
    ensures
        all_solid(filter::placeholders(from, count)),
        numbers_all(filter::placeholders(from, count)) == span(from, from + count),
    decreases count,
{
    let parts = filter::placeholders(from, count);
    if count == 0 {
        assert(numbers_all(parts) =~= span(from, from));
    } else {
        let m = (count - 1) as nat;
        lemma_placeholders(from, m);
        assert(parts.drop_last() =~= filter::placeholders(from, m));
        lemma_placeholder(from + m);
        assert(parts.last() == filter::placeholder(from + m));
        assert(span(from, from + m).union(set![from + m]) =~= span(from, from + count));
        assert forall|i: int| 0 <= i < parts.len() implies solid(#[trigger] parts[i]) by {
            lemma_placeholder((from + i) as nat);
        }
    }
}

/// A name that can stand in a statement as it is.
pub open spec fn name_ok(s: Seq<char>) -> bool {
    text::identifier(s, s.len() as int)
}

/// An optional name that can stand in a statement as it is.
pub open spec fn opt_name_ok(s: Option<Seq<char>>) -> bool {
    s matches Some(n) ==> name_ok(n)
}

/// The names of an index are identifiers.
pub open spec fn index_names_ok(ix: IndexV) -> bool {
    &&& name_ok(ix.name)
    &&& opt_name_ok(ix.language)
    &&& forall|i: int| 0 <= i < ix.fields.len() ==> name_ok(#[trigger] ix.fields[i])
}

/// The names of a table's fields and indexes are identifiers.
pub open spec fn names_ok(t: TableV) -> bool {
    &&& forall|k: Seq<char>| #[trigger] t.fields.contains_key(k) ==> name_ok(k)
    &&& forall|i: int| 0 <= i < t.indexes.len() ==> index_names_ok(#[trigger] t.indexes[i])
    &&& opt_name_ok(t.owner_field)
    &&& opt_name_ok(t.collaborators_field)
}

/// An identifier is without placeholders.
pub proof fn lemma_name(s: Seq<char>)
    requires
        name_ok(s),
    ensures
        inert(s),
        laws::free_of(s, '$'),
        laws::free_of(text::lowered(s), '$'),
{
    assert(laws::free_of(s, '$')) by {
        assert forall|i: int| 0 <= i < s.len() implies #[trigger] s[i] != '$' by {
            assert(text::ident_part(s[i]));
        }
    }
    assert(laws::free_of(text::lowered(s), '$')) by {
        assert forall|i: int| 0 <= i < text::lowered(s).len() implies #[trigger] text::lowered(
            s,
        )[i] != '$' by {
            assert(s[i] != '$');
        }
    }
    lemma_inert(s);
}

/// A quoted physical name of an identifier is without placeholders.
pub proof fn lemma_physical(prefix: Seq<char>, s: Seq<char>)
    requires
        laws::free_of(s, '$'),
        laws::free_of(prefix, '$'),
    ensures
        inert(filter::quoted(prefix + text::lowered(s))),
{
    reveal_strlit("\"");
    let q = filter::quoted(prefix + text::lowered(s));
    assert(laws::free_of(q, '$')) by {
        assert forall|i: int| 0 <= i < q.len() implies #[trigger] q[i] != '$' by {
            let k = i - 1 - prefix.len();
            if 0 <= k < s.len() {
                assert(s[k] != '$');
            }
        }
    }
    assert(q[0] == '"');
    lemma_inert(q);
}

/// The column of a field is without placeholders.
pub proof fn lemma_column(field: Seq<char>)
    requires
        name_ok(field),
    ensures
        inert(filter::quoted(schema::column(field))),
{
    reveal_strlit("f_");
    lemma_name(field);
    lemma_physical("f_"@, field);
}

} // verus!
