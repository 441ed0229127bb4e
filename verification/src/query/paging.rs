//! What reading a table page by page gives.
//!
//! A row stands for its sort values here, each by its rank among all values of
//! its column.
#[allow(unused_imports)]
use vstd::prelude::*;

use crate::query::keyset;
use crate::query::keyset::{SortKeyV, TermOp};
use crate::query::result;

verus! {

/// What a term of the resume predicate says of a row's value and the cursor's.
pub open spec fn term_holds(op: TermOp, descending: bool, row: int, cursor: int) -> bool {
    match op {
        TermOp::Same => row == cursor,
        TermOp::Behind => if descending {
            row < cursor
        } else {
            row > cursor
        },
    }
}

/// All terms of a branch of the resume predicate hold.
pub open spec fn branch_holds(
    keys: Seq<SortKeyV>,
    i: int,
    row: Seq<int>,
    cursor: Seq<int>,
) -> bool {
    forall|j: int|
        0 <= j <= i ==> term_holds(
            keyset::term_op(i, j),
            keys[j].descending,
            #[trigger] row[j],
            cursor[j],
        )
}

/// Some branch of the resume predicate holds.
pub open spec fn resume_holds(keys: Seq<SortKeyV>, row: Seq<int>, cursor: Seq<int>) -> bool {
    exists|i: int| 0 <= i < keys.len() && #[trigger] branch_holds(keys, i, row, cursor)
}

/// The row sorts behind the other, as told by the columns from `from` on: the
/// first column where they differ decides.
pub open spec fn sorts_behind(
    keys: Seq<SortKeyV>,
    row: Seq<int>,
    other: Seq<int>,
    from: int,
) -> bool
    decreases keys.len() - from,
{
    if from < 0 || from >= keys.len() {
        false
    } else if row[from] == other[from] {
        sorts_behind(keys, row, other, from + 1)
    } else {
        term_holds(TermOp::Behind, keys[from].descending, row[from], other[from])
    }
}

proof fn lemma_branch_sorts(
    keys: Seq<SortKeyV>,
    row: Seq<int>,
    cursor: Seq<int>,
    i: int,
    from: int,
)
    requires
        0 <= from <= i < keys.len(),
        branch_holds(keys, i, row, cursor),
    ensures
        sorts_behind(keys, row, cursor, from),
    decreases i - from,
{
    assert(term_holds(keyset::term_op(i, from), keys[from].descending, row[from], cursor[from]));
    if from < i {
        lemma_branch_sorts(keys, row, cursor, i, from + 1);
    }
}

proof fn lemma_sorts_branch(keys: Seq<SortKeyV>, row: Seq<int>, cursor: Seq<int>, from: int)
    requires
        0 <= from,
        sorts_behind(keys, row, cursor, from),
        forall|j: int| 0 <= j < from ==> #[trigger] row[j] == cursor[j],
    ensures
        resume_holds(keys, row, cursor),
    decreases keys.len() - from,
{
    if row[from] == cursor[from] {
        lemma_sorts_branch(keys, row, cursor, from + 1);
    } else {
        assert(branch_holds(keys, from, row, cursor));
    }
}

/// The resume predicate holds of exactly the rows that sort behind the cursor.
pub proof fn law_resume_selects_rows_behind(
    keys: Seq<SortKeyV>,
    row: Seq<int>,
    cursor: Seq<int>,
)
    ensures
        resume_holds(keys, row, cursor) <==> sorts_behind(keys, row, cursor, 0),
{
    if resume_holds(keys, row, cursor) {
        let i = choose|i: int|
            0 <= i < keys.len() && #[trigger] branch_holds(keys, i, row, cursor);
        lemma_branch_sorts(keys, row, cursor, i, 0);
    }
    if sorts_behind(keys, row, cursor, 0) {
        lemma_sorts_branch(keys, row, cursor, 0);
    }
}

proof fn lemma_order(keys: Seq<SortKeyV>, a: Seq<int>, b: Seq<int>, from: int)
    requires
        0 <= from <= keys.len(),
    ensures
        !(sorts_behind(keys, a, b, from) && sorts_behind(keys, b, a, from)),
        (exists|j: int| from <= j < keys.len() && #[trigger] a[j] != b[j]) ==> sorts_behind(
            keys,
            a,
            b,
            from,
        ) || sorts_behind(keys, b, a, from),
    decreases keys.len() - from,
{
    if from < keys.len() && a[from] == b[from] {
        lemma_order(keys, a, b, from + 1);
        if exists|j: int| from <= j < keys.len() && #[trigger] a[j] != b[j] {
            let j = choose|j: int| from <= j < keys.len() && #[trigger] a[j] != b[j];
            assert(from + 1 <= j);
        }
    }
}

/// Two rows that differ in some column, as rows with different ids do, are in
/// one order and not in the other.
pub proof fn law_different_rows_are_ordered(keys: Seq<SortKeyV>, a: Seq<int>, b: Seq<int>)
    requires
        exists|j: int| 0 <= j < keys.len() && #[trigger] a[j] != b[j],
    ensures
        sorts_behind(keys, a, b, 0) != sorts_behind(keys, b, a, 0),
{
    lemma_order(keys, a, b, 0);
}

/// Every row sorts behind those before it.
pub open spec fn in_sort_order(keys: Seq<SortKeyV>, rows: Seq<Seq<int>>) -> bool {
    forall|i: int, j: int|
        0 <= i < j < rows.len() ==> sorts_behind(
            keys,
            #[trigger] rows[j],
            #[trigger] rows[i],
            0,
        )
}

/// The rows that the resume predicate selects, in their order.
pub open spec fn resumed(
    keys: Seq<SortKeyV>,
    rows: Seq<Seq<int>>,
    cursor: Seq<int>,
) -> Seq<Seq<int>>
    decreases rows.len(),
{
    if rows.len() == 0 {
        Seq::empty()
    } else {
        let head = resumed(keys, rows.drop_last(), cursor);
        if resume_holds(keys, rows.last(), cursor) {
            head.push(rows.last())
        } else {
            head
        }
    }
}

proof fn lemma_resumed(keys: Seq<SortKeyV>, rows: Seq<Seq<int>>, p: int, m: int)
    requires
        in_sort_order(keys, rows),
        0 <= p < rows.len(),
        0 <= m <= rows.len(),
    ensures
        m <= p + 1 ==> resumed(keys, rows.take(m), rows[p]) == Seq::<Seq<int>>::empty(),
        m > p + 1 ==> resumed(keys, rows.take(m), rows[p]) == rows.subrange(p + 1, m),
    decreases m,
{
    if m > 0 {
        let k = m - 1;
        lemma_resumed(keys, rows, p, k);
        assert(rows.take(m).drop_last() =~= rows.take(k));
        assert(rows.take(m).last() == rows[k]);
        law_resume_selects_rows_behind(keys, rows[k], rows[p]);
        lemma_order(keys, rows[k], rows[p], 0);
        if k > p {
            assert(sorts_behind(keys, rows[k], rows[p], 0));
            assert(rows.subrange(p + 1, m) =~= rows.subrange(p + 1, k).push(rows[k]));
        } else if k < p {
            assert(sorts_behind(keys, rows[p], rows[k], 0));
        }
    }
}

/// A page resumed behind a row goes on with the row after it: none is skipped,
/// and none is given twice.
pub proof fn law_resuming_goes_on_with_the_next_row(
    keys: Seq<SortKeyV>,
    rows: Seq<Seq<int>>,
    p: int,
)
    requires
        in_sort_order(keys, rows),
        0 <= p < rows.len(),
    ensures
        resumed(keys, rows, rows[p]) == rows.skip(p + 1),
{
    lemma_resumed(keys, rows, p, rows.len() as int);
    assert(rows.take(rows.len() as int) =~= rows);
    if rows.len() > p + 1 {
        assert(rows.subrange(p + 1, rows.len() as int) =~= rows.skip(p + 1));
    } else {
        assert(rows.skip(p + 1) =~= Seq::<Seq<int>>::empty());
    }
}

/// The rows that are read for a page: those behind the cursor, as many as a
/// page holds and one more.
pub open spec fn fetched(
    keys: Seq<SortKeyV>,
    rows: Seq<Seq<int>>,
    num_items: u32,
    cursor: Option<Seq<int>>,
) -> Seq<Seq<int>> {
    let found = match cursor {
        Some(c) => resumed(keys, rows, c),
        None => rows,
    };
    let most = result::page_size(num_items) + 1;
    if found.len() > most {
        found.take(most as int)
    } else {
        found
    }
}

/// The pages from a cursor on, one behind the other: each is resumed behind the
/// last row of the one before, until none follows or `steps` have been read.
pub open spec fn read_through(
    keys: Seq<SortKeyV>,
    rows: Seq<Seq<int>>,
    num_items: u32,
    cursor: Option<Seq<int>>,
    steps: nat,
) -> Seq<Seq<int>>
    decreases steps,
{
    let read = fetched(keys, rows, num_items, cursor);
    let page = result::page_of(read, num_items);
    match result::last_of_page(read, num_items) {
        Some(last) => if steps == 0 {
            page
        } else {
            page + read_through(keys, rows, num_items, Some(last), (steps - 1) as nat)
        },
        None => page,
    }
}

proof fn lemma_read_through(
    keys: Seq<SortKeyV>,
    rows: Seq<Seq<int>>,
    num_items: u32,
    q: int,
    steps: nat,
)
    requires
        in_sort_order(keys, rows),
        num_items > 0,
        0 <= q <= rows.len(),
        steps >= rows.len() - q,
    ensures
        ({
            let cursor = if q == 0 {
                None
            } else {
                Some(rows[q - 1])
            };
            read_through(keys, rows, num_items, cursor, steps) == rows.skip(q)
        }),
    decreases steps,
{
    let cursor = if q == 0 {
        None
    } else {
        Some(rows[q - 1])
    };
    if q > 0 {
        law_resuming_goes_on_with_the_next_row(keys, rows, q - 1);
    } else {
        assert(rows.skip(0) =~= rows);
    }
    let found = rows.skip(q);
    let size = result::page_size(num_items) as int;
    let read = fetched(keys, rows, num_items, cursor);
    if found.len() > size {
        assert(read =~= found.take(size + 1));
        assert(result::page_of(read, num_items) =~= found.take(size));
        assert(result::last_of_page(read, num_items) == Some(rows[q + size - 1]));
        lemma_read_through(keys, rows, num_items, q + size, (steps - 1) as nat);
        assert(found.take(size) + rows.skip(q + size) =~= rows.skip(q));
    } else {
        assert(read =~= found);
    }
}

/// Read page by page, a sorted table gives every row once, in order.
pub proof fn law_pages_cover_every_row_once(
    keys: Seq<SortKeyV>,
    rows: Seq<Seq<int>>,
    num_items: u32,
)
    requires
        in_sort_order(keys, rows),
        num_items > 0,
    ensures
        read_through(keys, rows, num_items, None, rows.len()) == rows,
{
    lemma_read_through(keys, rows, num_items, 0, rows.len());
    assert(rows.skip(0) =~= rows);
}

} // verus!
