//! Compiled queries and the statement parts that all terminals share.
#[allow(unused_imports)]
use vstd::prelude::*;
#[allow(unused_imports)]
use vstd::string::*;

use crate::dsl;
use crate::dsl::{BindV, EqBind};
use crate::query::filter;
use crate::query::filter::{placeholder_text, quote};
use crate::schema;
use crate::schema::{pg_schema, pg_table};
use crate::text;
use crate::text::{cat2, cat3, join};

verus! {

/// The most rows, distinct values, groups or page items that a query gives.
pub const MAX_TAKE: u32 = 4096;

/// A statement with its binds in placeholder order, and the name of the
/// terminal that it serves.
#[derive(Debug)]
pub struct CompiledQuery {
    pub sql: String,
    pub binds: Vec<EqBind>,
    pub terminal: &'static str,
}

/// The mathematical form of a compiled query.
pub struct CompiledV {
    pub sql: Seq<char>,
    pub binds: Seq<BindV>,
    pub terminal: Seq<char>,
}

impl View for CompiledQuery {
    type V = CompiledV;

    open spec fn view(&self) -> CompiledV {
        CompiledV {
            sql: self.sql@,
            binds: dsl::bind_views(self.binds@),
            terminal: self.terminal@,
        }
    }
}

/// A table of a database in a statement.
pub open spec fn table_ref(db: Seq<char>, table: Seq<char>) -> Seq<char> {
    filter::quoted(schema::schema_name(db)) + "."@ + filter::quoted(schema::table_name(table))
}

/// A table of a database in a statement.
pub fn table_ref_text(db: &str, table: &str) -> (s: String)
    ensures
        s@ == table_ref(db@, table@),
{
    cat3(quote(pg_schema(db).as_str()).as_str(), ".", quote(pg_table(table).as_str()).as_str())
}

/// The condition part of a statement, empty where there is no condition.
pub open spec fn where_part(conditions: Seq<Seq<char>>) -> Seq<char> {
    if conditions.len() == 0 {
        Seq::empty()
    } else {
        " WHERE "@ + text::joined(conditions, " AND "@)
    }
}

/// The condition part of a statement, empty where there is no condition.
pub fn where_text(conditions: &Vec<String>) -> (s: String)
    ensures
        s@ == where_part(text::strs(conditions@)),
{
    if conditions.len() == 0 {
        String::new()
    } else {
        cat2(" WHERE ", join(conditions, " AND ").as_str())
    }
}

/// The limit part of a statement.
pub open spec fn limit_part(n: nat) -> Seq<char> {
    " LIMIT "@ + filter::placeholder(n)
}

/// The limit part of a statement.
pub fn limit_text(n: u128) -> (s: String)
    ensures
        s@ == limit_part(n as nat),
{
    cat2(" LIMIT ", placeholder_text(n).as_str())
}

/// The number of items on a page: those asked for, at most as many as a query may
/// give.
pub open spec fn page_items(num_items: u32) -> u32 {
    if num_items <= MAX_TAKE {
        num_items
    } else {
        MAX_TAKE
    }
}

/// The number of items on a page.
pub fn page_item_count(num_items: u32) -> (n: u32)
    ensures
        n == page_items(num_items),
{
    if num_items <= MAX_TAKE {
        num_items
    } else {
        MAX_TAKE
    }
}

/// The number of rows read for a page: its items, and one more to tell whether
/// another page follows.
pub open spec fn page_rows(num_items: u32) -> i64 {
    (page_items(num_items) + 1) as i64
}

/// The number of rows read for a page.
pub fn page_row_count(num_items: u32) -> (n: i64)
    ensures
        n == page_rows(num_items),
{
    page_item_count(num_items) as i64 + 1
}

/// Appending binds appends their views.
pub proof fn lemma_bind_append(a: Seq<EqBind>, b: Seq<EqBind>)
    ensures
        dsl::bind_views(a + b) == dsl::bind_views(a) + dsl::bind_views(b),
{
    assert(dsl::bind_views(a + b) =~= dsl::bind_views(a) + dsl::bind_views(b));
}

/// Adding a bind adds its view.
pub proof fn lemma_bind_add(a: Seq<EqBind>, b: EqBind)
    ensures
        dsl::bind_views(a.push(b)) == dsl::bind_views(a).push(b@),
{
    assert(dsl::bind_views(a.push(b)) =~= dsl::bind_views(a).push(b@));
}

} // verus!
