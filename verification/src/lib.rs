//! Core of a realtime document database server: query compilation, schema
//! migration planning, presence, notification and metrics logic.
#[allow(unused_imports)]
use vstd::prelude::*;

pub mod dsl;
pub mod error;
pub mod idmap;
pub mod json;
pub mod metrics;
pub mod migrate;
pub mod mutation_log;
pub mod notify;
pub mod number;
pub mod op_feed;
pub mod pagination;
pub mod presence;
pub mod protocol;
pub mod query;
pub mod schema;
pub mod strmap;
pub mod sums;
pub mod text;
pub mod txn;

verus! {

} // verus!
