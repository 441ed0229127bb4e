//! Results of mutations, kept for a while so that a repeated mutation is
//! answered without running again.
#[allow(unused_imports)]
use vstd::prelude::*;
#[allow(unused_imports)]
use vstd::string::*;

use crate::error;
use crate::error::{ErrorV, RtDbError};
use crate::json;
use crate::json::{copy_all, Json, JsonV};
use crate::schema;
use crate::schema::{pg_schema, validate_db_name};
use crate::text::cat3;

verus! {

/// For how long a result is kept, in milliseconds, where nothing else is set.
pub const DEFAULT_DEDUP_TTL_MS: i64 = 300_000;

/// How often expired results are deleted, in seconds.
pub const CLEANUP_INTERVAL_SECS: u64 = 60;

/// A statement about the results of a database.
pub open spec fn about(db: Seq<char>, pre: Seq<char>, post: Seq<char>) -> Result<
    Seq<char>,
    ErrorV,
> {
    if schema::db_name_ok(db) {
        Ok(pre + schema::schema_name(db) + post)
    } else {
        Err(error::bad("invalid database name '"@ + db + "'"@))
    }
}

fn statement(db: &str, pre: &str, post: &str) -> (r: Result<String, RtDbError>)
    ensures
        match about(db@, pre@, post@) {
            Ok(s) => r matches Ok(x) && x@ == s,
            Err(e) => r matches Err(x) && x@ == e,
        },
{
    match validate_db_name(db) {
        Ok(_) => Ok(cat3(pre, pg_schema(db).as_str(), post)),
        Err(e) => Err(e),
    }
}

/// The statement that creates the table of results of a database.
pub fn ensure_table_sql(db: &str) -> (r: Result<String, RtDbError>)
    ensures
        match about(
            db@,
            "CREATE TABLE IF NOT EXISTS \""@,
            "\".mutations (\n            mut_id text PRIMARY KEY,\n            result jsonb NOT NULL,\n            expires_at bigint NOT NULL\n        )"@,
        ) {
            Ok(s) => r matches Ok(x) && x@ == s,
            Err(e) => r matches Err(x) && x@ == e,
        },
{
    statement(
        db,
        "CREATE TABLE IF NOT EXISTS \"",
        "\".mutations (\n            mut_id text PRIMARY KEY,\n            result jsonb NOT NULL,\n            expires_at bigint NOT NULL\n        )",
    )
}

/// The statement that finds the result of a mutation; it takes the mutation and
/// the time. An expired result is not found.
pub fn check_sql(db: &str) -> (r: Result<String, RtDbError>)
    ensures
        match about(
            db@,
            "SELECT result FROM \""@,
            "\".mutations WHERE mut_id = $1 AND expires_at > $2"@,
        ) {
            Ok(s) => r matches Ok(x) && x@ == s,
            Err(e) => r matches Err(x) && x@ == e,
        },
{
    statement(
        db,
        "SELECT result FROM \"",
        "\".mutations WHERE mut_id = $1 AND expires_at > $2",
    )
}

/// The statement that deletes expired results; it takes the time.
pub fn cleanup_sql(db: &str) -> (r: Result<String, RtDbError>)
    ensures
        match about(db@, "DELETE FROM \""@, "\".mutations WHERE expires_at < $1"@) {
            Ok(s) => r matches Ok(x) && x@ == s,
            Err(e) => r matches Err(x) && x@ == e,
        },
{
    statement(db, "DELETE FROM \"", "\".mutations WHERE expires_at < $1")
}

/// The statement that keeps a result; it takes the mutation, the result and the
/// time it expires. A result that is already kept stays.
pub fn store_sql(db: &str) -> (r: Result<String, RtDbError>)
    ensures
        match about(
            db@,
            "INSERT INTO \""@,
            "\".mutations (mut_id, result, expires_at) VALUES ($1, $2, $3)\n         ON CONFLICT (mut_id) DO NOTHING"@,
        ) {
            Ok(s) => r matches Ok(x) && x@ == s,
            Err(e) => r matches Err(x) && x@ == e,
        },
{
    statement(
        db,
        "INSERT INTO \"",
        "\".mutations (mut_id, result, expires_at) VALUES ($1, $2, $3)\n         ON CONFLICT (mut_id) DO NOTHING",
    )
}

/// When a result that is kept now expires.
pub fn expires_at(now: i64, ttl_ms: i64) -> (t: i64)
    requires
        i64::MIN <= now + ttl_ms <= i64::MAX,
    ensures
        t == now + ttl_ms,
{
    now + ttl_ms
}

/// What a row found for a mutation says: the results to answer with, or nothing
/// where there is no row.
pub open spec fn replayed(row: Option<JsonV>) -> Result<Option<Seq<JsonV>>, ErrorV> {
    match row {
        None => Ok(None),
        Some(JsonV::Array(vs)) => Ok(Some(vs)),
        Some(_) => Err(error::internal("failed to read cached mutation result"@)),
    }
}

/// The results to answer a repeated mutation with.
pub fn cached_results(row: Option<Json>) -> (r: Result<Option<Vec<Json>>, RtDbError>)
    ensures
        match replayed(schema::opt_view(row)) {
            Ok(Some(vs)) => r matches Ok(Some(x)) && json::json_views(x@) == vs,
            Ok(None) => r matches Ok(None),
            Err(e) => r matches Err(x) && x@ == e,
        },
{
    broadcast use json::lemma_json_view;

    match row {
        None => Ok(None),
        Some(Json::Array(vs)) => Ok(Some(vs)),
        Some(_) => Err(RtDbError::internal("failed to read cached mutation result".to_owned())),
    }
}

/// The value under which results are kept.
pub fn stored_value(results: &Vec<Json>) -> (v: Json)
    ensures
        v@ == JsonV::Array(json::json_views(results@)),
{
    broadcast use json::lemma_json_view;

    Json::Array(copy_all(results))
}

/// What is kept for a mutation is what a repeated one is answered with.
pub proof fn law_stored_results_are_replayed(results: Seq<JsonV>)
    ensures
        replayed(Some(JsonV::Array(results))) == Ok::<Option<Seq<JsonV>>, ErrorV>(Some(results)),
{
}

/// How the cleanup of a database goes on after a round.
#[derive(Debug, Clone, Copy, PartialEq, Eq, Structural)]
pub enum AfterCleanup {
    /// Waits for the next round.
    GoOn,
    /// Reports the failure, then waits for the next round.
    Report,
    /// Ends: the database is gone.
    End,
}

/// How the cleanup goes on: a failure ends it only if the database is known to
/// be gone.
pub fn after_cleanup(deleted: bool, exists: Option<bool>) -> (a: AfterCleanup)
    ensures
        a == (if deleted {
            AfterCleanup::GoOn
        } else if exists == Some(false) {
            AfterCleanup::End
        } else {
            AfterCleanup::Report
        }),
{
    if deleted {
        AfterCleanup::GoOn
    } else {
        match exists {
            Some(false) => AfterCleanup::End,
            _ => AfterCleanup::Report,
        }
    }
}

} // verus!
