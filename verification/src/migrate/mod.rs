//! Schema migration: ordered directives that transform the schema and the
//! documents of a database.
pub mod refs;
pub mod plan;
pub mod coerce;
pub mod casts;
pub mod laws;
pub mod effects;
pub mod ids;
pub mod apply;
pub mod documents;
pub mod shapes;
