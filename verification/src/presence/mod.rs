//! Presence: who is in which room right now, and in what state. Nothing of it
//! is stored; it lasts as long as the connections do.
pub mod config;
pub mod db;
pub mod union;
pub mod manager;
pub mod sweep;
pub mod laws;
pub mod told;
pub mod changes;
