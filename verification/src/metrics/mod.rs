//! Operational metrics: counters, latency windows, and their export.
pub mod counters;
pub mod latency;
pub mod laws;
pub mod scrape;
pub mod series;
