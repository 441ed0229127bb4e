//! The read path: queries compiled to statements with typed binds, and results
//! shaped for callers.
pub mod combinations;
pub mod compiled;
pub mod deletion;
pub mod filter;
pub mod keyset;
pub mod laws;
pub mod numbering;
pub mod paging;
pub mod placeholders;
pub mod result;
pub mod row_auth;
pub mod search;
pub mod terminals;
pub mod warnings;
pub mod window;
pub mod meaning;
pub mod agreement;
pub mod admission;
pub mod retrieval;
pub mod resumption;
pub mod statements;
pub mod fusion;
