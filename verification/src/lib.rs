//! Verified core of an LSP benchmarking tool: JSON inspection of server
//! responses, expectation checking, result classification and summaries,
//! report helpers, text edits and configuration resolution.

pub mod text;
pub mod json;
pub mod response;
pub mod expect;
pub mod serialize;
pub mod render;
pub mod parse;
pub mod report;
pub mod config;
pub mod edits;
pub mod compact;
pub mod summary;
pub mod laws;
pub mod doc;
pub mod session;
pub mod competition;
pub mod analysis;
pub mod readme;
pub mod protocol;
pub mod lifecycle;
pub mod files;
pub mod delta;
pub mod requests;
pub mod versions;
