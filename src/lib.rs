//! A read-only relay over indexed chain data: point lookups of transactions,
//! receipts and blocks, and a verified log query engine that returns the logs
//! matching a filter in canonical order.

pub mod api;
pub mod chain;
pub mod filter;
pub mod laws;
pub mod model;
pub mod query;
pub mod records;
