//! Checked SQL queries: the metadata kept beside each query file, the
//! marker types that tie SQL types to Rust types, and the checks made
//! between them.
pub mod check;
pub mod models;
pub mod types;
