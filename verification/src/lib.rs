//! Schema diffing, SQL rendering and migration bookkeeping for PostgreSQL,
//! with the logic verified by Verus.
pub mod cli;
pub mod collection;
pub mod config;
pub mod diff;
pub mod hash;
pub mod inspection;
pub mod migration;
pub mod models;
pub mod order;
pub mod query;
pub mod rows;
pub mod sql;
pub mod text;
