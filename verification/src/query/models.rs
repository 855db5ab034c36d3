//! The metadata kept beside a query file.
use vstd::prelude::*;

verus! {

/// Offline metadata for a checked SQL query.
pub struct Query {
    /// SHA-512 digest of the SQL file contents.
    pub checksum: Vec<u8>,
    /// PostgreSQL parameter type names in bind order.
    pub params: Vec<String>,
    /// Result columns returned by the query.
    pub columns: Vec<Column>,
}

/// Offline metadata for a single result column.
pub struct Column {
    /// Column name as reported by PostgreSQL.
    pub name: String,
    /// PostgreSQL type name for the column.
    pub column_type: String,
    /// Nullability hint, when PostgreSQL could determine one.
    pub notnull: Option<bool>,
}

} // verus!
