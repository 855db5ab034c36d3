//! Marker types for PostgreSQL types, and the marker traits that say which
//! Rust types a parameter or a result column of each may take.
use vstd::prelude::*;

verus! {

/// `std::time::SystemTime`, a Rust type for timestamps.
#[verifier::external_type_specification]
#[verifier::external_body]
pub struct ExSystemTime(std::time::SystemTime);

/// `tokio_postgres::Client`, a client that runs queries.
#[verifier::external_type_specification]
#[verifier::external_body]
pub struct ExClient(tokio_postgres::Client);

/// `tokio_postgres::Transaction`, a transaction that runs queries.
#[verifier::external_type_specification]
#[verifier::external_body]
pub struct ExTransaction<'a>(tokio_postgres::Transaction<'a>);

/// The clients that checked queries run on; no other type can be one.
pub trait Sealed {}

impl Sealed for tokio_postgres::Client {}

impl<'a> Sealed for tokio_postgres::Transaction<'a> {}

/// A row type with `N` fields.
pub trait RowFieldCount<const N: usize> {}

/// A row type whose field at position `I` has type `Ty`.
pub trait RowFieldType<const I: usize> {
    type Ty;
}

impl RowFieldCount<0> for () {}

/// A Rust type that a value of the SQL type marked by `T` reads into.
pub trait FromSqlTyped<'a, T> {}

/// A Rust type that a parameter of the SQL type marked by `T` may take.
pub trait QueryParamTyped<T> {}

/// A Rust type that a non-null result column of the SQL type marked by `T`
/// may take.
pub trait QueryRowTyped<T> {}

/// A Rust type that a nullable result column of the SQL type marked by `T`
/// may take.
pub trait QueryNullableRowTyped<T> {}

/// A Rust type that a result column of the SQL type marked by `T`, null or
/// not, may take.
pub trait QueryMaybeNullableRowTyped<T> {}

/// BOOL
pub struct PgBool;

/// CHAR
pub struct PgI8;

/// SMALLINT, SMALLSERIAL
pub struct PgI16;

/// INT, SERIAL
pub struct PgI32;

/// BIGINT, BIGSERIAL, OID
pub struct PgI64;

/// REAL
pub struct PgF32;

/// DOUBLE PRECISION
pub struct PgF64;

/// VARCHAR, CHAR(n), TEXT, CITEXT, NAME, UNKNOWN, LTREE, LQUERY, LTXTQUERY
pub struct PgString;

/// BYTEA
pub struct PgBytea;

/// HSTORE
pub struct PgHstore;

/// TIMESTAMP
pub struct PgTimestamp;

/// TIMESTAMP WITH TIME ZONE
pub struct PgTimestampTz;

/// INET
pub struct PgInet;

/// DATE
pub struct PgDate;

/// TIME
pub struct PgTime;

/// UUID
pub struct PgUuid;

/// JSON, JSONB
pub struct PgJson;

impl QueryParamTyped<PgString> for &str {}

impl QueryParamTyped<PgString> for Option<&str> {}

impl QueryParamTyped<PgBytea> for &[u8] {}

impl QueryParamTyped<PgBytea> for Option<&[u8]> {}

impl QueryParamTyped<PgBool> for bool {}

impl QueryParamTyped<PgBool> for Option<bool> {}

impl QueryRowTyped<PgBool> for bool {}

impl QueryNullableRowTyped<PgBool> for Option<bool> {}

impl QueryMaybeNullableRowTyped<PgBool> for bool {}

impl QueryMaybeNullableRowTyped<PgBool> for Option<bool> {}

impl QueryParamTyped<PgI8> for i8 {}

impl QueryParamTyped<PgI8> for Option<i8> {}

impl QueryRowTyped<PgI8> for i8 {}

impl QueryNullableRowTyped<PgI8> for Option<i8> {}

impl QueryMaybeNullableRowTyped<PgI8> for i8 {}

impl QueryMaybeNullableRowTyped<PgI8> for Option<i8> {}

impl QueryParamTyped<PgI16> for i16 {}

impl QueryParamTyped<PgI16> for Option<i16> {}

impl QueryRowTyped<PgI16> for i16 {}

impl QueryNullableRowTyped<PgI16> for Option<i16> {}

impl QueryMaybeNullableRowTyped<PgI16> for i16 {}

impl QueryMaybeNullableRowTyped<PgI16> for Option<i16> {}

impl QueryParamTyped<PgI32> for i32 {}

impl QueryParamTyped<PgI32> for Option<i32> {}

impl QueryRowTyped<PgI32> for i32 {}

impl QueryNullableRowTyped<PgI32> for Option<i32> {}

impl QueryMaybeNullableRowTyped<PgI32> for i32 {}

impl QueryMaybeNullableRowTyped<PgI32> for Option<i32> {}

impl QueryParamTyped<PgI64> for i64 {}

impl QueryParamTyped<PgI64> for Option<i64> {}

impl QueryRowTyped<PgI64> for i64 {}

impl QueryNullableRowTyped<PgI64> for Option<i64> {}

impl QueryMaybeNullableRowTyped<PgI64> for i64 {}

impl QueryMaybeNullableRowTyped<PgI64> for Option<i64> {}

impl QueryParamTyped<PgString> for String {}

impl QueryParamTyped<PgString> for Option<String> {}

impl QueryRowTyped<PgString> for String {}

impl QueryNullableRowTyped<PgString> for Option<String> {}

impl QueryMaybeNullableRowTyped<PgString> for String {}

impl QueryMaybeNullableRowTyped<PgString> for Option<String> {}

impl QueryParamTyped<PgBytea> for Vec<u8> {}

impl QueryParamTyped<PgBytea> for Option<Vec<u8>> {}

impl QueryRowTyped<PgBytea> for Vec<u8> {}

impl QueryNullableRowTyped<PgBytea> for Option<Vec<u8>> {}

impl QueryMaybeNullableRowTyped<PgBytea> for Vec<u8> {}

impl QueryMaybeNullableRowTyped<PgBytea> for Option<Vec<u8>> {}

impl QueryParamTyped<PgHstore> for std::collections::HashMap<String, Option<String>> {}

impl QueryParamTyped<PgHstore> for Option<std::collections::HashMap<String, Option<String>>> {}

impl QueryRowTyped<PgHstore> for std::collections::HashMap<String, Option<String>> {}

impl QueryNullableRowTyped<PgHstore> for Option<std::collections::HashMap<String, Option<String>>> {}

impl QueryMaybeNullableRowTyped<PgHstore> for std::collections::HashMap<String, Option<String>> {}

impl QueryMaybeNullableRowTyped<PgHstore> for Option<std::collections::HashMap<String, Option<String>>> {}

impl QueryParamTyped<PgTimestamp> for std::time::SystemTime {}

impl QueryParamTyped<PgTimestamp> for Option<std::time::SystemTime> {}

impl QueryRowTyped<PgTimestamp> for std::time::SystemTime {}

impl QueryNullableRowTyped<PgTimestamp> for Option<std::time::SystemTime> {}

impl QueryMaybeNullableRowTyped<PgTimestamp> for std::time::SystemTime {}

impl QueryMaybeNullableRowTyped<PgTimestamp> for Option<std::time::SystemTime> {}

impl QueryParamTyped<PgTimestampTz> for std::time::SystemTime {}

impl QueryParamTyped<PgTimestampTz> for Option<std::time::SystemTime> {}

impl QueryRowTyped<PgTimestampTz> for std::time::SystemTime {}

impl QueryNullableRowTyped<PgTimestampTz> for Option<std::time::SystemTime> {}

impl QueryMaybeNullableRowTyped<PgTimestampTz> for std::time::SystemTime {}

impl QueryMaybeNullableRowTyped<PgTimestampTz> for Option<std::time::SystemTime> {}

impl FromSqlTyped<'_, PgBool> for bool {}

impl FromSqlTyped<'_, PgI8> for i8 {}

impl FromSqlTyped<'_, PgI16> for i16 {}

impl FromSqlTyped<'_, PgI32> for i32 {}

impl FromSqlTyped<'_, PgI64> for i64 {}

impl<'a> FromSqlTyped<'a, PgString> for &'a str {}

impl FromSqlTyped<'_, PgString> for String {}

impl<'a> FromSqlTyped<'a, PgBytea> for &'a [u8] {}

impl FromSqlTyped<'_, PgBytea> for Vec<u8> {}

impl FromSqlTyped<'_, PgHstore> for std::collections::HashMap<String, Option<String>> {}

impl FromSqlTyped<'_, PgTimestamp> for std::time::SystemTime {}

impl FromSqlTyped<'_, PgTimestampTz> for std::time::SystemTime {}

} // verus!
