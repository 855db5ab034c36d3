//! The checks between a query and its metadata: which marker each SQL type
//! name stands for, what a query's parameters and result columns must
//! satisfy, and whether the metadata is current.
use vstd::prelude::*;
use crate::hash::{sha512, sha512_digest};
use crate::query::models::{Column, Query};
use crate::text::{decimal, decimal_u64, push_char, push_str, str_eq, string_of};

verus! {

/// The marker type of a PostgreSQL type.
#[derive(Debug, Clone, Copy, PartialEq, Eq, Structural)]
pub enum SqlMarker {
    PgBool,
    PgI8,
    PgI16,
    PgI32,
    PgI64,
    PgF32,
    PgF64,
    PgString,
    PgBytea,
    PgHstore,
    PgTimestamp,
    PgTimestampTz,
    PgInet,
    PgDate,
    PgTime,
    PgUuid,
    PgJson,
}

/// The marker of a PostgreSQL type name, if it is supported.
pub open spec fn marker_of(t: Seq<char>) -> Option<SqlMarker> {
    if t == "bool"@ {
        Some(SqlMarker::PgBool)
    } else if t == "char"@ {
        Some(SqlMarker::PgI8)
    } else if t == "int2"@ {
        Some(SqlMarker::PgI16)
    } else if t == "int4"@ {
        Some(SqlMarker::PgI32)
    } else if t == "int8"@ || t == "oid"@ {
        Some(SqlMarker::PgI64)
    } else if t == "float4"@ {
        Some(SqlMarker::PgF32)
    } else if t == "float8"@ {
        Some(SqlMarker::PgF64)
    } else if t == "varchar"@ || t == "bpchar"@ || t == "text"@ || t == "citext"@ || t == "name"@ || t
        == "unknown"@ || t == "ltree"@ || t == "lquery"@ || t == "ltxtquery"@ {
        Some(SqlMarker::PgString)
    } else if t == "bytea"@ {
        Some(SqlMarker::PgBytea)
    } else if t == "hstore"@ {
        Some(SqlMarker::PgHstore)
    } else if t == "timestamp"@ {
        Some(SqlMarker::PgTimestamp)
    } else if t == "timestamptz"@ {
        Some(SqlMarker::PgTimestampTz)
    } else if t == "inet"@ {
        Some(SqlMarker::PgInet)
    } else if t == "date"@ {
        Some(SqlMarker::PgDate)
    } else if t == "time"@ {
        Some(SqlMarker::PgTime)
    } else if t == "uuid"@ {
        Some(SqlMarker::PgUuid)
    } else if t == "json"@ || t == "jsonb"@ {
        Some(SqlMarker::PgJson)
    } else {
        None
    }
}

/// The PostgreSQL type a marker stands for, by its name.
pub open spec fn marker_type_name(m: SqlMarker) -> Seq<char> {
    match m {
        SqlMarker::PgBool => "bool"@,
        SqlMarker::PgI8 => "char"@,
        SqlMarker::PgI16 => "int2"@,
        SqlMarker::PgI32 => "int4"@,
        SqlMarker::PgI64 => "int8"@,
        SqlMarker::PgF32 => "float4"@,
        SqlMarker::PgF64 => "float8"@,
        SqlMarker::PgString => "text"@,
        SqlMarker::PgBytea => "bytea"@,
        SqlMarker::PgHstore => "hstore"@,
        SqlMarker::PgTimestamp => "timestamp"@,
        SqlMarker::PgTimestampTz => "timestamptz"@,
        SqlMarker::PgInet => "inet"@,
        SqlMarker::PgDate => "date"@,
        SqlMarker::PgTime => "time"@,
        SqlMarker::PgUuid => "uuid"@,
        SqlMarker::PgJson => "json"@,
    }
}

/// The name of the type a type name is read as: `oid` as `int8`, the
/// character and label types as `text`, `jsonb` as `json`, any other name
/// as itself.
pub open spec fn read_as_type(t: Seq<char>) -> Seq<char> {
    if t == "oid"@ {
        "int8"@
    } else if t == "varchar"@ || t == "bpchar"@ || t == "citext"@ || t == "name"@ || t == "unknown"@
        || t == "ltree"@ || t == "lquery"@ || t == "ltxtquery"@ {
        "text"@
    } else if t == "jsonb"@ {
        "json"@
    } else {
        t
    }
}

/// A supported type name gets the marker of the type it is read as, and
/// the name of each marker's type gets that marker back: distinct types
/// never share a marker.
pub proof fn lemma_marker_matches_type(t: Seq<char>, m: SqlMarker)
    ensures
        marker_of(t) == Some(m) ==> read_as_type(t) == marker_type_name(m),
        marker_of(marker_type_name(m)) == Some(m),
{
    reveal_strlit("bool");
    reveal_strlit("char");
    reveal_strlit("int2");
    reveal_strlit("int4");
    reveal_strlit("int8");
    reveal_strlit("oid");
    reveal_strlit("float4");
    reveal_strlit("float8");
    reveal_strlit("varchar");
    reveal_strlit("bpchar");
    reveal_strlit("text");
    reveal_strlit("citext");
    reveal_strlit("name");
    reveal_strlit("unknown");
    reveal_strlit("ltree");
    reveal_strlit("lquery");
    reveal_strlit("ltxtquery");
    reveal_strlit("bytea");
    reveal_strlit("hstore");
    reveal_strlit("timestamp");
    reveal_strlit("timestamptz");
    reveal_strlit("inet");
    reveal_strlit("date");
    reveal_strlit("time");
    reveal_strlit("uuid");
    reveal_strlit("json");
    reveal_strlit("jsonb");
    assert("bool"@.len() == 4 && "bool"@[0] == 'b' && "bool"@[1] == 'o' && "bool"@[2] == 'o' && "bool"@[3] == 'l');
    assert("char"@.len() == 4 && "char"@[0] == 'c' && "char"@[1] == 'h' && "char"@[2] == 'a' && "char"@[3] == 'r');
    assert("int2"@.len() == 4 && "int2"@[0] == 'i' && "int2"@[1] == 'n' && "int2"@[2] == 't' && "int2"@[3] == '2');
    assert("int4"@.len() == 4 && "int4"@[0] == 'i' && "int4"@[1] == 'n' && "int4"@[2] == 't' && "int4"@[3] == '4');
    assert("int8"@.len() == 4 && "int8"@[0] == 'i' && "int8"@[1] == 'n' && "int8"@[2] == 't' && "int8"@[3] == '8');
    assert("oid"@.len() == 3 && "oid"@[0] == 'o' && "oid"@[1] == 'i' && "oid"@[2] == 'd');
    assert("float4"@.len() == 6 && "float4"@[0] == 'f' && "float4"@[1] == 'l' && "float4"@[2] == 'o' && "float4"@[3] == 'a' && "float4"@[4] == 't' && "float4"@[5] == '4');
    assert("float8"@.len() == 6 && "float8"@[0] == 'f' && "float8"@[1] == 'l' && "float8"@[2] == 'o' && "float8"@[3] == 'a' && "float8"@[4] == 't' && "float8"@[5] == '8');
    assert("varchar"@.len() == 7 && "varchar"@[0] == 'v' && "varchar"@[1] == 'a' && "varchar"@[2] == 'r' && "varchar"@[3] == 'c' && "varchar"@[4] == 'h' && "varchar"@[5] == 'a' && "varchar"@[6] == 'r');
    assert("bpchar"@.len() == 6 && "bpchar"@[0] == 'b' && "bpchar"@[1] == 'p' && "bpchar"@[2] == 'c' && "bpchar"@[3] == 'h' && "bpchar"@[4] == 'a' && "bpchar"@[5] == 'r');
    assert("text"@.len() == 4 && "text"@[0] == 't' && "text"@[1] == 'e' && "text"@[2] == 'x' && "text"@[3] == 't');
    assert("citext"@.len() == 6 && "citext"@[0] == 'c' && "citext"@[1] == 'i' && "citext"@[2] == 't' && "citext"@[3] == 'e' && "citext"@[4] == 'x' && "citext"@[5] == 't');
    assert("name"@.len() == 4 && "name"@[0] == 'n' && "name"@[1] == 'a' && "name"@[2] == 'm' && "name"@[3] == 'e');
    assert("unknown"@.len() == 7 && "unknown"@[0] == 'u' && "unknown"@[1] == 'n' && "unknown"@[2] == 'k' && "unknown"@[3] == 'n' && "unknown"@[4] == 'o' && "unknown"@[5] == 'w' && "unknown"@[6] == 'n');
    assert("ltree"@.len() == 5 && "ltree"@[0] == 'l' && "ltree"@[1] == 't' && "ltree"@[2] == 'r' && "ltree"@[3] == 'e' && "ltree"@[4] == 'e');
    assert("lquery"@.len() == 6 && "lquery"@[0] == 'l' && "lquery"@[1] == 'q' && "lquery"@[2] == 'u' && "lquery"@[3] == 'e' && "lquery"@[4] == 'r' && "lquery"@[5] == 'y');
    assert("ltxtquery"@.len() == 9 && "ltxtquery"@[0] == 'l' && "ltxtquery"@[1] == 't' && "ltxtquery"@[2] == 'x' && "ltxtquery"@[3] == 't' && "ltxtquery"@[4] == 'q' && "ltxtquery"@[5] == 'u' && "ltxtquery"@[6] == 'e' && "ltxtquery"@[7] == 'r' && "ltxtquery"@[8] == 'y');
    assert("bytea"@.len() == 5 && "bytea"@[0] == 'b' && "bytea"@[1] == 'y' && "bytea"@[2] == 't' && "bytea"@[3] == 'e' && "bytea"@[4] == 'a');
    assert("hstore"@.len() == 6 && "hstore"@[0] == 'h' && "hstore"@[1] == 's' && "hstore"@[2] == 't' && "hstore"@[3] == 'o' && "hstore"@[4] == 'r' && "hstore"@[5] == 'e');
    assert("timestamp"@.len() == 9 && "timestamp"@[0] == 't' && "timestamp"@[1] == 'i' && "timestamp"@[2] == 'm' && "timestamp"@[3] == 'e' && "timestamp"@[4] == 's' && "timestamp"@[5] == 't' && "timestamp"@[6] == 'a' && "timestamp"@[7] == 'm' && "timestamp"@[8] == 'p');
    assert("timestamptz"@.len() == 11 && "timestamptz"@[0] == 't' && "timestamptz"@[1] == 'i' && "timestamptz"@[2] == 'm' && "timestamptz"@[3] == 'e' && "timestamptz"@[4] == 's' && "timestamptz"@[5] == 't' && "timestamptz"@[6] == 'a' && "timestamptz"@[7] == 'm' && "timestamptz"@[8] == 'p' && "timestamptz"@[9] == 't' && "timestamptz"@[10] == 'z');
    assert("inet"@.len() == 4 && "inet"@[0] == 'i' && "inet"@[1] == 'n' && "inet"@[2] == 'e' && "inet"@[3] == 't');
    assert("date"@.len() == 4 && "date"@[0] == 'd' && "date"@[1] == 'a' && "date"@[2] == 't' && "date"@[3] == 'e');
    assert("time"@.len() == 4 && "time"@[0] == 't' && "time"@[1] == 'i' && "time"@[2] == 'm' && "time"@[3] == 'e');
    assert("uuid"@.len() == 4 && "uuid"@[0] == 'u' && "uuid"@[1] == 'u' && "uuid"@[2] == 'i' && "uuid"@[3] == 'd');
    assert("json"@.len() == 4 && "json"@[0] == 'j' && "json"@[1] == 's' && "json"@[2] == 'o' && "json"@[3] == 'n');
    assert("jsonb"@.len() == 5 && "jsonb"@[0] == 'j' && "jsonb"@[1] == 's' && "jsonb"@[2] == 'o' && "jsonb"@[3] == 'n' && "jsonb"@[4] == 'b');
}

/// Why a type name has no marker: `` `<name>` is not supported yet``.
pub open spec fn unsupported_message(t: Seq<char>) -> Seq<char> {
    "`"@ + t + "` is not supported yet"@
}

/// The path of a marker type.
pub open spec fn marker_path_spec(m: SqlMarker) -> Seq<char> {
    "::tusker_query::types::"@ + match m {
        SqlMarker::PgBool => "PgBool"@,
        SqlMarker::PgI8 => "PgI8"@,
        SqlMarker::PgI16 => "PgI16"@,
        SqlMarker::PgI32 => "PgI32"@,
        SqlMarker::PgI64 => "PgI64"@,
        SqlMarker::PgF32 => "PgF32"@,
        SqlMarker::PgF64 => "PgF64"@,
        SqlMarker::PgString => "PgString"@,
        SqlMarker::PgBytea => "PgBytea"@,
        SqlMarker::PgHstore => "PgHstore"@,
        SqlMarker::PgTimestamp => "PgTimestamp"@,
        SqlMarker::PgTimestampTz => "PgTimestampTz"@,
        SqlMarker::PgInet => "PgInet"@,
        SqlMarker::PgDate => "PgDate"@,
        SqlMarker::PgTime => "PgTime"@,
        SqlMarker::PgUuid => "PgUuid"@,
        SqlMarker::PgJson => "PgJson"@,
    }
}

impl SqlMarker {
    /// The name of the marker type.
    pub fn marker_name(&self) -> (r: &'static str)
        ensures
            "::tusker_query::types::"@ + r@ == marker_path_spec(*self),
    {
        match self {
            SqlMarker::PgBool => "PgBool",
            SqlMarker::PgI8 => "PgI8",
            SqlMarker::PgI16 => "PgI16",
            SqlMarker::PgI32 => "PgI32",
            SqlMarker::PgI64 => "PgI64",
            SqlMarker::PgF32 => "PgF32",
            SqlMarker::PgF64 => "PgF64",
            SqlMarker::PgString => "PgString",
            SqlMarker::PgBytea => "PgBytea",
            SqlMarker::PgHstore => "PgHstore",
            SqlMarker::PgTimestamp => "PgTimestamp",
            SqlMarker::PgTimestampTz => "PgTimestampTz",
            SqlMarker::PgInet => "PgInet",
            SqlMarker::PgDate => "PgDate",
            SqlMarker::PgTime => "PgTime",
            SqlMarker::PgUuid => "PgUuid",
            SqlMarker::PgJson => "PgJson",
        }
    }

    /// The full path of the marker type.
    pub fn path(&self) -> (r: String)
        ensures
            r@ == marker_path_spec(*self),
    {
        let mut s = string_of("::tusker_query::types::");
        push_str(&mut s, self.marker_name());
        s
    }
}

/// The marker of a PostgreSQL type name, or `` `<name>` is not supported
/// yet``.
pub fn sql_type_marker(sql_type: &str) -> (r: Result<SqlMarker, String>)
    ensures
        match marker_of(sql_type@) {
            Some(m) => r == Ok::<SqlMarker, String>(m),
            None => r matches Err(msg) && msg@ == unsupported_message(sql_type@),
        },
{
    let t = sql_type;
    if str_eq(t, "bool") {
        Ok(SqlMarker::PgBool)
    } else if str_eq(t, "char") {
        Ok(SqlMarker::PgI8)
    } else if str_eq(t, "int2") {
        Ok(SqlMarker::PgI16)
    } else if str_eq(t, "int4") {
        Ok(SqlMarker::PgI32)
    } else if str_eq(t, "int8") || str_eq(t, "oid") {
        Ok(SqlMarker::PgI64)
    } else if str_eq(t, "float4") {
        Ok(SqlMarker::PgF32)
    } else if str_eq(t, "float8") {
        Ok(SqlMarker::PgF64)
    } else if str_eq(t, "varchar") || str_eq(t, "bpchar") || str_eq(t, "text") || str_eq(t, "citext")
        || str_eq(t, "name") || str_eq(t, "unknown") || str_eq(t, "ltree") || str_eq(t, "lquery")
        || str_eq(t, "ltxtquery") {
        Ok(SqlMarker::PgString)
    } else if str_eq(t, "bytea") {
        Ok(SqlMarker::PgBytea)
    } else if str_eq(t, "hstore") {
        Ok(SqlMarker::PgHstore)
    } else if str_eq(t, "timestamp") {
        Ok(SqlMarker::PgTimestamp)
    } else if str_eq(t, "timestamptz") {
        Ok(SqlMarker::PgTimestampTz)
    } else if str_eq(t, "inet") {
        Ok(SqlMarker::PgInet)
    } else if str_eq(t, "date") {
        Ok(SqlMarker::PgDate)
    } else if str_eq(t, "time") {
        Ok(SqlMarker::PgTime)
    } else if str_eq(t, "uuid") {
        Ok(SqlMarker::PgUuid)
    } else if str_eq(t, "json") || str_eq(t, "jsonb") {
        Ok(SqlMarker::PgJson)
    } else {
        let mut m = string_of("`");
        push_str(&mut m, sql_type);
        push_str(&mut m, "` is not supported yet");
        Err(m)
    }
}

/// What a result column is checked for: a non-null type, or one that may
/// be null.
#[derive(Debug, Clone, Copy, PartialEq, Eq, Structural)]
pub enum RowCheck {
    NotNull,
    MaybeNull,
}

/// The check of the result column at `index`.
pub struct ColumnCheck {
    pub index: usize,
    pub marker: SqlMarker,
    pub check: RowCheck,
}

/// What a query must satisfy: the marker of each parameter, the number of
/// result columns, and the check of each column.
pub struct QueryValidation {
    pub params: Vec<SqlMarker>,
    pub row_len: usize,
    pub columns: Vec<ColumnCheck>,
}

/// Why a query does not match its metadata.
pub enum ValidationError {
    /// The number of parameters differs; it concerns the row type.
    ParamCount(String),
    /// The parameter at this position has an unsupported type; it concerns
    /// that field.
    ParamType(usize, String),
    /// A result column has an unsupported type; it concerns the row type.
    ColumnType(String),
}

/// The check a column's nullability hint calls for: non-null only where
/// the hint says so.
pub open spec fn row_check_of(notnull: Option<bool>) -> RowCheck {
    if notnull == Some(true) {
        RowCheck::NotNull
    } else {
        RowCheck::MaybeNull
    }
}

/// The first position of `names` whose type has no marker.
pub open spec fn first_unsupported(names: Seq<Seq<char>>) -> Option<int> {
    if exists|i: int| 0 <= i < names.len() && marker_of(#[trigger] names[i]) is None {
        Some(
            choose|i: int|
                0 <= i < names.len() && marker_of(names[i]) is None && forall|j: int|
                    0 <= j < i ==> marker_of(#[trigger] names[j]) is Some,
        )
    } else {
        None
    }
}

/// The parameter type names of a query.
pub open spec fn param_names(q: &Query) -> Seq<Seq<char>> {
    q.params@.map_values(|p: String| p@)
}

/// The result column type names of a query.
pub open spec fn column_types(q: &Query) -> Seq<Seq<char>> {
    q.columns@.map_values(|c: Column| c.column_type@)
}

/// The message for a parameter count that differs from the fields'.
pub open spec fn param_count_message(fields: nat, params: nat) -> Seq<char> {
    "Query parameter count mismatch: Rust struct has "@ + decimal(fields)
        + " fields but the sidecar expects "@ + decimal(params) + " parameters."@
}

/// The message for the parameter at position `i` with an unsupported type.
pub open spec fn param_type_message(i: int, t: Seq<char>) -> Seq<char> {
    "Unsupported SQL parameter type at position "@ + decimal((i + 1) as nat) + ": "@
        + unsupported_message(t)
}

/// The message for the result column at position `i` with an unsupported
/// type.
pub open spec fn column_type_message(i: int, name: Seq<char>, t: Seq<char>) -> Seq<char> {
    "Unsupported SQL result type for column `"@ + name + "` at position "@ + decimal(
        (i + 1) as nat,
    ) + ": "@ + unsupported_message(t)
}

proof fn lemma_first_unsupported(names: Seq<Seq<char>>, n: int)
    requires
        0 <= n <= names.len(),
        forall|j: int| 0 <= j < n ==> marker_of(#[trigger] names[j]) is Some,
        n < names.len() ==> marker_of(names[n]) is None,
    ensures
        first_unsupported(names) == if n < names.len() { Some(n) } else { None::<int> },
{
    if n < names.len() {
        let k = choose|i: int|
            0 <= i < names.len() && marker_of(names[i]) is None && forall|j: int|
                0 <= j < i ==> marker_of(#[trigger] names[j]) is Some;
        if k < n {
        } else if k > n {
            assert(marker_of(names[n]) is Some);
        }
    }
}

/// The checks a query with `field_count` parameter fields must pass
/// against its metadata. The counts must agree first; then every
/// parameter type, then every column type, must have a marker; the first
/// that has none is reported.
pub fn build_query_validation(field_count: usize, sidecar: &Query) -> (r: Result<QueryValidation, ValidationError>)
    ensures
        field_count != sidecar.params@.len() ==> (r matches Err(ValidationError::ParamCount(m)) && m@
            == param_count_message(field_count as nat, sidecar.params@.len())),
        field_count == sidecar.params@.len() ==> match first_unsupported(param_names(sidecar)) {
            Some(i) => r matches Err(ValidationError::ParamType(k, m)) && k == i && m@ == param_type_message(
                i,
                sidecar.params@[i]@,
            ),
            None => match first_unsupported(column_types(sidecar)) {
                Some(i) => r matches Err(ValidationError::ColumnType(m)) && m@ == column_type_message(
                    i,
                    sidecar.columns@[i].name@,
                    sidecar.columns@[i].column_type@,
                ),
                None => r matches Ok(v) && v.row_len == sidecar.columns@.len() && v.params@.len()
                    == sidecar.params@.len() && (forall|i: int|
                    0 <= i < v.params@.len() ==> Some(#[trigger] v.params@[i]) == marker_of(sidecar.params@[i]@))
                    && v.columns@.len() == sidecar.columns@.len() && (forall|i: int|
                    0 <= i < v.columns@.len() ==> (#[trigger] v.columns@[i]).index == i && Some(v.columns@[i].marker)
                        == marker_of(sidecar.columns@[i].column_type@) && v.columns@[i].check == row_check_of(
                        sidecar.columns@[i].notnull,
                    )),
            },
        },
{
    if sidecar.params.len() != field_count {
        let mut m = string_of("Query parameter count mismatch: Rust struct has ");
        push_str(&mut m, decimal_u64(field_count as u64).as_str());
        push_str(&mut m, " fields but the sidecar expects ");
        push_str(&mut m, decimal_u64(sidecar.params.len() as u64).as_str());
        push_str(&mut m, " parameters.");
        return Err(ValidationError::ParamCount(m));
    }
    let ghost pnames = param_names(sidecar);
    let mut params: Vec<SqlMarker> = Vec::new();
    let mut i: usize = 0;
    while i < sidecar.params.len()
        invariant
            i <= sidecar.params@.len(),
            field_count == sidecar.params@.len(),
            pnames == param_names(sidecar),
            params@.len() == i,
            forall|j: int| 0 <= j < i ==> Some(#[trigger] params@[j]) == marker_of(sidecar.params@[j]@),
            forall|j: int| 0 <= j < i ==> marker_of(#[trigger] pnames[j]) is Some,
        decreases sidecar.params.len() - i,
    {
        assert(pnames[i as int] == sidecar.params@[i as int]@);
        match sql_type_marker(sidecar.params[i].as_str()) {
            Ok(marker) => {
                params.push(marker);
            },
            Err(message) => {
                proof {
                    lemma_first_unsupported(pnames, i as int);
                }
                let mut m = string_of("Unsupported SQL parameter type at position ");
                push_str(&mut m, decimal_u64(i as u64 + 1).as_str());
                push_str(&mut m, ": ");
                push_str(&mut m, message.as_str());
                return Err(ValidationError::ParamType(i, m));
            },
        }
        i = i + 1;
    }
    proof {
        lemma_first_unsupported(pnames, pnames.len() as int);
    }
    let ghost ctypes = column_types(sidecar);
    let mut columns: Vec<ColumnCheck> = Vec::new();
    let mut k: usize = 0;
    while k < sidecar.columns.len()
        invariant
            k <= sidecar.columns@.len(),
            field_count == sidecar.params@.len(),
            first_unsupported(param_names(sidecar)) == None::<int>,
            params@.len() == sidecar.params@.len(),
            forall|j: int| 0 <= j < params@.len() ==> Some(#[trigger] params@[j]) == marker_of(sidecar.params@[j]@),
            ctypes == column_types(sidecar),
            columns@.len() == k,
            forall|j: int|
                0 <= j < k ==> (#[trigger] columns@[j]).index == j && Some(columns@[j].marker) == marker_of(
                    sidecar.columns@[j].column_type@,
                ) && columns@[j].check == row_check_of(sidecar.columns@[j].notnull),
            forall|j: int| 0 <= j < k ==> marker_of(#[trigger] ctypes[j]) is Some,
        decreases sidecar.columns.len() - k,
    {
        let column = &sidecar.columns[k];
        assert(ctypes[k as int] == column.column_type@);
        match sql_type_marker(column.column_type.as_str()) {
            Ok(marker) => {
                let check = match column.notnull {
                    Some(true) => RowCheck::NotNull,
                    Some(false) => RowCheck::MaybeNull,
                    None => RowCheck::MaybeNull,
                };
                columns.push(ColumnCheck { index: k, marker, check });
            },
            Err(message) => {
                proof {
                    lemma_first_unsupported(ctypes, k as int);
                }
                let mut m = string_of("Unsupported SQL result type for column `");
                push_str(&mut m, column.name.as_str());
                push_str(&mut m, "` at position ");
                push_str(&mut m, decimal_u64(k as u64 + 1).as_str());
                push_str(&mut m, ": ");
                push_str(&mut m, message.as_str());
                return Err(ValidationError::ColumnType(m));
            },
        }
        k = k + 1;
    }
    proof {
        lemma_first_unsupported(ctypes, ctypes.len() as int);
    }
    Ok(QueryValidation { params, row_len: sidecar.columns.len(), columns })
}

/// Whether a query's metadata holds the digest of its SQL.
pub open spec fn sidecar_current(sql: Seq<u8>, checksum: Seq<u8>) -> bool {
    checksum == sha512_digest(sql)
}

/// The metadata of a query file if it holds the digest of the SQL `sql`;
/// otherwise `Query sidecar file <file> is out of date. Run `tusker query
/// sync` to refresh it.`
pub fn check_sidecar(sql: &[u8], metadata: Query, json_file: &str) -> (r: Result<Query, String>)
    ensures
        sidecar_current(sql@, metadata.checksum@) ==> (r matches Ok(q) && q == metadata),
        !sidecar_current(sql@, metadata.checksum@) ==> (r matches Err(m) && m@ == "Query sidecar file "@
            + json_file@ + " is out of date. Run `tusker query sync` to refresh it."@),
{
    let checksum = sha512(sql);
    if bytes_equal(&metadata.checksum, &checksum) {
        Ok(metadata)
    } else {
        let mut m = string_of("Query sidecar file ");
        push_str(&mut m, json_file);
        push_str(&mut m, " is out of date. Run `tusker query sync` to refresh it.");
        Err(m)
    }
}

/// Metadata made from a query's SQL is current for that SQL, and for no SQL
/// with another digest.
pub proof fn lemma_fresh_metadata_current(sql: Seq<u8>, other: Seq<u8>)
    ensures
        sidecar_current(sql, sha512_digest(sql)),
        sidecar_current(other, sha512_digest(sql)) <==> sha512_digest(other) == sha512_digest(sql),
{
}

fn bytes_equal(a: &Vec<u8>, b: &Vec<u8>) -> (r: bool)
    ensures
        r == (a@ == b@),
{
    if a.len() != b.len() {
        return false;
    }
    let mut i: usize = 0;
    while i < a.len()
        invariant
            i <= a@.len(),
            a@.len() == b@.len(),
            forall|j: int| 0 <= j < i ==> a@[j] == b@[j],
        decreases a.len() - i,
    {
        if a[i] != b[i] {
            return false;
        }
        i = i + 1;
    }
    assert(a@ =~= b@);
    true
}

/// The metadata of the query with SQL text `sql` (its bytes), the type
/// names of its parameters and its result columns: the checksum is the
/// SQL's SHA-512 digest.
pub fn query_metadata(sql: &[u8], params: Vec<String>, columns: Vec<Column>) -> (q: Query)
    ensures
        q.checksum@ == sha512_digest(sql@),
        q.params@ == params@,
        q.columns@ == columns@,
{
    Query { checksum: sha512(sql), params, columns }
}

/// What writing a query's metadata file did.
#[derive(Debug, Clone, Copy, PartialEq, Eq, Structural)]
pub enum WriteStatus {
    Created,
    Updated,
    Unchanged,
}

impl WriteStatus {
    /// `created`, `updated` or `unchanged`.
    pub fn label(self) -> (r: &'static str)
        ensures
            r@ == match self {
                WriteStatus::Created => "created"@,
                WriteStatus::Updated => "updated"@,
                WriteStatus::Unchanged => "unchanged"@,
            },
    {
        match self {
            WriteStatus::Created => "created",
            WriteStatus::Updated => "updated",
            WriteStatus::Unchanged => "unchanged",
        }
    }
}

/// What writing `rendered` over a file does: the file is created where
/// there is none (`None`), left alone where it holds `rendered`, and
/// updated otherwise.
pub fn write_status(existing: Option<&str>, rendered: &str) -> (r: WriteStatus)
    ensures
        r == match existing {
            None => WriteStatus::Created,
            Some(e) => if e@ == rendered@ {
                WriteStatus::Unchanged
            } else {
                WriteStatus::Updated
            },
        },
{
    match existing {
        None => WriteStatus::Created,
        Some(e) => if str_eq(e, rendered) {
            WriteStatus::Unchanged
        } else {
            WriteStatus::Updated
        },
    }
}

} // verus!
