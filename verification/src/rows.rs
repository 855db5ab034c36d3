//! Catalog rows as the inspection queries return them, and the codes that
//! the catalog uses for relation and routine kinds.
use vstd::prelude::*;

verus! {

/// `pg_class.relkind`.
#[derive(Debug, Clone, Copy, PartialEq, Eq, Structural)]
pub enum Relkind {
    OrdinaryTable,
    Index,
    Sequence,
    ToastTable,
    View,
    MaterializedView,
    CompositeType,
    ForeignTable,
    PartitionedTable,
    PartitionedIndex,
}

/// A `relkind` code that is not supported.
#[derive(Debug, PartialEq, Eq)]
pub struct UnsupportedRelkind(pub Vec<u8>);

/// The relation kind a raw `relkind` value stands for. Foreign tables
/// (`f`) are not decoded.
pub open spec fn relkind_of_code(raw: Seq<u8>) -> Option<Relkind> {
    if raw == seq![114u8] {
        Some(Relkind::OrdinaryTable)
    } else if raw == seq![105u8] {
        Some(Relkind::Index)
    } else if raw == seq![83u8] {
        Some(Relkind::Sequence)
    } else if raw == seq![116u8] {
        Some(Relkind::ToastTable)
    } else if raw == seq![118u8] {
        Some(Relkind::View)
    } else if raw == seq![109u8] {
        Some(Relkind::MaterializedView)
    } else if raw == seq![99u8] {
        Some(Relkind::CompositeType)
    } else if raw == seq![112u8] {
        Some(Relkind::PartitionedTable)
    } else if raw == seq![73u8] {
        Some(Relkind::PartitionedIndex)
    } else {
        None
    }
}

/// The one-letter code of a relation kind.
pub open spec fn relkind_code(k: Relkind) -> Seq<char> {
    match k {
        Relkind::OrdinaryTable => "r"@,
        Relkind::Index => "i"@,
        Relkind::Sequence => "S"@,
        Relkind::ToastTable => "t"@,
        Relkind::View => "v"@,
        Relkind::MaterializedView => "m"@,
        Relkind::CompositeType => "c"@,
        Relkind::ForeignTable => "f"@,
        Relkind::PartitionedTable => "p"@,
        Relkind::PartitionedIndex => "I"@,
    }
}

/// One-byte sequences are equal exactly when their bytes are.
proof fn lemma_one_byte(a: u8, b: u8)
    ensures
        (seq![a] == seq![b]) == (a == b),
{
    if seq![a] == seq![b] {
        assert(seq![a][0] == seq![b][0]);
    }
}

/// Decoding a relation kind's one-letter code gives that kind back, and a
/// code that decodes is the code of the kind it decodes to. Foreign tables
/// are the one kind not read: their code `f` is refused.
pub proof fn lemma_relkind_code_roundtrip(k: Relkind, raw: Seq<u8>)
    ensures
        relkind_code(k).len() == 1,
        k != Relkind::ForeignTable ==> relkind_of_code(seq![relkind_code(k)[0] as u8]) == Some(k),
        relkind_of_code(raw) == Some(k) ==> raw == seq![relkind_code(k)[0] as u8],
        relkind_of_code(seq![102u8]) is None,
{
    reveal_strlit("r");
    reveal_strlit("i");
    reveal_strlit("S");
    reveal_strlit("t");
    reveal_strlit("v");
    reveal_strlit("m");
    reveal_strlit("c");
    reveal_strlit("f");
    reveal_strlit("p");
    reveal_strlit("I");
    let c = relkind_code(k)[0] as u8;
    lemma_one_byte(c, 114u8);
    lemma_one_byte(c, 105u8);
    lemma_one_byte(c, 83u8);
    lemma_one_byte(c, 116u8);
    lemma_one_byte(c, 118u8);
    lemma_one_byte(c, 109u8);
    lemma_one_byte(c, 99u8);
    lemma_one_byte(c, 112u8);
    lemma_one_byte(c, 73u8);
    lemma_foreign_table_code_refused();
}

proof fn lemma_foreign_table_code_refused()
    ensures
        relkind_of_code(seq![102u8]) is None,
{
    lemma_one_byte(102u8, 114u8);
    lemma_one_byte(102u8, 105u8);
    lemma_one_byte(102u8, 83u8);
    lemma_one_byte(102u8, 116u8);
    lemma_one_byte(102u8, 118u8);
    lemma_one_byte(102u8, 109u8);
    lemma_one_byte(102u8, 99u8);
    lemma_one_byte(102u8, 112u8);
    lemma_one_byte(102u8, 73u8);
}

/// Whether `raw` is the single byte `b`.
fn is_byte(raw: &[u8], b: u8) -> (r: bool)
    ensures
        r == (raw@ == seq![b]),
{
    if raw.len() == 1 && raw[0] == b {
        assert(raw@ =~= seq![b]);
        true
    } else {
        proof {
            if raw@ == seq![b] {
                assert(raw@.len() == 1 && raw@[0] == b);
            }
        }
        false
    }
}

/// A copy of a byte slice.
pub fn bytes_of(raw: &[u8]) -> (r: Vec<u8>)
    ensures
        r@ == raw@,
{
    let mut v: Vec<u8> = Vec::new();
    for i in 0..raw.len()
        invariant
            v@ == raw@.take(i as int),
    {
        v.push(raw[i]);
        assert(v@ =~= raw@.take(i + 1));
    }
    assert(raw@.take(raw@.len() as int) =~= raw@);
    v
}

impl Relkind {
    /// Decodes a raw `relkind` value.
    pub fn from_code(raw: &[u8]) -> (r: Result<Relkind, UnsupportedRelkind>)
        ensures
            match relkind_of_code(raw@) {
                Some(k) => r == Ok::<Relkind, UnsupportedRelkind>(k),
                None => r.is_err() && r->Err_0.0@ == raw@,
            },
    {
        if is_byte(raw, 114) {
            Ok(Relkind::OrdinaryTable)
        } else if is_byte(raw, 105) {
            Ok(Relkind::Index)
        } else if is_byte(raw, 83) {
            Ok(Relkind::Sequence)
        } else if is_byte(raw, 116) {
            Ok(Relkind::ToastTable)
        } else if is_byte(raw, 118) {
            Ok(Relkind::View)
        } else if is_byte(raw, 109) {
            Ok(Relkind::MaterializedView)
        } else if is_byte(raw, 99) {
            Ok(Relkind::CompositeType)
        } else if is_byte(raw, 112) {
            Ok(Relkind::PartitionedTable)
        } else if is_byte(raw, 73) {
            Ok(Relkind::PartitionedIndex)
        } else {
            Err(UnsupportedRelkind(bytes_of(raw)))
        }
    }

    /// The one-letter code of this relation kind.
    pub fn code(&self) -> (r: &'static str)
        ensures
            r@ == relkind_code(*self),
    {
        match self {
            Relkind::OrdinaryTable => "r",
            Relkind::Index => "i",
            Relkind::Sequence => "S",
            Relkind::ToastTable => "t",
            Relkind::View => "v",
            Relkind::MaterializedView => "m",
            Relkind::CompositeType => "c",
            Relkind::ForeignTable => "f",
            Relkind::PartitionedTable => "p",
            Relkind::PartitionedIndex => "I",
        }
    }
}

/// `pg_proc.prokind`.
#[derive(Debug, Clone, Copy, PartialEq, Eq, Structural)]
pub enum RoutineKind {
    Function,
    Procedure,
    Aggregate,
    Window,
}

/// A `prokind` code that is not supported.
#[derive(Debug, PartialEq, Eq)]
pub struct UnsupportedRoutineKind(pub Vec<u8>);

/// The routine kind a raw `prokind` value stands for.
pub open spec fn routine_kind_of_code(raw: Seq<u8>) -> Option<RoutineKind> {
    if raw == seq![102u8] {
        Some(RoutineKind::Function)
    } else if raw == seq![112u8] {
        Some(RoutineKind::Procedure)
    } else if raw == seq![97u8] {
        Some(RoutineKind::Aggregate)
    } else if raw == seq![119u8] {
        Some(RoutineKind::Window)
    } else {
        None
    }
}

/// The `prokind` code of a routine kind: `f` function, `p` procedure,
/// `a` aggregate, `w` window function.
pub open spec fn routine_kind_code(k: RoutineKind) -> u8 {
    match k {
        RoutineKind::Function => 102u8,
        RoutineKind::Procedure => 112u8,
        RoutineKind::Aggregate => 97u8,
        RoutineKind::Window => 119u8,
    }
}

/// Each routine kind is read from its own `prokind` code, and a code that
/// is read is the code of the kind it gives.
pub proof fn lemma_routine_kind_code_roundtrip(k: RoutineKind, raw: Seq<u8>)
    ensures
        routine_kind_of_code(seq![routine_kind_code(k)]) == Some(k),
        routine_kind_of_code(raw) == Some(k) ==> raw == seq![routine_kind_code(k)],
{
    let c = routine_kind_code(k);
    lemma_one_byte(c, 102u8);
    lemma_one_byte(c, 112u8);
    lemma_one_byte(c, 97u8);
    lemma_one_byte(c, 119u8);
}

impl RoutineKind {
    /// Decodes a raw `prokind` value.
    pub fn from_code(raw: &[u8]) -> (r: Result<RoutineKind, UnsupportedRoutineKind>)
        ensures
            match routine_kind_of_code(raw@) {
                Some(k) => r == Ok::<RoutineKind, UnsupportedRoutineKind>(k),
                None => r.is_err() && r->Err_0.0@ == raw@,
            },
    {
        if is_byte(raw, 102) {
            Ok(RoutineKind::Function)
        } else if is_byte(raw, 112) {
            Ok(RoutineKind::Procedure)
        } else if is_byte(raw, 97) {
            Ok(RoutineKind::Aggregate)
        } else if is_byte(raw, 119) {
            Ok(RoutineKind::Window)
        } else {
            Err(UnsupportedRoutineKind(bytes_of(raw)))
        }
    }
}

/// A schema name.
#[derive(Debug)]
pub struct SchemaRow {
    pub name: String,
}

/// A relation of a schema: table, view, index, and so on.
#[derive(Debug)]
pub struct Class {
    pub schema: String,
    pub name: String,
    pub relkind: Relkind,
    pub viewdef: Option<String>,
}

/// A table constraint.
#[derive(Debug)]
pub struct ConstraintRow {
    pub table: String,
    pub name: String,
    pub constraint_type: crate::models::constraint::ConstraintType,
    pub def: String,
}

/// A routine and the routines its body depends on.
#[derive(Debug)]
pub struct RoutineRow {
    pub schema: String,
    pub name: String,
    pub kind: RoutineKind,
    pub identity_arguments: String,
    pub definition: String,
    pub dependencies: Vec<RoutineDependencyRow>,
}

/// A routine that another routine depends on.
#[derive(Debug, Clone, PartialEq, Eq)]
pub struct RoutineDependencyRow {
    pub schema: String,
    pub name: String,
    pub identity_arguments: String,
}

/// An enum type and its labels in sort order.
#[derive(Debug)]
pub struct EnumRow {
    pub schema: String,
    pub name: String,
    pub labels: Vec<String>,
}

/// A domain, with its constraints as two parallel lists.
#[derive(Debug)]
pub struct DomainRow {
    pub schema: String,
    pub name: String,
    pub base_type: String,
    pub default: Option<String>,
    pub notnull: bool,
    pub constraint_names: Vec<String>,
    pub constraint_definitions: Vec<String>,
}

/// An installed extension.
#[derive(Debug)]
pub struct ExtensionRow {
    pub schema: String,
    pub name: String,
    pub version: String,
}

/// An index.
#[derive(Debug)]
pub struct IndexRow {
    pub schema: String,
    pub table_name: String,
    pub name: String,
    pub definition: String,
}

/// A trigger.
#[derive(Debug)]
pub struct TriggerRow {
    pub schema: String,
    pub table_name: String,
    pub name: String,
    pub definition: String,
    pub enabled: String,
}

} // verus!
