//! Table constraints.
use vstd::prelude::*;
use crate::rows::ConstraintRow;
use crate::diff::{
    ChangeType, Diff, DiffSql, SqlObject, changes_of, diff_sql_defined, diff_sql_spec, push_stmt, render_diff,
    single_stmt, stmts_view,
};
use crate::order::{Keyed, lemma_pair_key_eq, pair_le};
use crate::sql::{push_ident, push_qualified, qualified_spec, quote_ident_spec};
use crate::text::{ends_with, push_str, starts_with, str_eq, string_of};

verus! {

/// Constraint kinds supported by the diff engine, in creation order:
/// foreign keys come last as they depend on unique constraints or primary
/// keys.
#[derive(Debug, Clone, Copy, PartialEq, Eq, PartialOrd, Ord, Structural)]
pub enum ConstraintType {
    /// `CHECK (...)`
    Check,
    /// Named `NOT NULL` constraint metadata.
    NotNull,
    /// `PRIMARY KEY`
    PrimaryKey,
    /// `UNIQUE`
    Unique,
    /// Trigger-backed constraint metadata.
    Trigger,
    /// `EXCLUDE`
    Exclusion,
    /// `FOREIGN KEY`
    ForeignKey,
}

/// The position of a constraint type in creation order.
pub open spec fn constraint_type_rank(t: ConstraintType) -> nat {
    match t {
        ConstraintType::Check => 0,
        ConstraintType::NotNull => 1,
        ConstraintType::PrimaryKey => 2,
        ConstraintType::Unique => 3,
        ConstraintType::Trigger => 4,
        ConstraintType::Exclusion => 5,
        ConstraintType::ForeignKey => 6,
    }
}

/// The constraint type a `pg_constraint.contype` code stands for.
pub open spec fn constraint_type_of_code(code: Seq<char>) -> Option<ConstraintType> {
    if code == "c"@ {
        Some(ConstraintType::Check)
    } else if code == "n"@ {
        Some(ConstraintType::NotNull)
    } else if code == "f"@ {
        Some(ConstraintType::ForeignKey)
    } else if code == "p"@ {
        Some(ConstraintType::PrimaryKey)
    } else if code == "u"@ {
        Some(ConstraintType::Unique)
    } else if code == "t"@ {
        Some(ConstraintType::Trigger)
    } else if code == "x"@ {
        Some(ConstraintType::Exclusion)
    } else {
        None
    }
}

/// The `pg_constraint.contype` code of a constraint type.
pub open spec fn constraint_type_code(t: ConstraintType) -> Seq<char> {
    match t {
        ConstraintType::Check => "c"@,
        ConstraintType::NotNull => "n"@,
        ConstraintType::PrimaryKey => "p"@,
        ConstraintType::Unique => "u"@,
        ConstraintType::Trigger => "t"@,
        ConstraintType::Exclusion => "x"@,
        ConstraintType::ForeignKey => "f"@,
    }
}

/// Each constraint type is read from its own `contype` code, and a code
/// that is read is the code of the type it gives.
pub proof fn lemma_constraint_code_roundtrip(t: ConstraintType, code: Seq<char>)
    ensures
        constraint_type_of_code(constraint_type_code(t)) == Some(t),
        constraint_type_of_code(code) == Some(t) ==> code == constraint_type_code(t),
{
    reveal_strlit("c");
    reveal_strlit("n");
    reveal_strlit("p");
    reveal_strlit("u");
    reveal_strlit("t");
    reveal_strlit("x");
    reveal_strlit("f");
    assert("c"@[0] == 'c' && "n"@[0] == 'n' && "p"@[0] == 'p' && "u"@[0] == 'u' && "t"@[0] == 't' && "x"@[0] == 'x' && "f"@[0] == 'f');
}

/// Constraints are created in rank order and dropped in the reverse order;
/// distinct types have distinct ranks, and foreign keys, which depend on
/// unique constraints and primary keys, come after every other type.
pub proof fn lemma_constraint_rank_order(t: ConstraintType, u: ConstraintType)
    ensures
        t != u ==> constraint_type_rank(t) != constraint_type_rank(u),
        t != ConstraintType::ForeignKey ==> constraint_type_rank(t) < constraint_type_rank(ConstraintType::ForeignKey),
        constraint_type_rank(ConstraintType::PrimaryKey) < constraint_type_rank(ConstraintType::ForeignKey),
        (crate::diff::change_rank(ChangeType::CreateConstraint(t)) < crate::diff::change_rank(ChangeType::CreateConstraint(u)))
            == (constraint_type_rank(t) < constraint_type_rank(u)),
        (crate::diff::change_rank(ChangeType::DropConstraint(t)) < crate::diff::change_rank(ChangeType::DropConstraint(u)))
            == (constraint_type_rank(u) < constraint_type_rank(t)),
{
}

impl ConstraintType {
    /// The position of this constraint type in creation order.
    pub fn rank(&self) -> (r: u8)
        ensures
            r as nat == constraint_type_rank(*self),
            r <= 6,
    {
        match self {
            ConstraintType::Check => 0,
            ConstraintType::NotNull => 1,
            ConstraintType::PrimaryKey => 2,
            ConstraintType::Unique => 3,
            ConstraintType::Trigger => 4,
            ConstraintType::Exclusion => 5,
            ConstraintType::ForeignKey => 6,
        }
    }

    /// Decodes a `pg_constraint.contype` code; an unknown code gives the
    /// message `Unsupported contype: <code>`.
    pub fn from_code(code: &str) -> (r: Result<ConstraintType, String>)
        ensures
            match constraint_type_of_code(code@) {
                Some(t) => r == Ok::<ConstraintType, String>(t),
                None => r.is_err() && r->Err_0@ == "Unsupported contype: "@ + code@,
            },
    {
        if str_eq(code, "c") {
            Ok(ConstraintType::Check)
        } else if str_eq(code, "n") {
            Ok(ConstraintType::NotNull)
        } else if str_eq(code, "f") {
            Ok(ConstraintType::ForeignKey)
        } else if str_eq(code, "p") {
            Ok(ConstraintType::PrimaryKey)
        } else if str_eq(code, "u") {
            Ok(ConstraintType::Unique)
        } else if str_eq(code, "t") {
            Ok(ConstraintType::Trigger)
        } else if str_eq(code, "x") {
            Ok(ConstraintType::Exclusion)
        } else {
            let mut m = string_of("Unsupported contype: ");
            push_str(&mut m, code);
            Err(m)
        }
    }
}

/// A table constraint as returned by catalog inspection.
#[derive(Debug, PartialEq, Eq)]
pub struct Constraint {
    /// Schema that owns the constrained table.
    pub schema: String,
    /// Table name that owns the constraint.
    pub table: String,
    /// Constraint name.
    pub name: String,
    /// Constraint classification used for ordering.
    pub constraint_type: ConstraintType,
    /// Raw constraint definition.
    pub definition: String,
}

/// Whether two constraints are equal field by field.
pub open spec fn same_constraint(a: &Constraint, b: &Constraint) -> bool {
    a.schema@ == b.schema@ && a.table@ == b.table@ && a.name@ == b.name@ && a.constraint_type == b.constraint_type
        && a.definition@ == b.definition@
}

/// `ALTER TABLE "schema"."table" ADD CONSTRAINT "name" <definition>;` and a
/// newline.
pub open spec fn constraint_create_sql(c: &Constraint) -> Seq<char> {
    "ALTER TABLE "@ + qualified_spec(c.schema@, c.table@) + " ADD CONSTRAINT "@ + quote_ident_spec(
        c.name@,
    ) + " "@ + c.definition@ + ";\n"@
}

/// `ALTER TABLE "schema"."table" DROP CONSTRAINT "name";` and a newline.
pub open spec fn constraint_drop_sql(c: &Constraint) -> Seq<char> {
    "ALTER TABLE "@ + qualified_spec(c.schema@, c.table@) + " DROP CONSTRAINT "@ + quote_ident_spec(
        c.name@,
    ) + ";\n"@
}

/// A matched constraint counts as unchanged exactly when every field,
/// the definition included, is the same; a changed one is dropped from its
/// table and added again with the new definition, in that order.
pub proof fn lemma_constraint_change<'a>(a: &'a Constraint, b: &'a Constraint)
    ensures
        a.same(b) <==> (a.schema@ == b.schema@ && a.table@ == b.table@ && a.name@ == b.name@
            && a.constraint_type == b.constraint_type && a.definition@ == b.definition@),
        a.definition@ != b.definition@ ==> changes_of(seq![(a, b)]).len() == 2,
        !a.same(b) ==> changes_of(seq![(a, b)]) == seq![
            (ChangeType::DropConstraint(a.constraint_type), constraint_drop_sql(a)),
            (ChangeType::CreateConstraint(b.constraint_type), constraint_create_sql(b)),
        ],
        a.same(b) ==> changes_of(seq![(a, b)]).len() == 0,
        starts_with(constraint_drop_sql(a), "ALTER TABLE "@ + qualified_spec(a.schema@, a.table@) + " DROP CONSTRAINT "@),
        starts_with(constraint_create_sql(b), "ALTER TABLE "@ + qualified_spec(b.schema@, b.table@) + " ADD CONSTRAINT "@),
        ends_with(constraint_create_sql(b), " "@ + b.definition@ + ";\n"@),
{
    let p = seq![(a, b)];
    assert(p.drop_last() =~= Seq::<(&'a Constraint, &'a Constraint)>::empty());
    assert(p.last() == (a, b));
    let none = Seq::<(&'a Constraint, &'a Constraint)>::empty();
    assert(changes_of(none) == Seq::<(ChangeType, Seq<char>)>::empty());
    if a.same(b) {
        assert(changes_of(p) =~= Seq::<(ChangeType, Seq<char>)>::empty());
    } else {
        assert(changes_of(p) =~= b.change_view(a));
    }
    let d = constraint_drop_sql(a);
    let dh = "ALTER TABLE "@ + qualified_spec(a.schema@, a.table@) + " DROP CONSTRAINT "@;
    assert(d =~= dh + (quote_ident_spec(a.name@) + ";\n"@));
    assert(d.take(dh.len() as int) =~= dh);
    let c = constraint_create_sql(b);
    let ch = "ALTER TABLE "@ + qualified_spec(b.schema@, b.table@) + " ADD CONSTRAINT "@;
    let ct = " "@ + b.definition@ + ";\n"@;
    assert(c =~= ch + quote_ident_spec(b.name@) + ct);
    assert(c.take(ch.len() as int) =~= ch);
    assert(c.skip(c.len() - ct.len()) =~= ct);
}

impl Keyed for Constraint {
    open spec fn key(&self) -> Seq<Seq<char>> {
        seq![self.table@, self.name@]
    }

    fn same_key(&self, other: &Self) -> (r: bool) {
        proof {
            lemma_pair_key_eq(self.table@, self.name@, other.table@, other.name@);
        }
        self.table == other.table && self.name == other.name
    }

    fn key_before_eq(&self, other: &Self) -> (r: bool) {
        pair_le(self.table.as_str(), self.name.as_str(), other.table.as_str(), other.name.as_str())
    }
}

impl Constraint {
    /// The statement that adds this constraint.
    pub fn create_sql(&self) -> (r: String)
        ensures
            r@ == constraint_create_sql(self),
    {
        let mut s = String::new();
        push_str(&mut s, "ALTER TABLE ");
        push_qualified(&mut s, self.schema.as_str(), self.table.as_str());
        push_str(&mut s, " ADD CONSTRAINT ");
        push_ident(&mut s, self.name.as_str());
        push_str(&mut s, " ");
        push_str(&mut s, self.definition.as_str());
        push_str(&mut s, ";\n");
        s
    }

    /// The statement that drops this constraint.
    pub fn drop_sql(&self) -> (r: String)
        ensures
            r@ == constraint_drop_sql(self),
    {
        let mut s = String::new();
        push_str(&mut s, "ALTER TABLE ");
        push_qualified(&mut s, self.schema.as_str(), self.table.as_str());
        push_str(&mut s, " DROP CONSTRAINT ");
        push_ident(&mut s, self.name.as_str());
        push_str(&mut s, ";\n");
        s
    }
}

impl Constraint {
    /// The constraint a catalog row describes, in schema `schema`; named
    /// `NOT NULL` constraints are left out (`None`).
    pub fn from_row(schema: &str, row: ConstraintRow) -> (c: Option<Constraint>)
        ensures
            match c {
                Some(c) => {
                    &&& row.constraint_type != ConstraintType::NotNull
                    &&& c.schema@ == schema@
                    &&& c.table@ == row.table@
                    &&& c.name@ == row.name@
                    &&& c.constraint_type == row.constraint_type
                    &&& c.definition@ == row.def@
                },
                None => row.constraint_type == ConstraintType::NotNull,
            },
    {
        if row.constraint_type == ConstraintType::NotNull {
            return None;
        }
        Some(
            Constraint {
                schema: string_of(schema),
                table: row.table,
                name: row.name,
                constraint_type: row.constraint_type,
                definition: row.def,
            },
        )
    }
}

impl SqlObject for Constraint {
    open spec fn same(&self, other: &Self) -> bool {
        same_constraint(self, other)
    }

    open spec fn drop_view(&self) -> Seq<(ChangeType, Seq<char>)> {
        seq![(ChangeType::DropConstraint(self.constraint_type), constraint_drop_sql(self))]
    }

    /// A changed constraint is dropped and added again.
    open spec fn change_view(&self, previous: &Self) -> Seq<(ChangeType, Seq<char>)> {
        seq![
            (ChangeType::DropConstraint(previous.constraint_type), constraint_drop_sql(previous)),
            (ChangeType::CreateConstraint(self.constraint_type), constraint_create_sql(self)),
        ]
    }

    open spec fn change_defined(&self, previous: &Self) -> bool {
        true
    }

    open spec fn create_view(&self) -> Seq<(ChangeType, Seq<char>)> {
        seq![(ChangeType::CreateConstraint(self.constraint_type), constraint_create_sql(self))]
    }

    proof fn lemma_same_refl(&self) {
    }

    fn same_as(&self, other: &Self) -> (r: bool) {
        self.schema == other.schema && self.table == other.table && self.name == other.name
            && self.constraint_type.rank() == other.constraint_type.rank() && self.definition == other.definition
    }

    fn drop_stmts(&self) -> (r: Vec<(ChangeType, String)>) {
        single_stmt(ChangeType::DropConstraint(self.constraint_type), self.drop_sql())
    }

    fn change_stmts(&self, previous: &Self) -> (r: Vec<(ChangeType, String)>) {
        let mut v = single_stmt(ChangeType::DropConstraint(previous.constraint_type), previous.drop_sql());
        push_stmt(&mut v, ChangeType::CreateConstraint(self.constraint_type), self.create_sql());
        assert(stmts_view(v@) =~= self.change_view(previous));
        v
    }

    fn create_stmts(&self) -> (r: Vec<(ChangeType, String)>) {
        single_stmt(ChangeType::CreateConstraint(self.constraint_type), self.create_sql())
    }
}

impl<'a> DiffSql for Diff<'a, Constraint> {
    open spec fn sql_defined(&self) -> bool {
        diff_sql_defined(self)
    }

    /// Drops of removed constraints, drop-and-add of changed ones,
    /// additions of new ones.
    fn sql(&self) -> (r: Vec<(ChangeType, String)>)
        ensures
            stmts_view(r@) == diff_sql_spec(self),
    {
        render_diff(self)
    }
}

} // verus!
