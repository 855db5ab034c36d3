//! Standalone indexes.
use vstd::prelude::*;
use crate::rows::IndexRow;
use crate::diff::{
    ChangeType, Diff, DiffSql, SqlObject, diff_sql_defined, diff_sql_spec, push_stmt, render_diff,
    single_stmt, stmts_view,
};
use crate::order::{Keyed, lemma_single_key_eq, single_le};
use crate::sql::{push_qualified, qualified_spec};
use crate::text::{push_str, trim_end, trimmed_end};

verus! {

/// An index and the statement that defines it.
#[derive(Debug, Clone, PartialEq, Eq)]
pub struct Index {
    pub schema: String,
    pub table_name: String,
    pub name: String,
    pub definition: String,
}

/// Whether two indexes are equal field by field.
pub open spec fn same_index(a: &Index, b: &Index) -> bool {
    a.schema@ == b.schema@ && a.table_name@ == b.table_name@ && a.name@ == b.name@
        && a.definition@ == b.definition@
}

/// `definition` without trailing newlines and then without trailing
/// semicolons, followed by exactly one `;` and a newline.
pub open spec fn terminated_statement(definition: Seq<char>) -> Seq<char> {
    trim_end(trim_end(definition, '\n'), ';') + ";\n"@
}

/// The index's definition as a complete statement.
pub open spec fn index_create_sql(i: &Index) -> Seq<char> {
    terminated_statement(i.definition@)
}

/// `DROP INDEX "schema"."name";` and a newline.
pub open spec fn index_drop_sql(i: &Index) -> Seq<char> {
    "DROP INDEX "@ + qualified_spec(i.schema@, i.name@) + ";\n"@
}

/// Two indexes count as unchanged exactly when schema, table, name and
/// definition are all the same.
pub proof fn lemma_index_same_fields(a: &Index, b: &Index)
    ensures
        a.same(b) <==> (a.schema@ == b.schema@ && a.table_name@ == b.table_name@ && a.name@ == b.name@
            && a.definition@ == b.definition@),
{
}

/// An index is dropped by its qualified name, and created by its
/// definition as one statement ending in `;` and a newline.
pub proof fn lemma_index_statement_forms(i: &Index)
    ensures
        index_drop_sql(i) == "DROP INDEX "@ + qualified_spec(i.schema@, i.name@) + ";\n"@,
        crate::text::ends_with(index_create_sql(i), ";\n"@),
{
    let s = index_create_sql(i);
    let e = ";\n"@;
    assert(s.skip(s.len() - e.len()) =~= e);
}

/// `definition` as a complete statement: trailing newlines, then trailing
/// semicolons removed, then `;` and a newline appended.
pub fn terminate_statement(definition: &str) -> (r: String)
    ensures
        r@ == terminated_statement(definition@),
{
    let a = trimmed_end(definition, '\n');
    let mut b = trimmed_end(a.as_str(), ';');
    push_str(&mut b, ";\n");
    b
}

impl Keyed for Index {
    open spec fn key(&self) -> Seq<Seq<char>> {
        seq![self.name@]
    }

    fn same_key(&self, other: &Self) -> (r: bool) {
        proof {
            lemma_single_key_eq(self.name@, other.name@);
        }
        self.name == other.name
    }

    fn key_before_eq(&self, other: &Self) -> (r: bool) {
        single_le(self.name.as_str(), other.name.as_str())
    }
}

impl Index {
    /// The statement that creates this index.
    pub fn create_sql(&self) -> (r: String)
        ensures
            r@ == index_create_sql(self),
    {
        terminate_statement(self.definition.as_str())
    }

    /// The statement that drops this index.
    pub fn drop_sql(&self) -> (r: String)
        ensures
            r@ == index_drop_sql(self),
    {
        let mut s = String::new();
        push_str(&mut s, "DROP INDEX ");
        push_qualified(&mut s, self.schema.as_str(), self.name.as_str());
        push_str(&mut s, ";\n");
        s
    }
}

impl Index {
    /// An index from its catalog row.
    pub fn from_row(row: IndexRow) -> (i: Index)
        ensures
            i.schema@ == row.schema@,
            i.table_name@ == row.table_name@,
            i.name@ == row.name@,
            i.definition@ == row.definition@,
    {
        Index {
            schema: row.schema,
            table_name: row.table_name,
            name: row.name,
            definition: row.definition,
        }
    }
}

impl SqlObject for Index {
    open spec fn same(&self, other: &Self) -> bool {
        same_index(self, other)
    }

    open spec fn drop_view(&self) -> Seq<(ChangeType, Seq<char>)> {
        seq![(ChangeType::DropIndex, index_drop_sql(self))]
    }

    /// A changed index is dropped and created again.
    open spec fn change_view(&self, previous: &Self) -> Seq<(ChangeType, Seq<char>)> {
        seq![
            (ChangeType::DropIndex, index_drop_sql(previous)),
            (ChangeType::CreateIndex, index_create_sql(self)),
        ]
    }

    open spec fn change_defined(&self, previous: &Self) -> bool {
        true
    }

    open spec fn create_view(&self) -> Seq<(ChangeType, Seq<char>)> {
        seq![(ChangeType::CreateIndex, index_create_sql(self))]
    }

    proof fn lemma_same_refl(&self) {
    }

    fn same_as(&self, other: &Self) -> (r: bool) {
        self.schema == other.schema && self.table_name == other.table_name && self.name
            == other.name && self.definition == other.definition
    }

    fn drop_stmts(&self) -> (r: Vec<(ChangeType, String)>) {
        single_stmt(ChangeType::DropIndex, self.drop_sql())
    }

    fn change_stmts(&self, previous: &Self) -> (r: Vec<(ChangeType, String)>) {
        let mut v = single_stmt(ChangeType::DropIndex, previous.drop_sql());
        push_stmt(&mut v, ChangeType::CreateIndex, self.create_sql());
        assert(stmts_view(v@) =~= self.change_view(previous));
        v
    }

    fn create_stmts(&self) -> (r: Vec<(ChangeType, String)>) {
        single_stmt(ChangeType::CreateIndex, self.create_sql())
    }
}

impl<'a> DiffSql for Diff<'a, Index> {
    open spec fn sql_defined(&self) -> bool {
        diff_sql_defined(self)
    }

    /// Drops of removed indexes, drop-and-create of changed ones, creations
    /// of new ones.
    fn sql(&self) -> (r: Vec<(ChangeType, String)>)
        ensures
            stmts_view(r@) == diff_sql_spec(self),
    {
        render_diff(self)
    }
}

} // verus!
