//! PostgreSQL extensions.
use vstd::prelude::*;
use crate::rows::ExtensionRow;
use crate::diff::{
    ChangeType, Diff, DiffSql, SqlObject, diff_sql_defined, diff_sql_spec, push_stmt, render_diff,
    single_stmt, stmts_view,
};
use crate::order::{Keyed, lemma_single_key_eq, single_le};
use crate::sql::{push_ident, quote_ident_spec};
use crate::text::{escape_quote, push_escaped, push_str};

verus! {

/// An installed extension.
#[derive(Debug, Clone, PartialEq, Eq)]
pub struct Extension {
    pub schema: String,
    pub name: String,
    pub version: String,
}

/// Whether two extensions are equal field by field.
pub open spec fn same_extension(a: &Extension, b: &Extension) -> bool {
    a.schema@ == b.schema@ && a.name@ == b.name@ && a.version@ == b.version@
}

/// `CREATE EXTENSION IF NOT EXISTS "name" WITH SCHEMA "schema" VERSION
/// 'version';` and a newline.
pub open spec fn extension_create_sql(e: &Extension) -> Seq<char> {
    "CREATE EXTENSION IF NOT EXISTS "@ + quote_ident_spec(e.name@) + " WITH SCHEMA "@
        + quote_ident_spec(e.schema@) + " VERSION '"@ + escape_quote(e.version@, '\'') + "';\n"@
}

/// `DROP EXTENSION IF EXISTS "name";` and a newline.
pub open spec fn extension_drop_sql(e: &Extension) -> Seq<char> {
    "DROP EXTENSION IF EXISTS "@ + quote_ident_spec(e.name@) + ";\n"@
}

/// The statements that turn `previous` into `new`: a schema move when the
/// schema differs, then a version update when the version differs.
pub open spec fn extension_alter_sql(new: &Extension, previous: &Extension) -> Seq<(ChangeType, Seq<char>)> {
    (if new.schema@ != previous.schema@ {
        seq![
            (ChangeType::AlterExtension, "ALTER EXTENSION "@ + quote_ident_spec(new.name@)
                + " SET SCHEMA "@ + quote_ident_spec(new.schema@) + ";\n"@),
        ]
    } else {
        Seq::empty()
    }) + (if new.version@ != previous.version@ {
        seq![
            (ChangeType::AlterExtension, "ALTER EXTENSION "@ + quote_ident_spec(new.name@)
                + " UPDATE TO '"@ + escape_quote(new.version@, '\'') + "';\n"@),
        ]
    } else {
        Seq::empty()
    })
}

/// Two extensions count as unchanged exactly when schema, name and version
/// are all the same.
pub proof fn lemma_extension_same_fields(a: &Extension, b: &Extension)
    ensures
        a.same(b) <==> (a.schema@ == b.schema@ && a.name@ == b.name@ && a.version@ == b.version@),
{
}

/// A changed extension is moved to its new schema when the schema changed
/// (first) and updated to its new version when the version changed (last);
/// nothing is emitted when neither changed. It is created in its schema
/// and version, and dropped by name.
pub proof fn lemma_extension_statements(new: &Extension, previous: &Extension)
    ensures
        ({
            let r = extension_alter_sql(new, previous);
            let n = (if new.schema@ != previous.schema@ { 1int } else { 0int }) + (if new.version@
                != previous.version@ { 1int } else { 0int });
            &&& r.len() == n
            &&& new.schema@ != previous.schema@ ==> r[0] == (
                ChangeType::AlterExtension,
                "ALTER EXTENSION "@ + quote_ident_spec(new.name@) + " SET SCHEMA "@ + quote_ident_spec(new.schema@)
                    + ";\n"@,
            )
            &&& new.version@ != previous.version@ ==> r[n - 1] == (
                ChangeType::AlterExtension,
                "ALTER EXTENSION "@ + quote_ident_spec(new.name@) + " UPDATE TO '"@ + escape_quote(
                    new.version@,
                    '\'',
                ) + "';\n"@,
            )
        }),
        crate::text::starts_with(
            extension_create_sql(new),
            "CREATE EXTENSION IF NOT EXISTS "@ + quote_ident_spec(new.name@) + " WITH SCHEMA "@ + quote_ident_spec(new.schema@)
                + " VERSION '"@,
        ),
        extension_drop_sql(new) == "DROP EXTENSION IF EXISTS "@ + quote_ident_spec(new.name@) + ";\n"@,
{
    let c = extension_create_sql(new);
    let h = "CREATE EXTENSION IF NOT EXISTS "@ + quote_ident_spec(new.name@) + " WITH SCHEMA "@ + quote_ident_spec(new.schema@)
        + " VERSION '"@;
    assert(c =~= h + (escape_quote(new.version@, '\'') + "';\n"@));
    assert(c.take(h.len() as int) =~= h);
}

/// `value` with single quotes doubled, for use inside a string literal.
pub fn quote_literal(value: &str) -> (r: String)
    ensures
        r@ == escape_quote(value@, '\''),
{
    let mut r = String::new();
    push_escaped(&mut r, value, '\'');
    r
}

impl Keyed for Extension {
    open spec fn key(&self) -> Seq<Seq<char>> {
        seq![self.name@]
    }

    fn same_key(&self, other: &Self) -> (r: bool) {
        proof {
            lemma_single_key_eq(self.name@, other.name@);
        }
        self.name == other.name
    }

    fn key_before_eq(&self, other: &Self) -> (r: bool) {
        single_le(self.name.as_str(), other.name.as_str())
    }
}

impl Extension {
    /// The statement that installs this extension.
    pub fn create_sql(&self) -> (r: String)
        ensures
            r@ == extension_create_sql(self),
    {
        let mut s = String::new();
        push_str(&mut s, "CREATE EXTENSION IF NOT EXISTS ");
        push_ident(&mut s, self.name.as_str());
        push_str(&mut s, " WITH SCHEMA ");
        push_ident(&mut s, self.schema.as_str());
        push_str(&mut s, " VERSION '");
        let v = quote_literal(self.version.as_str());
        push_str(&mut s, v.as_str());
        push_str(&mut s, "';\n");
        s
    }

    /// The statement that removes this extension.
    pub fn drop_sql(&self) -> (r: String)
        ensures
            r@ == extension_drop_sql(self),
    {
        let mut s = String::new();
        push_str(&mut s, "DROP EXTENSION IF EXISTS ");
        push_ident(&mut s, self.name.as_str());
        push_str(&mut s, ";\n");
        s
    }

    /// The statements that turn `previous` into `self`.
    pub fn alter_sql(&self, previous: &Self) -> (r: Vec<(ChangeType, String)>)
        ensures
            stmts_view(r@) == extension_alter_sql(self, previous),
    {
        let mut v: Vec<(ChangeType, String)> = Vec::new();
        let ghost empty = stmts_view(v@);
        assert(empty =~= Seq::<(ChangeType, Seq<char>)>::empty());
        if self.schema != previous.schema {
            let mut s = String::new();
            push_str(&mut s, "ALTER EXTENSION ");
            push_ident(&mut s, self.name.as_str());
            push_str(&mut s, " SET SCHEMA ");
            push_ident(&mut s, self.schema.as_str());
            push_str(&mut s, ";\n");
            push_stmt(&mut v, ChangeType::AlterExtension, s);
        }
        let ghost first = stmts_view(v@);
        if self.version != previous.version {
            let mut s = String::new();
            push_str(&mut s, "ALTER EXTENSION ");
            push_ident(&mut s, self.name.as_str());
            push_str(&mut s, " UPDATE TO '");
            let q = quote_literal(self.version.as_str());
            push_str(&mut s, q.as_str());
            push_str(&mut s, "';\n");
            push_stmt(&mut v, ChangeType::AlterExtension, s);
        }
        assert(stmts_view(v@) =~= extension_alter_sql(self, previous));
        v
    }
}

impl Extension {
    /// An extension from its catalog row.
    pub fn from_row(row: ExtensionRow) -> (e: Extension)
        ensures
            e.schema@ == row.schema@,
            e.name@ == row.name@,
            e.version@ == row.version@,
    {
        Extension { schema: row.schema, name: row.name, version: row.version }
    }
}

impl SqlObject for Extension {
    open spec fn same(&self, other: &Self) -> bool {
        same_extension(self, other)
    }

    open spec fn drop_view(&self) -> Seq<(ChangeType, Seq<char>)> {
        seq![(ChangeType::DropExtension, extension_drop_sql(self))]
    }

    open spec fn change_view(&self, previous: &Self) -> Seq<(ChangeType, Seq<char>)> {
        extension_alter_sql(self, previous)
    }

    open spec fn change_defined(&self, previous: &Self) -> bool {
        true
    }

    open spec fn create_view(&self) -> Seq<(ChangeType, Seq<char>)> {
        seq![(ChangeType::CreateExtension, extension_create_sql(self))]
    }

    proof fn lemma_same_refl(&self) {
    }

    fn same_as(&self, other: &Self) -> (r: bool) {
        self.schema == other.schema && self.name == other.name && self.version == other.version
    }

    fn drop_stmts(&self) -> (r: Vec<(ChangeType, String)>) {
        single_stmt(ChangeType::DropExtension, self.drop_sql())
    }

    fn change_stmts(&self, previous: &Self) -> (r: Vec<(ChangeType, String)>) {
        self.alter_sql(previous)
    }

    fn create_stmts(&self) -> (r: Vec<(ChangeType, String)>) {
        single_stmt(ChangeType::CreateExtension, self.create_sql())
    }
}

impl<'a> DiffSql for Diff<'a, Extension> {
    open spec fn sql_defined(&self) -> bool {
        diff_sql_defined(self)
    }

    /// Drops of removed extensions, alterations of changed ones, creations
    /// of new ones.
    fn sql(&self) -> (r: Vec<(ChangeType, String)>)
        ensures
            stmts_view(r@) == diff_sql_spec(self),
    {
        render_diff(self)
    }
}

} // verus!
