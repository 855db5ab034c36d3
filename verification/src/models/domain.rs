//! PostgreSQL domains.
use vstd::prelude::*;
use crate::rows::DomainRow;
use crate::diff::{
    ChangeType, Diff, DiffSql, SqlObject, diff, diff_sql_defined, diff_sql_spec, matched_pairs,
    only_in_a, push_stmt, render_diff, single_stmt, stmts_view, unmatched_b, extend_stmts,
};
use crate::order::{Keyed, lemma_single_key_eq, single_le};
use crate::sql::{push_ident, push_qualified, qualified_spec, quote_ident_spec};
use crate::text::{copy_string, join_strings, join_with, opt_string_eq, opt_view, push_str, starts_with, string_of, views};

verus! {

/// A domain: a base type with an optional default, a not-null flag and
/// named check constraints.
#[derive(Debug, PartialEq, Eq)]
pub struct Domain {
    pub schema: String,
    pub name: String,
    pub base_type: String,
    pub default: Option<String>,
    pub not_null: bool,
    pub constraints: Vec<DomainConstraint>,
}

/// A named constraint of a domain.
#[derive(Debug, PartialEq, Eq)]
pub struct DomainConstraint {
    pub name: String,
    pub definition: String,
}

impl Keyed for DomainConstraint {
    open spec fn key(&self) -> Seq<Seq<char>> {
        seq![self.name@]
    }

    fn same_key(&self, other: &Self) -> (r: bool) {
        proof {
            lemma_single_key_eq(self.name@, other.name@);
        }
        self.name == other.name
    }

    fn key_before_eq(&self, other: &Self) -> (r: bool) {
        single_le(self.name.as_str(), other.name.as_str())
    }
}

/// Whether two domain constraints are equal field by field.
pub open spec fn same_domain_constraint(a: &DomainConstraint, b: &DomainConstraint) -> bool {
    a.name@ == b.name@ && a.definition@ == b.definition@
}

/// Whether two lists of domain constraints are equal element by element.
pub open spec fn same_domain_constraints(a: Seq<DomainConstraint>, b: Seq<DomainConstraint>) -> bool {
    a.len() == b.len() && forall|i: int| 0 <= i < a.len() ==> same_domain_constraint(&a[i], &b[i])
}

/// Whether two domains are equal field by field.
pub open spec fn same_domain(a: &Domain, b: &Domain) -> bool {
    &&& a.schema@ == b.schema@
    &&& a.name@ == b.name@
    &&& a.base_type@ == b.base_type@
    &&& opt_view(a.default) == opt_view(b.default)
    &&& a.not_null == b.not_null
    &&& same_domain_constraints(a.constraints@, b.constraints@)
}

/// References to the elements of `s`.
pub open spec fn refs_of<'a, T>(s: Seq<T>) -> Seq<&'a T> {
    Seq::new(s.len(), |i: int| &s[i])
}

/// `"schema"."name"`.
pub open spec fn domain_name(d: &Domain) -> Seq<char> {
    qualified_spec(d.schema@, d.name@)
}

/// `CONSTRAINT "name" <definition>`.
pub open spec fn constraint_clause(c: &DomainConstraint) -> Seq<char> {
    "CONSTRAINT "@ + quote_ident_spec(c.name@) + " "@ + c.definition@
}

/// The clauses of `CREATE DOMAIN`, in order.
pub open spec fn domain_create_parts(d: &Domain) -> Seq<Seq<char>> {
    seq!["CREATE DOMAIN "@ + domain_name(d) + " AS "@ + d.base_type@] + match d.default {
        Some(v) => seq!["DEFAULT "@ + v@],
        None => Seq::empty(),
    } + if d.not_null {
        seq!["NOT NULL"@]
    } else {
        Seq::empty()
    } + d.constraints@.map_values(|c: DomainConstraint| constraint_clause(&c))
}

/// `CREATE DOMAIN "schema"."name" AS <base> [DEFAULT ..] [NOT NULL]
/// [CONSTRAINT ..]...;` and a newline.
pub open spec fn domain_create_sql(d: &Domain) -> Seq<char> {
    join_with(domain_create_parts(d), " "@) + ";\n"@
}

/// `DROP DOMAIN "schema"."name";` and a newline.
pub open spec fn domain_drop_sql(d: &Domain) -> Seq<char> {
    "DROP DOMAIN "@ + domain_name(d) + ";\n"@
}

/// The warning emitted when the base type changes; it aborts the migration
/// when run.
pub open spec fn domain_warning_sql(new: &Domain, previous: &Domain) -> Seq<char> {
    "-- WARNING: domain "@ + domain_name(new) + " changed base type from "@ + previous.base_type@
        + " to "@ + new.base_type@
        + " and no safe automatic migration was generated.\n-- Suggested manual approach:\n-- 1. Drop or migrate dependent columns, defaults, and routines.\n-- 2. Recreate the domain with the desired base type.\n-- 3. Reapply dependencies.\nDO $$\nBEGIN\nRAISE EXCEPTION 'Unsafe domain migration required for "@
        + domain_name(new) + "';\nEND\n$$;\n"@
}

/// `ALTER DOMAIN "schema"."name" DROP CONSTRAINT "c";` and a newline.
pub open spec fn drop_constraint_sql(qn: Seq<char>, c: &DomainConstraint) -> Seq<char> {
    "ALTER DOMAIN "@ + qn + " DROP CONSTRAINT "@ + quote_ident_spec(c.name@) + ";\n"@
}

/// `ALTER DOMAIN "schema"."name" ADD CONSTRAINT "c" <definition>;` and a
/// newline.
pub open spec fn add_constraint_sql(qn: Seq<char>, c: &DomainConstraint) -> Seq<char> {
    "ALTER DOMAIN "@ + qn + " ADD CONSTRAINT "@ + quote_ident_spec(c.name@) + " "@ + c.definition@
        + ";\n"@
}

/// Drop statements for removed constraints.
pub open spec fn constraint_drops(qn: Seq<char>, s: Seq<&DomainConstraint>) -> Seq<(ChangeType, Seq<char>)> {
    s.map_values(|c: &DomainConstraint| (ChangeType::AlterType, drop_constraint_sql(qn, c)))
}

/// Drop-and-add statements for changed constraints.
pub open spec fn constraint_changes(qn: Seq<char>, p: Seq<(&DomainConstraint, &DomainConstraint)>) -> Seq<(ChangeType, Seq<char>)>
    decreases p.len(),
{
    if p.len() == 0 {
        Seq::empty()
    } else {
        constraint_changes(qn, p.drop_last()) + if same_domain_constraint(p.last().0, p.last().1) {
            Seq::empty()
        } else {
            seq![
                (ChangeType::AlterType, drop_constraint_sql(qn, p.last().0)),
                (ChangeType::AlterType, add_constraint_sql(qn, p.last().1)),
            ]
        }
    }
}

/// Add statements for new constraints.
pub open spec fn constraint_adds(qn: Seq<char>, s: Seq<&DomainConstraint>) -> Seq<(ChangeType, Seq<char>)> {
    s.map_values(|c: &DomainConstraint| (ChangeType::AlterType, add_constraint_sql(qn, c)))
}

/// The statements that turn `previous` into `new`: a warning when the base
/// type changed; otherwise the default, the not-null flag, then the
/// constraints matched by name (drops, changes, additions).
pub open spec fn domain_alter_sql(new: &Domain, previous: &Domain) -> Seq<(ChangeType, Seq<char>)> {
    let qn = domain_name(new);
    if new.base_type@ != previous.base_type@ {
        seq![(ChangeType::AlterType, domain_warning_sql(new, previous))]
    } else {
        let a = refs_of(previous.constraints@);
        let b = refs_of(new.constraints@);
        (if opt_view(previous.default) != opt_view(new.default) {
            seq![
                (ChangeType::AlterType, match new.default {
                    Some(v) => "ALTER DOMAIN "@ + qn + " SET DEFAULT "@ + v@ + ";\n"@,
                    None => "ALTER DOMAIN "@ + qn + " DROP DEFAULT;\n"@,
                }),
            ]
        } else {
            Seq::empty()
        }) + (if previous.not_null != new.not_null {
            seq![
                (ChangeType::AlterType, "ALTER DOMAIN "@ + qn + " "@ + (if new.not_null {
                    "SET NOT NULL"@
                } else {
                    "DROP NOT NULL"@
                }) + ";\n"@),
            ]
        } else {
            Seq::empty()
        }) + constraint_drops(qn, only_in_a(a, b)) + constraint_changes(qn, matched_pairs(a, b))
            + constraint_adds(qn, unmatched_b(a, b))
    }
}

/// Two domains count as unchanged exactly when schema, name, base type,
/// default, not-null flag and constraints (names and definitions, in
/// order) are all the same.
pub proof fn lemma_domain_same_fields(a: &Domain, b: &Domain)
    ensures
        same_domain(a, b) <==> (a.schema@ == b.schema@ && a.name@ == b.name@ && a.base_type@ == b.base_type@
            && opt_view(a.default) == opt_view(b.default) && a.not_null == b.not_null
            && a.constraints@.len() == b.constraints@.len() && forall|i: int|
            0 <= i < a.constraints@.len() ==> (#[trigger] a.constraints@[i]).name@ == b.constraints@[i].name@
                && a.constraints@[i].definition@ == b.constraints@[i].definition@),
{
}

/// A domain is created from its name and base type, then its default when
/// it has one, then `NOT NULL` exactly when it is not null, then its
/// constraints.
pub proof fn lemma_domain_create_parts(d: &Domain)
    ensures
        domain_create_parts(d)[0] == "CREATE DOMAIN "@ + qualified_spec(d.schema@, d.name@) + " AS "@ + d.base_type@,
        d.default matches Some(v) ==> domain_create_parts(d)[1] == "DEFAULT "@ + v@,
        d.not_null == domain_create_parts(d).contains("NOT NULL"@),
{
    reveal_strlit("NOT NULL");
    reveal_strlit("CREATE DOMAIN ");
    reveal_strlit("DEFAULT ");
    reveal_strlit("CONSTRAINT ");
    let head = seq!["CREATE DOMAIN "@ + domain_name(d) + " AS "@ + d.base_type@];
    let def: Seq<Seq<char>> = match d.default {
        Some(v) => seq!["DEFAULT "@ + v@],
        None => Seq::empty(),
    };
    let nn: Seq<Seq<char>> = if d.not_null { seq!["NOT NULL"@] } else { Seq::empty() };
    let cs = d.constraints@.map_values(|c: DomainConstraint| constraint_clause(&c));
    let parts = domain_create_parts(d);
    assert(parts =~= head + def + nn + cs);
    assert(parts[0] == head[0]);
    if d.default is Some {
        assert(parts[1] == def[0]);
    }
    if d.not_null {
        assert(parts[(head.len() + def.len()) as int] == "NOT NULL"@);
    } else {
        assert forall|i: int| 0 <= i < parts.len() implies parts[i] != "NOT NULL"@ by {
            assert("NOT NULL"@[0] == 'N');
            if i == 0 {
                assert(parts[i][0] == 'C');
            } else if i < 1 + def.len() {
                assert(parts[i] == def[i - 1]);
                assert(parts[i][0] == 'D');
            } else {
                let c = d.constraints@[i - 1 - def.len()];
                assert(parts[i] == constraint_clause(&c));
                assert(parts[i][0] == 'C');
            }
        }
    }
}

/// A domain is dropped by its qualified name.
pub proof fn lemma_domain_drop_form(d: &Domain)
    ensures
        domain_drop_sql(d) == "DROP DOMAIN "@ + qualified_spec(d.schema@, d.name@) + ";\n"@,
{
}

/// Altering a domain whose base type is kept sets or drops the default
/// first, when it changed, then sets `NOT NULL` when the new domain is not
/// null and the previous one was not, or drops it in the opposite case; a
/// changed base type gives one warning instead.
pub proof fn lemma_domain_alter_steps(new: &Domain, previous: &Domain)
    ensures
        ({
            let r = domain_alter_sql(new, previous);
            let qn = domain_name(new);
            let first = if opt_view(previous.default) != opt_view(new.default) { 1int } else { 0int };
            &&& new.base_type@ != previous.base_type@ ==> r.len() == 1 && r[0].0 == ChangeType::AlterType
                && starts_with(r[0].1, "-- WARNING: domain "@ + qn + " changed base type from "@)
            &&& new.base_type@ == previous.base_type@ && first == 1 && new.default is Some ==> r[0] == (
                ChangeType::AlterType,
                "ALTER DOMAIN "@ + qn + " SET DEFAULT "@ + new.default->Some_0@ + ";\n"@,
            )
            &&& new.base_type@ == previous.base_type@ && first == 1 && new.default is None ==> r[0] == (
                ChangeType::AlterType,
                "ALTER DOMAIN "@ + qn + " DROP DEFAULT;\n"@,
            )
            &&& new.base_type@ == previous.base_type@ && new.not_null && !previous.not_null ==> r[first] == (
                ChangeType::AlterType,
                "ALTER DOMAIN "@ + qn + " SET NOT NULL;\n"@,
            )
            &&& new.base_type@ == previous.base_type@ && !new.not_null && previous.not_null ==> r[first] == (
                ChangeType::AlterType,
                "ALTER DOMAIN "@ + qn + " DROP NOT NULL;\n"@,
            )
        }),
{
    reveal_strlit(" ");
    reveal_strlit(";\n");
    reveal_strlit("SET NOT NULL");
    reveal_strlit("DROP NOT NULL");
    reveal_strlit(" SET NOT NULL;\n");
    reveal_strlit(" DROP NOT NULL;\n");
    let r = domain_alter_sql(new, previous);
    let qn = domain_name(new);
    if new.base_type@ != previous.base_type@ {
        let w = domain_warning_sql(new, previous);
        let h = "-- WARNING: domain "@ + qn + " changed base type from "@;
        assert(w =~= h + (previous.base_type@ + " to "@ + new.base_type@
            + " and no safe automatic migration was generated.\n-- Suggested manual approach:\n-- 1. Drop or migrate dependent columns, defaults, and routines.\n-- 2. Recreate the domain with the desired base type.\n-- 3. Reapply dependencies.\nDO $$\nBEGIN\nRAISE EXCEPTION 'Unsafe domain migration required for "@
            + qn + "';\nEND\n$$;\n"@));
        assert(w.take(h.len() as int) =~= h);
    } else {
        let a = refs_of(previous.constraints@);
        let b = refs_of(new.constraints@);
        let d = if opt_view(previous.default) != opt_view(new.default) {
            seq![
                (ChangeType::AlterType, match new.default {
                    Some(v) => "ALTER DOMAIN "@ + qn + " SET DEFAULT "@ + v@ + ";\n"@,
                    None => "ALTER DOMAIN "@ + qn + " DROP DEFAULT;\n"@,
                }),
            ]
        } else {
            Seq::empty()
        };
        let n = if previous.not_null != new.not_null {
            seq![
                (ChangeType::AlterType, "ALTER DOMAIN "@ + qn + " "@ + (if new.not_null {
                    "SET NOT NULL"@
                } else {
                    "DROP NOT NULL"@
                }) + ";\n"@),
            ]
        } else {
            Seq::empty()
        };
        let rest = constraint_drops(qn, only_in_a(a, b)) + constraint_changes(qn, matched_pairs(a, b))
            + constraint_adds(qn, unmatched_b(a, b));
        assert(r == d + n + constraint_drops(qn, only_in_a(a, b)) + constraint_changes(qn, matched_pairs(a, b))
            + constraint_adds(qn, unmatched_b(a, b)));
        assert(r =~= d + (n + rest));
        let first = if opt_view(previous.default) != opt_view(new.default) { 1int } else { 0int };
        assert(d.len() == first);
        if first == 1 {
            assert(r[0] == d[0]);
        }
        if previous.not_null != new.not_null {
            assert(r[first] == n[0]);
            if new.not_null {
                assert("ALTER DOMAIN "@ + qn + " "@ + "SET NOT NULL"@ + ";\n"@ =~= "ALTER DOMAIN "@ + qn + " SET NOT NULL;\n"@);
            } else {
                assert("ALTER DOMAIN "@ + qn + " "@ + "DROP NOT NULL"@ + ";\n"@ =~= "ALTER DOMAIN "@ + qn + " DROP NOT NULL;\n"@);
            }
        }
    }
}

/// References to the elements of `v`.
pub fn refs<'a, T>(v: &'a Vec<T>) -> (r: Vec<&'a T>)
    ensures
        r@ == refs_of(v@),
{
    let mut r: Vec<&'a T> = Vec::new();
    for i in 0..v.len()
        invariant
            r@.len() == i,
            i <= v@.len(),
            forall|j: int| 0 <= j < i ==> r@[j] == &v@[j],
    {
        r.push(&v[i]);
    }
    assert(r@ =~= refs_of(v@));
    r
}

fn same_constraints(a: &Vec<DomainConstraint>, b: &Vec<DomainConstraint>) -> (r: bool)
    ensures
        r == same_domain_constraints(a@, b@),
{
    if a.len() != b.len() {
        return false;
    }
    for i in 0..a.len()
        invariant
            a.len() == b.len(),
            forall|j: int| 0 <= j < i ==> same_domain_constraint(&a@[j], &b@[j]),
    {
        if !(a[i].name == b[i].name && a[i].definition == b[i].definition) {
            return false;
        }
    }
    true
}

impl Keyed for Domain {
    open spec fn key(&self) -> Seq<Seq<char>> {
        seq![self.name@]
    }

    fn same_key(&self, other: &Self) -> (r: bool) {
        proof {
            lemma_single_key_eq(self.name@, other.name@);
        }
        self.name == other.name
    }

    fn key_before_eq(&self, other: &Self) -> (r: bool) {
        single_le(self.name.as_str(), other.name.as_str())
    }
}

impl Domain {
    /// `"schema"."name"`.
    pub fn qualified_name(&self) -> (r: String)
        ensures
            r@ == domain_name(self),
    {
        let mut s = String::new();
        push_qualified(&mut s, self.schema.as_str(), self.name.as_str());
        s
    }

    /// The statement that creates this domain.
    pub fn create_sql(&self) -> (r: String)
        ensures
            r@ == domain_create_sql(self),
    {
        let mut parts: Vec<String> = Vec::new();
        let mut first = string_of("CREATE DOMAIN ");
        let qn = self.qualified_name();
        push_str(&mut first, qn.as_str());
        push_str(&mut first, " AS ");
        push_str(&mut first, self.base_type.as_str());
        parts.push(first);
        if let Some(default) = &self.default {
            let mut p = string_of("DEFAULT ");
            push_str(&mut p, default.as_str());
            parts.push(p);
        }
        if self.not_null {
            parts.push(string_of("NOT NULL"));
        }
        let ghost head = views(parts@);
        let ghost h = parts@.len();
        for i in 0..self.constraints.len()
            invariant
                h == head.len(),
                parts@.len() == h + i,
                forall|j: int| 0 <= j < h ==> #[trigger] parts@[j]@ == head[j],
                forall|j: int|
                    0 <= j < i ==> #[trigger] parts@[h + j]@ == constraint_clause(
                        &self.constraints@[j],
                    ),
        {
            let c = &self.constraints[i];
            let mut p = string_of("CONSTRAINT ");
            push_ident(&mut p, c.name.as_str());
            push_str(&mut p, " ");
            push_str(&mut p, c.definition.as_str());
            parts.push(p);
            assert(parts@[h + i]@ == constraint_clause(&self.constraints@[i as int]));
        }
        assert forall|j: int| 0 <= j < views(parts@).len() implies views(parts@)[j] == domain_create_parts(self)[j] by {
            if j < h {
                assert(parts@[j]@ == head[j]);
            } else {
                assert(parts@[h + (j - h)]@ == constraint_clause(&self.constraints@[j - h]));
            }
        }
        assert(views(parts@) =~= domain_create_parts(self));
        proof {
            reveal_strlit(" ");
        }
        let mut s = join_strings(&parts, " ");
        push_str(&mut s, ";\n");
        s
    }

    /// The statement that drops this domain.
    pub fn drop_sql(&self) -> (r: String)
        ensures
            r@ == domain_drop_sql(self),
    {
        let mut s = string_of("DROP DOMAIN ");
        let qn = self.qualified_name();
        push_str(&mut s, qn.as_str());
        push_str(&mut s, ";\n");
        s
    }

    /// The statements that turn `previous` into `self`.
    pub fn alter_sql(&self, previous: &Self) -> (r: Vec<(ChangeType, String)>)
        ensures
            stmts_view(r@) == domain_alter_sql(self, previous),
    {
        let qn = self.qualified_name();
        if self.base_type != previous.base_type {
            let mut s = string_of("-- WARNING: domain ");
            push_str(&mut s, qn.as_str());
            push_str(&mut s, " changed base type from ");
            push_str(&mut s, previous.base_type.as_str());
            push_str(&mut s, " to ");
            push_str(&mut s, self.base_type.as_str());
            push_str(
                &mut s,
                " and no safe automatic migration was generated.\n-- Suggested manual approach:\n-- 1. Drop or migrate dependent columns, defaults, and routines.\n-- 2. Recreate the domain with the desired base type.\n-- 3. Reapply dependencies.\nDO $$\nBEGIN\nRAISE EXCEPTION 'Unsafe domain migration required for ",
            );
            push_str(&mut s, qn.as_str());
            push_str(&mut s, "';\nEND\n$$;\n");
            return single_stmt(ChangeType::AlterType, s);
        }
        let mut sql: Vec<(ChangeType, String)> = Vec::new();
        assert(stmts_view(sql@) =~= Seq::<(ChangeType, Seq<char>)>::empty());
        if !opt_string_eq(&previous.default, &self.default) {
            let mut s = string_of("ALTER DOMAIN ");
            push_str(&mut s, qn.as_str());
            match &self.default {
                Some(default) => {
                    push_str(&mut s, " SET DEFAULT ");
                    push_str(&mut s, default.as_str());
                    push_str(&mut s, ";\n");
                },
                None => {
                    push_str(&mut s, " DROP DEFAULT;\n");
                },
            }
            push_stmt(&mut sql, ChangeType::AlterType, s);
        }
        let ghost after_default = stmts_view(sql@);
        if previous.not_null != self.not_null {
            let mut s = string_of("ALTER DOMAIN ");
            push_str(&mut s, qn.as_str());
            push_str(&mut s, " ");
            if self.not_null {
                push_str(&mut s, "SET NOT NULL");
            } else {
                push_str(&mut s, "DROP NOT NULL");
            }
            push_str(&mut s, ";\n");
            push_stmt(&mut sql, ChangeType::AlterType, s);
        }
        let ghost after_flags = stmts_view(sql@);
        let a = refs(&previous.constraints);
        let b = refs(&self.constraints);
        let d = diff(a, b);
        for i in 0..d.a_only.len()
            invariant
                stmts_view(sql@) == after_flags + constraint_drops(qn@, d.a_only@.take(i as int)),
        {
            let mut s = string_of("ALTER DOMAIN ");
            push_str(&mut s, qn.as_str());
            push_str(&mut s, " DROP CONSTRAINT ");
            push_ident(&mut s, d.a_only[i].name.as_str());
            push_str(&mut s, ";\n");
            push_stmt(&mut sql, ChangeType::AlterType, s);
            assert(constraint_drops(qn@, d.a_only@.take(i + 1)) =~= constraint_drops(qn@, d.a_only@.take(i as int)).push(
                (ChangeType::AlterType, drop_constraint_sql(qn@, d.a_only@[i as int])),
            ));
        }
        assert(d.a_only@.take(d.a_only.len() as int) == d.a_only@);
        let ghost after_drops = stmts_view(sql@);
        for i in 0..d.a_and_b.len()
            invariant
                stmts_view(sql@) == after_drops + constraint_changes(qn@, d.a_and_b@.take(i as int)),
        {
            let (old, new) = d.a_and_b[i];
            assert(d.a_and_b@.take(i + 1).drop_last() == d.a_and_b@.take(i as int));
            if !(old.name == new.name && old.definition == new.definition) {
                let mut s = string_of("ALTER DOMAIN ");
                push_str(&mut s, qn.as_str());
                push_str(&mut s, " DROP CONSTRAINT ");
                push_ident(&mut s, old.name.as_str());
                push_str(&mut s, ";\n");
                push_stmt(&mut sql, ChangeType::AlterType, s);
                let mut t = string_of("ALTER DOMAIN ");
                push_str(&mut t, qn.as_str());
                push_str(&mut t, " ADD CONSTRAINT ");
                push_ident(&mut t, new.name.as_str());
                push_str(&mut t, " ");
                push_str(&mut t, new.definition.as_str());
                push_str(&mut t, ";\n");
                push_stmt(&mut sql, ChangeType::AlterType, t);
            } else {
                assert(stmts_view(sql@) + Seq::<(ChangeType, Seq<char>)>::empty() == stmts_view(sql@));
            }
        }
        assert(d.a_and_b@.take(d.a_and_b.len() as int) == d.a_and_b@);
        let ghost after_changes = stmts_view(sql@);
        for i in 0..d.b_only.len()
            invariant
                stmts_view(sql@) == after_changes + constraint_adds(qn@, d.b_only@.take(i as int)),
        {
            let c = d.b_only[i];
            let mut s = string_of("ALTER DOMAIN ");
            push_str(&mut s, qn.as_str());
            push_str(&mut s, " ADD CONSTRAINT ");
            push_ident(&mut s, c.name.as_str());
            push_str(&mut s, " ");
            push_str(&mut s, c.definition.as_str());
            push_str(&mut s, ";\n");
            push_stmt(&mut sql, ChangeType::AlterType, s);
            assert(constraint_adds(qn@, d.b_only@.take(i + 1)) =~= constraint_adds(qn@, d.b_only@.take(i as int)).push(
                (ChangeType::AlterType, add_constraint_sql(qn@, d.b_only@[i as int])),
            ));
        }
        assert(d.b_only@.take(d.b_only.len() as int) == d.b_only@);
        sql
    }
}

impl Domain {
    /// A domain from its catalog row: the constraint names and definitions
    /// are paired up by position, as far as both lists reach.
    pub fn from_row(row: DomainRow) -> (d: Domain)
        ensures
            d.schema@ == row.schema@,
            d.name@ == row.name@,
            d.base_type@ == row.base_type@,
            opt_view(d.default) == opt_view(row.default),
            d.not_null == row.notnull,
            d.constraints@.len() == if row.constraint_names@.len() <= row.constraint_definitions@.len() {
                row.constraint_names@.len()
            } else {
                row.constraint_definitions@.len()
            },
            forall|i: int|
                0 <= i < d.constraints@.len() ==> (#[trigger] d.constraints@[i]).name@
                    == row.constraint_names@[i]@ && d.constraints@[i].definition@
                    == row.constraint_definitions@[i]@,
    {
        let n = if row.constraint_names.len() <= row.constraint_definitions.len() {
            row.constraint_names.len()
        } else {
            row.constraint_definitions.len()
        };
        let mut constraints: Vec<DomainConstraint> = Vec::new();
        for i in 0..n
            invariant
                n <= row.constraint_names@.len(),
                n <= row.constraint_definitions@.len(),
                constraints@.len() == i,
                forall|j: int|
                    0 <= j < i ==> (#[trigger] constraints@[j]).name@ == row.constraint_names@[j]@
                        && constraints@[j].definition@ == row.constraint_definitions@[j]@,
        {
            constraints.push(
                DomainConstraint {
                    name: copy_string(&row.constraint_names[i]),
                    definition: copy_string(&row.constraint_definitions[i]),
                },
            );
        }
        Domain {
            schema: row.schema,
            name: row.name,
            base_type: row.base_type,
            default: row.default,
            not_null: row.notnull,
            constraints,
        }
    }
}

impl SqlObject for Domain {
    open spec fn same(&self, other: &Self) -> bool {
        same_domain(self, other)
    }

    open spec fn drop_view(&self) -> Seq<(ChangeType, Seq<char>)> {
        seq![(ChangeType::DropType, domain_drop_sql(self))]
    }

    open spec fn change_view(&self, previous: &Self) -> Seq<(ChangeType, Seq<char>)> {
        domain_alter_sql(self, previous)
    }

    open spec fn change_defined(&self, previous: &Self) -> bool {
        true
    }

    open spec fn create_view(&self) -> Seq<(ChangeType, Seq<char>)> {
        seq![(ChangeType::CreateType, domain_create_sql(self))]
    }

    proof fn lemma_same_refl(&self) {
    }

    fn same_as(&self, other: &Self) -> (r: bool) {
        self.schema == other.schema && self.name == other.name && self.base_type
            == other.base_type && opt_string_eq(&self.default, &other.default) && self.not_null
            == other.not_null && same_constraints(&self.constraints, &other.constraints)
    }

    fn drop_stmts(&self) -> (r: Vec<(ChangeType, String)>) {
        single_stmt(ChangeType::DropType, self.drop_sql())
    }

    fn change_stmts(&self, previous: &Self) -> (r: Vec<(ChangeType, String)>) {
        self.alter_sql(previous)
    }

    fn create_stmts(&self) -> (r: Vec<(ChangeType, String)>) {
        single_stmt(ChangeType::CreateType, self.create_sql())
    }
}

impl<'a> DiffSql for Diff<'a, Domain> {
    open spec fn sql_defined(&self) -> bool {
        diff_sql_defined(self)
    }

    /// Drops of removed domains, alterations of changed ones, creations of
    /// new ones.
    fn sql(&self) -> (r: Vec<(ChangeType, String)>)
        ensures
            stmts_view(r@) == diff_sql_spec(self),
    {
        render_diff(self)
    }
}

} // verus!
