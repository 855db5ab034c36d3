//! PostgreSQL enum types.
use vstd::prelude::*;
use crate::rows::EnumRow;
use crate::diff::{
    ChangeType, Diff, DiffSql, SqlObject, diff_sql_defined, diff_sql_spec, push_stmt, render_diff,
    single_stmt, stmts_view,
};
use crate::order::{Keyed, lemma_single_key_eq, single_le};
use crate::sql::{push_literal, push_qualified, qualified_spec, quote_literal_spec};
use crate::text::{copy_string, join_strings, join_with, push_str, strings_contain, strings_eq, views};

verus! {

/// An enum type and its labels, in order.
#[derive(Debug, PartialEq, Eq)]
pub struct Enum {
    pub schema: String,
    pub name: String,
    pub labels: Vec<String>,
}

/// The labels of an enum, as character sequences.
pub open spec fn labels_of(e: &Enum) -> Seq<Seq<char>> {
    views(e.labels@)
}

/// Whether two enums are equal field by field.
pub open spec fn same_enum(a: &Enum, b: &Enum) -> bool {
    a.schema@ == b.schema@ && a.name@ == b.name@ && labels_of(a) == labels_of(b)
}

/// Two enums count as unchanged exactly when schema, name and labels (in
/// order) are all the same.
pub proof fn lemma_enum_same_fields(a: &Enum, b: &Enum)
    ensures
        same_enum(a, b) <==> (a.schema@ == b.schema@ && a.name@ == b.name@ && a.labels@.len() == b.labels@.len()
            && forall|i: int| 0 <= i < a.labels@.len() ==> #[trigger] a.labels@[i]@ == b.labels@[i]@),
{
    assert(labels_of(a).len() == a.labels@.len());
    assert(labels_of(b).len() == b.labels@.len());
    if a.labels@.len() == b.labels@.len() && (forall|i: int| 0 <= i < a.labels@.len() ==> #[trigger] a.labels@[i]@ == b.labels@[i]@) {
        assert forall|i: int| 0 <= i < labels_of(a).len() implies labels_of(a)[i] == labels_of(b)[i] by {
            assert(labels_of(a)[i] == a.labels@[i]@);
            assert(labels_of(b)[i] == b.labels@[i]@);
        }
        assert(labels_of(a) =~= labels_of(b));
    }
    if same_enum(a, b) {
        assert forall|i: int| 0 <= i < a.labels@.len() implies #[trigger] a.labels@[i]@ == b.labels@[i]@ by {
            assert(labels_of(a)[i] == a.labels@[i]@);
            assert(labels_of(b)[i] == b.labels@[i]@);
        }
    }
    assert(labels_of(a).len() == a.labels@.len());
    assert(labels_of(b).len() == b.labels@.len());
}

impl Keyed for Enum {
    open spec fn key(&self) -> Seq<Seq<char>> {
        seq![self.name@]
    }

    fn same_key(&self, other: &Self) -> (r: bool) {
        proof {
            lemma_single_key_eq(self.name@, other.name@);
        }
        self.name == other.name
    }

    fn key_before_eq(&self, other: &Self) -> (r: bool) {
        single_le(self.name.as_str(), other.name.as_str())
    }
}

/// `CREATE TYPE "schema"."name" AS ENUM ('a', 'b');` and a newline.
pub open spec fn enum_create_sql(e: &Enum) -> Seq<char> {
    "CREATE TYPE "@ + qualified_spec(e.schema@, e.name@) + " AS ENUM ("@ + join_labels_spec(
        labels_of(e),
    ) + ");\n"@
}

/// `DROP TYPE "schema"."name";` and a newline.
pub open spec fn enum_drop_sql(e: &Enum) -> Seq<char> {
    "DROP TYPE "@ + qualified_spec(e.schema@, e.name@) + ";\n"@
}

/// An enum is created with all its labels, in order, and dropped as a
/// type.
pub proof fn lemma_enum_statement_forms(e: &Enum)
    ensures
        crate::text::starts_with(enum_create_sql(e), "CREATE TYPE "@ + qualified_spec(e.schema@, e.name@) + " AS ENUM ("@),
        crate::text::ends_with(enum_create_sql(e), join_labels_spec(labels_of(e)) + ");\n"@),
        enum_drop_sql(e) == "DROP TYPE "@ + qualified_spec(e.schema@, e.name@) + ";\n"@,
{
    let s = enum_create_sql(e);
    let h = "CREATE TYPE "@ + qualified_spec(e.schema@, e.name@) + " AS ENUM ("@;
    let t = join_labels_spec(labels_of(e)) + ");\n"@;
    assert(s =~= h + t);
    assert(s.take(h.len() as int) =~= h);
    assert(s.skip(s.len() - t.len()) =~= t);
}

/// The labels quoted as literals and joined by `, `.
pub open spec fn join_labels_spec(labels: Seq<Seq<char>>) -> Seq<char> {
    join_with(labels.map_values(|l: Seq<char>| quote_literal_spec(l)), ", "@)
}

/// The labels of `s` that also occur in `present`, in `s`'s order.
pub open spec fn keep_present(s: Seq<Seq<char>>, present: Seq<Seq<char>>) -> Seq<Seq<char>>
    decreases s.len(),
{
    if s.len() == 0 {
        Seq::empty()
    } else if present.contains(s.last()) {
        keep_present(s.drop_last(), present).push(s.last())
    } else {
        keep_present(s.drop_last(), present)
    }
}

/// Whether `new` can be reached from `previous` by adding labels only: the
/// previous labels are exactly the labels of `new` that were already
/// present, in the same order.
pub open spec fn can_add_values_spec(previous: &Enum, new: &Enum) -> bool {
    labels_of(previous).len() <= labels_of(new).len() && labels_of(previous) == keep_present(
        labels_of(new),
        labels_of(previous),
    )
}

/// The labels to add, one `ADD VALUE` each, to turn `cur` into `target`,
/// starting at position `idx`: a label already present is skipped; a new
/// label is placed before the label now at its position, or appended when
/// there is none, and the state is updated as PostgreSQL would.
pub open spec fn add_plan(cur: Seq<Seq<char>>, target: Seq<Seq<char>>, idx: nat) -> Seq<
    (Seq<char>, Option<Seq<char>>),
>
    decreases target.len() - idx,
{
    if idx >= target.len() {
        Seq::empty()
    } else if cur.contains(target[idx as int]) {
        add_plan(cur, target, idx + 1)
    } else {
        seq![
            (target[idx as int], if idx < cur.len() {
                Some(cur[idx as int])
            } else {
                None
            }),
        ] + add_plan(cur.insert(idx as int, target[idx as int]), target, idx + 1)
    }
}

/// Whether every insertion of `add_plan(cur, target, idx)` is at a
/// position within the current labels.
pub open spec fn add_plan_defined(cur: Seq<Seq<char>>, target: Seq<Seq<char>>, idx: nat) -> bool
    decreases target.len() - idx,
{
    if idx >= target.len() {
        true
    } else if cur.contains(target[idx as int]) {
        add_plan_defined(cur, target, idx + 1)
    } else {
        idx <= cur.len() && add_plan_defined(
            cur.insert(idx as int, target[idx as int]),
            target,
            idx + 1,
        )
    }
}

/// `ALTER TYPE "schema"."name" ADD VALUE 'label'`, with ` BEFORE 'other'`
/// when placed, then `;` and a newline.
pub open spec fn add_value_stmt(schema: Seq<char>, name: Seq<char>, step: (Seq<char>, Option<Seq<char>>)) -> Seq<char> {
    "ALTER TYPE "@ + qualified_spec(schema, name) + " ADD VALUE "@ + quote_literal_spec(step.0) + match step.1 {
        Some(b) => " BEFORE "@ + quote_literal_spec(b),
        None => Seq::<char>::empty(),
    } + ";\n"@
}

/// The labels a plan adds, in order.
pub open spec fn planned_labels(plan: Seq<(Seq<char>, Option<Seq<char>>)>) -> Seq<Seq<char>> {
    plan.map_values(|step: (Seq<char>, Option<Seq<char>>)| step.0)
}

proof fn lemma_add_plan_labels(cur: Seq<Seq<char>>, target: Seq<Seq<char>>, idx: nat)
    requires
        add_plan_defined(cur, target, idx),
    ensures
        forall|k: int|
            0 <= k < add_plan(cur, target, idx).len() ==> target.contains(#[trigger] add_plan(cur, target, idx)[k].0)
                && !cur.contains(add_plan(cur, target, idx)[k].0),
        forall|j: int|
            idx <= j < target.len() && !cur.contains(#[trigger] target[j]) ==> planned_labels(
                add_plan(cur, target, idx),
            ).contains(target[j]),
    decreases target.len() - idx,
{
    if idx < target.len() {
        let t = target[idx as int];
        if cur.contains(t) {
            lemma_add_plan_labels(cur, target, idx + 1);
            assert(add_plan(cur, target, idx) == add_plan(cur, target, idx + 1));
        } else {
            let next = cur.insert(idx as int, t);
            lemma_add_plan_labels(next, target, idx + 1);
            let rest = add_plan(next, target, idx + 1);
            let step = (t, if idx < cur.len() { Some(cur[idx as int]) } else { None });
            let plan = seq![step] + rest;
            assert(add_plan(cur, target, idx) == plan);
            assert forall|x: Seq<char>| cur.contains(x) implies next.contains(x) by {
                let i = choose|i: int| 0 <= i < cur.len() && cur[i] == x;
                if i < idx {
                    assert(next[i] == x);
                } else {
                    assert(next[i + 1] == x);
                }
            }
            assert forall|k: int| 0 <= k < plan.len() implies target.contains(#[trigger] plan[k].0)
                && !cur.contains(plan[k].0) by {
                if k == 0 {
                    assert(target[idx as int] == t);
                } else {
                    assert(plan[k] == rest[k - 1]);
                }
            }
            assert(next[idx as int] == t);
            assert(planned_labels(plan)[0] == t);
            assert forall|j: int| idx <= j < target.len() && !cur.contains(#[trigger] target[j]) implies planned_labels(
                plan,
            ).contains(target[j]) by {
                if target[j] == t {
                    assert(planned_labels(plan)[0] == target[j]);
                } else {
                    assert(j > idx);
                    if next.contains(target[j]) {
                        let i = choose|i: int| 0 <= i < next.len() && next[i] == target[j];
                        if i < idx {
                            assert(cur[i] == next[i]);
                        } else if i > idx {
                            assert(cur[i - 1] == next[i]);
                        }
                    }
                    let m = choose|m: int| 0 <= m < planned_labels(rest).len() && planned_labels(rest)[m] == target[j];
                    assert(planned_labels(plan)[m + 1] == planned_labels(rest)[m]);
                }
            }
        }
    }
}

/// Turning `previous` into `new` by adding labels adds exactly the labels
/// of `new` that `previous` lacks: each added label is one of `new`'s and
/// none of `previous`'s, and each label of `new` that `previous` lacks is
/// added.
pub proof fn lemma_added_labels(previous: &Enum, new: &Enum)
    requires
        add_plan_defined(labels_of(previous), labels_of(new), 0),
    ensures
        forall|k: int|
            0 <= k < add_plan(labels_of(previous), labels_of(new), 0).len() ==> labels_of(new).contains(
                #[trigger] add_plan(labels_of(previous), labels_of(new), 0)[k].0,
            ) && !labels_of(previous).contains(add_plan(labels_of(previous), labels_of(new), 0)[k].0),
        forall|j: int|
            0 <= j < labels_of(new).len() && !labels_of(previous).contains(#[trigger] labels_of(new)[j])
                ==> planned_labels(add_plan(labels_of(previous), labels_of(new), 0)).contains(labels_of(new)[j]),
{
    lemma_add_plan_labels(labels_of(previous), labels_of(new), 0);
}

/// Each added label is one statement: `ALTER TYPE` on the enum, `ADD
/// VALUE` with the label as a literal, then `BEFORE` and the label it is
/// placed before when there is one.
pub proof fn lemma_add_value_stmt_form(schema: Seq<char>, name: Seq<char>, step: (Seq<char>, Option<Seq<char>>))
    ensures
        crate::text::starts_with(
            add_value_stmt(schema, name, step),
            "ALTER TYPE "@ + qualified_spec(schema, name) + " ADD VALUE "@ + quote_literal_spec(step.0),
        ),
        step.1 matches Some(b) ==> crate::text::ends_with(
            add_value_stmt(schema, name, step),
            " BEFORE "@ + quote_literal_spec(b) + ";\n"@,
        ),
        step.1 is None ==> add_value_stmt(schema, name, step) == "ALTER TYPE "@ + qualified_spec(schema, name)
            + " ADD VALUE "@ + quote_literal_spec(step.0) + ";\n"@,
{
    let s = add_value_stmt(schema, name, step);
    let h = "ALTER TYPE "@ + qualified_spec(schema, name) + " ADD VALUE "@ + quote_literal_spec(step.0);
    match step.1 {
        Some(b) => {
            let t = " BEFORE "@ + quote_literal_spec(b) + ";\n"@;
            assert(s =~= h + t);
            assert(s.skip(s.len() - t.len()) =~= t);
            assert(s.take(h.len() as int) =~= h);
        },
        None => {
            assert(s =~= h + ";\n"@);
            assert(s.take(h.len() as int) =~= h);
        },
    }
}

/// The statements for a plan of added labels.
pub open spec fn render_plan(
    schema: Seq<char>,
    name: Seq<char>,
    plan: Seq<(Seq<char>, Option<Seq<char>>)>,
) -> Seq<(ChangeType, Seq<char>)> {
    plan.map_values(|step: (Seq<char>, Option<Seq<char>>)| (ChangeType::AlterType, add_value_stmt(schema, name, step)))
}

/// The warning emitted for an enum change that cannot be done by adding
/// labels; it aborts the migration when run.
pub open spec fn enum_warning_sql(new: &Enum, previous: &Enum) -> Seq<char> {
    "-- WARNING: enum "@ + qualified_spec(new.schema@, new.name@)
        + " changed incompatibly and no safe automatic migration was generated.\n-- Previous labels: "@
        + join_labels_spec(labels_of(previous)) + "\n-- Target labels: "@ + join_labels_spec(
        labels_of(new),
    )
        + "\n-- Suggested manual approach:\n-- 1. Change dependent columns to TEXT with an explicit USING cast.\n-- 2. Rewrite any rows, defaults, functions, or views that still reference removed/renamed values.\n-- 3. Recreate the enum type with the desired labels.\n-- 4. Cast dependent columns back to the enum type.\nDO $$\nBEGIN\nRAISE EXCEPTION 'Unsafe enum migration required for "@
        + new.schema@ + "."@ + new.name@ + "';\nEND\n$$;\n"@
}

/// Whether `new.alter_sql(previous)` is defined (does not place a label
/// beyond the end of the current labels).
pub open spec fn enum_alter_defined(new: &Enum, previous: &Enum) -> bool {
    can_add_values_spec(previous, new) ==> add_plan_defined(labels_of(previous), labels_of(new), 0)
}

/// The statements that turn `previous` into `new`.
pub open spec fn enum_alter_sql(new: &Enum, previous: &Enum) -> Seq<(ChangeType, Seq<char>)> {
    if can_add_values_spec(previous, new) {
        render_plan(new.schema@, new.name@, add_plan(labels_of(previous), labels_of(new), 0))
    } else {
        seq![(ChangeType::AlterType, enum_warning_sql(new, previous))]
    }
}

/// A copy of a list of strings.
pub fn copy_strings(v: &Vec<String>) -> (r: Vec<String>)
    ensures
        views(r@) == views(v@),
{
    let mut r: Vec<String> = Vec::new();
    for i in 0..v.len()
        invariant
            r.len() == i,
            i <= v.len(),
            forall|j: int| 0 <= j < i ==> #[trigger] r@[j]@ == v@[j]@,
    {
        r.push(copy_string(&v[i]));
    }
    assert(views(r@) =~= views(v@));
    r
}

/// The labels quoted as literals and joined by `, `.
pub fn join_labels(labels: &Vec<String>) -> (r: String)
    ensures
        r@ == join_labels_spec(views(labels@)),
{
    let mut quoted: Vec<String> = Vec::new();
    for i in 0..labels.len()
        invariant
            quoted.len() == i,
            i <= labels.len(),
            forall|j: int| 0 <= j < i ==> #[trigger] quoted@[j]@ == quote_literal_spec(labels@[j]@),
    {
        let mut q = String::new();
        push_literal(&mut q, labels[i].as_str());
        quoted.push(q);
    }
    assert(views(quoted@) =~= views(labels@).map_values(|l: Seq<char>| quote_literal_spec(l)));
    proof {
        reveal_strlit(", ");
    }
    join_strings(&quoted, ", ")
}

/// Whether `new` can be reached from `previous` by adding labels only.
pub fn can_safely_add_values(previous: &Enum, new: &Enum) -> (r: bool)
    ensures
        r == can_add_values_spec(previous, new),
{
    if previous.labels.len() > new.labels.len() {
        return false;
    }
    let mut kept: Vec<String> = Vec::new();
    for i in 0..new.labels.len()
        invariant
            views(kept@) == keep_present(views(new.labels@.take(i as int)), labels_of(previous)),
    {
        assert(views(new.labels@.take(i + 1)).drop_last() == views(new.labels@.take(i as int)));
        if strings_contain(&previous.labels, &new.labels[i]) {
            kept.push(copy_string(&new.labels[i]));
            assert(views(kept@) =~= keep_present(views(new.labels@.take(i + 1)), labels_of(previous)));
        }
    }
    assert(new.labels@.take(new.labels.len() as int) == new.labels@);
    strings_eq(&previous.labels, &kept)
}

impl Enum {
    /// The statement that creates this enum type.
    pub fn create_sql(&self) -> (r: String)
        ensures
            r@ == enum_create_sql(self),
    {
        let mut s = String::new();
        push_str(&mut s, "CREATE TYPE ");
        push_qualified(&mut s, self.schema.as_str(), self.name.as_str());
        push_str(&mut s, " AS ENUM (");
        let labels = join_labels(&self.labels);
        push_str(&mut s, labels.as_str());
        push_str(&mut s, ");\n");
        s
    }

    /// The statement that drops this enum type.
    pub fn drop_sql(&self) -> (r: String)
        ensures
            r@ == enum_drop_sql(self),
    {
        let mut s = String::new();
        push_str(&mut s, "DROP TYPE ");
        push_qualified(&mut s, self.schema.as_str(), self.name.as_str());
        push_str(&mut s, ";\n");
        s
    }

    /// The statements that turn `previous` into `self`: label additions when
    /// the change only adds labels, otherwise a warning that aborts.
    pub fn alter_sql(&self, previous: &Self) -> (r: Vec<(ChangeType, String)>)
        requires
            enum_alter_defined(self, previous),
        ensures
            stmts_view(r@) == enum_alter_sql(self, previous),
    {
        if can_safely_add_values(previous, self) {
            self.add_value_sql(previous)
        } else {
            let mut s = String::new();
            push_str(&mut s, "-- WARNING: enum ");
            push_qualified(&mut s, self.schema.as_str(), self.name.as_str());
            push_str(
                &mut s,
                " changed incompatibly and no safe automatic migration was generated.\n-- Previous labels: ",
            );
            let before = join_labels(&previous.labels);
            push_str(&mut s, before.as_str());
            push_str(&mut s, "\n-- Target labels: ");
            let after = join_labels(&self.labels);
            push_str(&mut s, after.as_str());
            push_str(
                &mut s,
                "\n-- Suggested manual approach:\n-- 1. Change dependent columns to TEXT with an explicit USING cast.\n-- 2. Rewrite any rows, defaults, functions, or views that still reference removed/renamed values.\n-- 3. Recreate the enum type with the desired labels.\n-- 4. Cast dependent columns back to the enum type.\nDO $$\nBEGIN\nRAISE EXCEPTION 'Unsafe enum migration required for ",
            );
            push_str(&mut s, self.schema.as_str());
            push_str(&mut s, ".");
            push_str(&mut s, self.name.as_str());
            push_str(&mut s, "';\nEND\n$$;\n");
            let mut v: Vec<(ChangeType, String)> = Vec::new();
            push_stmt(&mut v, ChangeType::AlterType, s);
            assert(stmts_view(v@) =~= seq![(ChangeType::AlterType, enum_warning_sql(self, previous))]);
            v
        }
    }

    /// Whether `alter_sql` can render the change from `previous`: when the
    /// change only adds labels, no label would be placed beyond the end of
    /// the labels present at that point.
    pub fn alter_renderable(&self, previous: &Self) -> (r: bool)
        ensures
            r == enum_alter_defined(self, previous),
    {
        if !can_safely_add_values(previous, self) {
            return true;
        }
        let ghost target = labels_of(self);
        let ghost whole = add_plan_defined(labels_of(previous), target, 0);
        let mut current = copy_strings(&previous.labels);
        for idx in 0..self.labels.len()
            invariant
                can_add_values_spec(previous, self),
                target == labels_of(self),
                whole == add_plan_defined(labels_of(previous), target, 0),
                add_plan_defined(views(current@), target, idx as nat) == whole,
        {
            let label = &self.labels[idx];
            assert(target[idx as int] == label@);
            if !strings_contain(&current, label) {
                if idx > current.len() {
                    assert(views(current@).len() == current.len());
                    assert(idx < target.len());
                    assert(!add_plan_defined(views(current@), target, idx as nat));
                    return false;
                }
                let ghost cur_before = views(current@);
                current.insert(idx, copy_string(label));
                assert(views(current@) =~= cur_before.insert(idx as int, label@));
            }
        }
        true
    }

    /// One `ADD VALUE` statement per label of `self` missing from
    /// `previous`, placed as PostgreSQL will see the labels after the
    /// earlier statements ran.
    pub fn add_value_sql(&self, previous: &Self) -> (r: Vec<(ChangeType, String)>)
        requires
            add_plan_defined(labels_of(previous), labels_of(self), 0),
        ensures
            stmts_view(r@) == render_plan(
                self.schema@,
                self.name@,
                add_plan(labels_of(previous), labels_of(self), 0),
            ),
    {
        let ghost target = labels_of(self);
        let ghost full = render_plan(self.schema@, self.name@, add_plan(labels_of(previous), target, 0));
        let mut current = copy_strings(&previous.labels);
        let mut statements: Vec<(ChangeType, String)> = Vec::new();
        for idx in 0..self.labels.len()
            invariant
                target == labels_of(self),
                full == stmts_view(statements@) + render_plan(
                    self.schema@,
                    self.name@,
                    add_plan(views(current@), target, idx as nat),
                ),
                add_plan_defined(views(current@), target, idx as nat),
        {
            let label = &self.labels[idx];
            assert(target[idx as int] == label@);
            let in_place = idx < current.len() && current[idx] == *label;
            if in_place {
                assert(views(current@)[idx as int] == label@);
            }
            if !in_place && !strings_contain(&current, label) {
                let mut s = String::new();
                push_str(&mut s, "ALTER TYPE ");
                push_qualified(&mut s, self.schema.as_str(), self.name.as_str());
                push_str(&mut s, " ADD VALUE ");
                push_literal(&mut s, label.as_str());
                let ghost before: Option<Seq<char>> = if idx < current.len() {
                    Some(current@[idx as int]@)
                } else {
                    None
                };
                if idx < current.len() {
                    push_str(&mut s, " BEFORE ");
                    push_literal(&mut s, current[idx].as_str());
                }
                push_str(&mut s, ";\n");
                let ghost step = (label@, before);
                assert(s@ == add_value_stmt(self.schema@, self.name@, step));
                let ghost cur_before = views(current@);
                let ghost stmts_before = stmts_view(statements@);
                push_stmt(&mut statements, ChangeType::AlterType, s);
                current.insert(idx, copy_string(label));
                proof {
                    assert(views(current@) =~= cur_before.insert(idx as int, label@));
                    let rest = add_plan(views(current@), target, (idx + 1) as nat);
                    assert(add_plan(cur_before, target, idx as nat) == seq![step] + rest);
                    assert(render_plan(self.schema@, self.name@, seq![step] + rest) =~= seq![
                        (ChangeType::AlterType, add_value_stmt(self.schema@, self.name@, step)),
                    ] + render_plan(self.schema@, self.name@, rest));
                    assert(stmts_view(statements@) == stmts_before + seq![
                        (ChangeType::AlterType, add_value_stmt(self.schema@, self.name@, step)),
                    ]);
                }
            }
        }
        proof {
            assert(render_plan(
                self.schema@,
                self.name@,
                add_plan(views(current@), target, self.labels.len() as nat),
            ) =~= Seq::<(ChangeType, Seq<char>)>::empty());
        }
        statements
    }
}

impl Enum {
    /// An enum from its catalog row.
    pub fn from_row(row: EnumRow) -> (e: Enum)
        ensures
            e.schema@ == row.schema@,
            e.name@ == row.name@,
            labels_of(&e) == views(row.labels@),
    {
        Enum { schema: row.schema, name: row.name, labels: row.labels }
    }
}

/// The position of the first occurrence of `x` in `s`.
pub open spec fn first_index(s: Seq<Seq<char>>, x: Seq<char>) -> int
    decreases s.len(),
{
    if s.len() == 0 {
        0
    } else if s[0] == x {
        0
    } else {
        1 + first_index(s.drop_first(), x)
    }
}

/// The labels after PostgreSQL runs one `ADD VALUE`: the label is inserted
/// before the first occurrence of the `BEFORE` label, or appended.
pub open spec fn apply_add_value(cur: Seq<Seq<char>>, step: (Seq<char>, Option<Seq<char>>)) -> Seq<Seq<char>> {
    match step.1 {
        Some(b) => cur.insert(first_index(cur, b), step.0),
        None => cur.push(step.0),
    }
}

/// The labels after PostgreSQL runs every `ADD VALUE` of `plan` in order.
pub open spec fn apply_plan(cur: Seq<Seq<char>>, plan: Seq<(Seq<char>, Option<Seq<char>>)>) -> Seq<Seq<char>>
    decreases plan.len(),
{
    if plan.len() == 0 {
        cur
    } else {
        apply_plan(apply_add_value(cur, plan[0]), plan.drop_first())
    }
}

proof fn lemma_keep_present_front(x: Seq<char>, s: Seq<Seq<char>>, p: Seq<Seq<char>>)
    ensures
        keep_present(seq![x] + s, p) == (if p.contains(x) {
            seq![x]
        } else {
            Seq::<Seq<char>>::empty()
        }) + keep_present(s, p),
    decreases s.len(),
{
    let pre = if p.contains(x) {
        seq![x]
    } else {
        Seq::<Seq<char>>::empty()
    };
    if s.len() == 0 {
        let xs = seq![x] + s;
        assert(xs =~= seq![x]);
        assert(xs.drop_last() =~= Seq::<Seq<char>>::empty());
        assert(xs.last() == x);
        assert(keep_present(xs.drop_last(), p) =~= Seq::<Seq<char>>::empty());
        assert(keep_present(s, p) =~= Seq::<Seq<char>>::empty());
        if p.contains(x) {
            assert(keep_present(xs, p) =~= seq![x]);
        } else {
            assert(keep_present(xs, p) =~= Seq::<Seq<char>>::empty());
        }
        assert(pre + keep_present(s, p) =~= pre);
    } else {
        let xs = seq![x] + s;
        let d = s.drop_last();
        assert(xs.drop_last() =~= seq![x] + d);
        assert(xs.last() == s.last());
        lemma_keep_present_front(x, d, p);
        if p.contains(s.last()) {
            assert(keep_present(xs, p) =~= (pre + keep_present(d, p)).push(s.last()));
            assert(pre + keep_present(s, p) =~= (pre + keep_present(d, p)).push(s.last()));
        } else {
            assert(keep_present(xs, p) =~= pre + keep_present(d, p));
        }
    }
}

proof fn lemma_keep_present_sub(s: Seq<Seq<char>>, p: Seq<Seq<char>>)
    ensures
        forall|y: Seq<char>| #[trigger] keep_present(s, p).contains(y) ==> s.contains(y) && p.contains(y),
        s.no_duplicates() ==> keep_present(s, p).no_duplicates(),
    decreases s.len(),
{
    if s.len() > 0 {
        let d = s.drop_last();
        let k = keep_present(s, p);
        let kd = keep_present(d, p);
        lemma_keep_present_sub(d, p);
        if p.contains(s.last()) {
            assert(k == kd.push(s.last()));
        } else {
            assert(k == kd);
        }
        assert forall|y: Seq<char>| k.contains(y) implies s.contains(y) && p.contains(y) by {
            let i = choose|i: int| 0 <= i < k.len() && k[i] == y;
            if i < kd.len() {
                assert(kd[i] == y);
                assert(kd.contains(y));
                let j = choose|j: int| 0 <= j < d.len() && d[j] == y;
                assert(s[j] == y);
            } else {
                assert(y == s.last());
                assert(s[s.len() - 1] == y);
            }
        }
        if s.no_duplicates() {
            assert(d.no_duplicates()) by {
                assert forall|i: int, j: int| 0 <= i < d.len() && 0 <= j < d.len() && i != j implies d[i] != d[j] by {
                    assert(d[i] == s[i] && d[j] == s[j]);
                }
            }
            if p.contains(s.last()) {
                assert(!d.contains(s.last())) by {
                    if d.contains(s.last()) {
                        let i = choose|i: int| 0 <= i < d.len() && d[i] == s.last();
                        assert(s[i] == s[s.len() - 1]);
                    }
                }
                assert(!kd.contains(s.last()));
                assert forall|i: int, j: int| 0 <= i < k.len() && 0 <= j < k.len() && i != j implies k[i] != k[j] by {
                    if i < kd.len() && j < kd.len() {
                        assert(k[i] == kd[i] && k[j] == kd[j]);
                    } else if i < kd.len() {
                        assert(k[i] == kd[i]);
                        assert(kd.contains(kd[i]));
                    } else if j < kd.len() {
                        assert(k[j] == kd[j]);
                        assert(kd.contains(kd[j]));
                    }
                }
            }
        }
    } else {
        assert(keep_present(s, p) =~= Seq::<Seq<char>>::empty());
    }
}

proof fn lemma_first_index_unique(s: Seq<Seq<char>>, i: int)
    requires
        s.no_duplicates(),
        0 <= i < s.len(),
    ensures
        first_index(s, s[i]) == i,
    decreases s.len(),
{
    if i > 0 {
        assert(s[0] != s[i]);
        let t = s.drop_first();
        assert(t.no_duplicates()) by {
            assert forall|a: int, b: int| 0 <= a < t.len() && 0 <= b < t.len() && a != b implies t[a] != t[b] by {
                assert(t[a] == s[a + 1] && t[b] == s[b + 1]);
            }
        }
        assert(t[i - 1] == s[i]);
        lemma_first_index_unique(t, i - 1);
    }
}

proof fn lemma_add_plan_reaches(
    cur: Seq<Seq<char>>,
    target: Seq<Seq<char>>,
    p: Seq<Seq<char>>,
    idx: nat,
)
    requires
        idx <= target.len(),
        target.no_duplicates(),
        cur == target.take(idx as int) + keep_present(target.skip(idx as int), p),
    ensures
        add_plan_defined(cur, target, idx),
        apply_plan(cur, add_plan(cur, target, idx)) == target,
    decreases target.len() - idx,
{
    let rest = keep_present(target.skip(idx as int), p);
    if idx == target.len() {
        assert(target.skip(idx as int) =~= Seq::<Seq<char>>::empty());
        assert(target.take(idx as int) =~= target);
        assert(cur =~= target);
    } else {
        let x = target[idx as int];
        assert(target.skip(idx as int) =~= seq![x] + target.skip(idx as int + 1));
        lemma_keep_present_front(x, target.skip(idx as int + 1), p);
        let rest1 = keep_present(target.skip(idx as int + 1), p);
        assert(target.take(idx as int + 1) =~= target.take(idx as int).push(x));
        lemma_keep_present_sub(target.skip(idx as int + 1), p);
        lemma_keep_present_sub(target.skip(idx as int), p);
        if p.contains(x) {
            assert(cur[idx as int] == x);
            assert(cur.contains(x));
            assert(cur =~= target.take(idx as int + 1) + rest1);
            lemma_add_plan_reaches(cur, target, p, (idx + 1) as nat);
        } else {
            assert(rest == rest1);
            assert(!cur.contains(x)) by {
                if cur.contains(x) {
                    let i = choose|i: int| 0 <= i < cur.len() && cur[i] == x;
                    if i < idx {
                        assert(target[i] == x);
                        assert(target[i] == target[idx as int]);
                    } else {
                        assert(rest.contains(x));
                    }
                }
            }
            let next = cur.insert(idx as int, x);
            assert(next =~= target.take(idx as int + 1) + rest1);
            lemma_add_plan_reaches(next, target, p, (idx + 1) as nat);
            let step = (x, if idx < cur.len() { Some(cur[idx as int]) } else { None });
            let plan = add_plan(cur, target, idx);
            assert(plan == seq![step] + add_plan(next, target, (idx + 1) as nat));
            assert(plan[0] == step);
            assert(plan.drop_first() =~= add_plan(next, target, (idx + 1) as nat));
            if idx < cur.len() {
                assert(cur.no_duplicates()) by {
                    let tk = target.take(idx as int);
                    assert forall|a: int, b: int| 0 <= a < cur.len() && 0 <= b < cur.len() && a != b implies cur[a] != cur[b] by {
                        if a < idx && b < idx {
                            assert(cur[a] == target[a] && cur[b] == target[b]);
                        } else if a >= idx && b >= idx {
                            assert(cur[a] == rest[a - idx] && cur[b] == rest[b - idx]);
                        } else if a < idx {
                            assert(cur[a] == target[a]);
                            assert(rest.contains(cur[b]));
                            assert(target.skip(idx as int).contains(cur[b]));
                            let k = choose|k: int| 0 <= k < target.skip(idx as int).len() && target.skip(idx as int)[k] == cur[b];
                            assert(target[k + idx] == cur[b]);
                        } else {
                            assert(cur[b] == target[b]);
                            assert(rest.contains(cur[a]));
                            assert(target.skip(idx as int).contains(cur[a]));
                            let k = choose|k: int| 0 <= k < target.skip(idx as int).len() && target.skip(idx as int)[k] == cur[a];
                            assert(target[k + idx] == cur[a]);
                        }
                    }
                }
                lemma_first_index_unique(cur, idx as int);
            }
            assert(apply_add_value(cur, step) == next);
        }
    }
}

/// When an enum change only adds labels and the target labels are
/// distinct, the generated `ADD VALUE` statements, run in order by
/// PostgreSQL against the previous labels, yield exactly the target labels
/// (and no statement places a label beyond the end).
pub proof fn lemma_add_values_reach_target(previous: &Enum, new: &Enum)
    requires
        can_add_values_spec(previous, new),
        labels_of(new).no_duplicates(),
    ensures
        add_plan_defined(labels_of(previous), labels_of(new), 0),
        apply_plan(labels_of(previous), add_plan(labels_of(previous), labels_of(new), 0))
            == labels_of(new),
{
    let t = labels_of(new);
    let p = labels_of(previous);
    assert(t.take(0) + keep_present(t.skip(0), p) =~= p) by {
        assert(t.skip(0) =~= t);
    }
    lemma_add_plan_reaches(p, t, p, 0);
}

impl SqlObject for Enum {
    open spec fn same(&self, other: &Self) -> bool {
        same_enum(self, other)
    }

    open spec fn drop_view(&self) -> Seq<(ChangeType, Seq<char>)> {
        seq![(ChangeType::DropType, enum_drop_sql(self))]
    }

    open spec fn change_view(&self, previous: &Self) -> Seq<(ChangeType, Seq<char>)> {
        enum_alter_sql(self, previous)
    }

    open spec fn change_defined(&self, previous: &Self) -> bool {
        enum_alter_defined(self, previous)
    }

    open spec fn create_view(&self) -> Seq<(ChangeType, Seq<char>)> {
        seq![(ChangeType::CreateType, enum_create_sql(self))]
    }

    proof fn lemma_same_refl(&self) {
    }

    fn same_as(&self, other: &Self) -> (r: bool) {
        self.schema == other.schema && self.name == other.name && strings_eq(
            &self.labels,
            &other.labels,
        )
    }

    fn drop_stmts(&self) -> (r: Vec<(ChangeType, String)>) {
        single_stmt(ChangeType::DropType, self.drop_sql())
    }

    fn change_stmts(&self, previous: &Self) -> (r: Vec<(ChangeType, String)>) {
        self.alter_sql(previous)
    }

    fn create_stmts(&self) -> (r: Vec<(ChangeType, String)>) {
        single_stmt(ChangeType::CreateType, self.create_sql())
    }
}

impl<'a> DiffSql for Diff<'a, Enum> {
    open spec fn sql_defined(&self) -> bool {
        diff_sql_defined(self)
    }

    /// Drops of removed enums, alterations of changed ones, creations of
    /// new ones.
    fn sql(&self) -> (r: Vec<(ChangeType, String)>)
        ensures
            stmts_view(r@) == diff_sql_spec(self),
    {
        render_diff(self)
    }
}

} // verus!
