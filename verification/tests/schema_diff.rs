use tusker::diff::{ChangeType, Diff, DiffSql};
use tusker::models::extension::Extension;
use tusker::models::index::Index;
use tusker::models::routine::{Routine, RoutineKey};
use tusker::models::schema::{join_sql, Schema};
use tusker::rows::RoutineKind;
use tusker::sql::quote_ident;

#[test]
fn creates_extensions() {
    let from = Schema::new("public");
    let mut to = Schema::new("public");
    to.extensions.insert(
        "hstore".into(),
        Extension {
            schema: "public".into(),
            name: "hstore".into(),
            version: "1.8".into(),
        },
    );

    assert_eq!(
        from.diff_extensions(&to).sql(),
        vec![(
            ChangeType::CreateExtension,
            "CREATE EXTENSION IF NOT EXISTS \"hstore\" WITH SCHEMA \"public\" VERSION '1.8';\n".into(),
        )]
    );
}

#[test]
fn alters_extension_schema_and_version() {
    let mut from = Schema::new("public");
    from.extensions.insert(
        "postgis".into(),
        Extension {
            schema: "public".into(),
            name: "postgis".into(),
            version: "3.4.0".into(),
        },
    );
    let mut to = Schema::new("extensions");
    to.extensions.insert(
        "postgis".into(),
        Extension {
            schema: "extensions".into(),
            name: "postgis".into(),
            version: "3.5.0".into(),
        },
    );

    assert_eq!(
        from.diff_extensions(&to).sql(),
        vec![
            (
                ChangeType::AlterExtension,
                "ALTER EXTENSION \"postgis\" SET SCHEMA \"extensions\";\n".into(),
            ),
            (
                ChangeType::AlterExtension,
                "ALTER EXTENSION \"postgis\" UPDATE TO '3.5.0';\n".into(),
            ),
        ]
    );
}

#[test]
fn drops_extensions() {
    let mut from = Schema::new("public");
    from.extensions.insert(
        "hstore".into(),
        Extension {
            schema: "public".into(),
            name: "hstore".into(),
            version: "1.8".into(),
        },
    );
    let to = Schema::new("public");

    assert_eq!(
        from.diff_extensions(&to).sql(),
        vec![(
            ChangeType::DropExtension,
            "DROP EXTENSION IF EXISTS \"hstore\";\n".into(),
        )]
    );
}

fn index(name: &str, definition: &str) -> Index {
    Index {
        schema: "public".into(),
        table_name: "employees".into(),
        name: name.into(),
        definition: definition.into(),
    }
}

#[test]
fn creates_named_indexes() {
    let idx = index(
        "employees_tenant_id_idx",
        "CREATE INDEX employees_tenant_id_idx ON public.employees USING btree (tenant_id)",
    );
    let diff = Diff {
        a_only: vec![],
        a_and_b: vec![],
        b_only: vec![&idx],
    };

    assert_eq!(
        diff.sql(),
        vec![(
            ChangeType::CreateIndex,
            "CREATE INDEX employees_tenant_id_idx ON public.employees USING btree (tenant_id);\n".into(),
        )]
    );
}

#[test]
fn recreates_changed_unique_indexes() {
    let old = index(
        "employees_email_uidx",
        "CREATE UNIQUE INDEX employees_email_uidx ON public.employees USING btree (email)",
    );
    let new = index(
        "employees_email_uidx",
        "CREATE UNIQUE INDEX employees_email_uidx ON public.employees USING btree (lower(email))",
    );
    let diff = Diff {
        a_only: vec![],
        a_and_b: vec![(&old, &new)],
        b_only: vec![],
    };

    assert_eq!(
        diff.sql(),
        vec![
            (
                ChangeType::DropIndex,
                "DROP INDEX \"public\".\"employees_email_uidx\";\n".into(),
            ),
            (
                ChangeType::CreateIndex,
                "CREATE UNIQUE INDEX employees_email_uidx ON public.employees USING btree (lower(email));\n"
                    .into(),
            ),
        ]
    );
}

fn routine(name: &str, body: &str, dependencies: &[(&str, &str, &str)]) -> Routine {
    Routine {
        schema: "public".into(),
        name: name.into(),
        kind: RoutineKind::Function,
        identity_arguments: "a integer".into(),
        definition: format!(
            "CREATE OR REPLACE FUNCTION public.{name}(a integer)\nRETURNS integer\nLANGUAGE sql\nAS $$\n    {body}\n$$"
        ),
        dependencies: dependencies
            .iter()
            .map(|(schema, dep_name, identity_arguments)| RoutineKey::new(schema, dep_name, identity_arguments))
            .collect(),
    }
}

#[test]
fn orders_created_routines_by_dependency() {
    let base = routine("base_value", "SELECT a + 1;", &[]);
    let wrapper = routine(
        "wrapper_value",
        "SELECT public.base_value(a);",
        &[("public", "base_value", "a integer")],
    );
    let diff = Diff {
        a_only: vec![],
        a_and_b: vec![],
        b_only: vec![&wrapper, &base],
    };

    assert_eq!(
        join_sql(diff.sql()),
        "CREATE OR REPLACE FUNCTION public.base_value(a integer)\nRETURNS integer\nLANGUAGE sql\nAS $$\n    SELECT a + 1;\n$$;\n\nCREATE OR REPLACE FUNCTION public.wrapper_value(a integer)\nRETURNS integer\nLANGUAGE sql\nAS $$\n    SELECT public.base_value(a);\n$$;\n"
    );
}

#[test]
fn drops_dependents_before_dependencies() {
    let old_base = routine("base_value", "SELECT a + 1;", &[]);
    let old_wrapper = routine(
        "wrapper_value",
        "SELECT public.base_value(a);",
        &[("public", "base_value", "a integer")],
    );
    let new_base = routine("base_value", "SELECT a + 2;", &[]);
    let new_wrapper = routine(
        "wrapper_value",
        "SELECT public.base_value(a) + 10;",
        &[("public", "base_value", "a integer")],
    );
    let diff = Diff {
        a_only: vec![],
        a_and_b: vec![(&old_wrapper, &new_wrapper), (&old_base, &new_base)],
        b_only: vec![],
    };

    assert_eq!(
        join_sql(diff.sql()),
        "DROP FUNCTION \"public\".\"wrapper_value\"(a integer);\n\nDROP FUNCTION \"public\".\"base_value\"(a integer);\n\nCREATE OR REPLACE FUNCTION public.base_value(a integer)\nRETURNS integer\nLANGUAGE sql\nAS $$\n    SELECT a + 2;\n$$;\n\nCREATE OR REPLACE FUNCTION public.wrapper_value(a integer)\nRETURNS integer\nLANGUAGE sql\nAS $$\n    SELECT public.base_value(a) + 10;\n$$;\n"
    );
}

#[test]
fn join_sql_preserves_insertion_order_within_same_change_type() {
    let sql = join_sql(vec![
        (ChangeType::CreateRoutine, "second;\n".into()),
        (ChangeType::CreateRoutine, "first;\n".into()),
    ]);

    assert_eq!(sql, "second;\n\nfirst;\n");
}

#[test]
fn join_sql_creates_routines_before_tables() {
    let sql = join_sql(vec![
        (
            ChangeType::CreateTable,
            "CREATE TABLE uses_func (id integer);\n".into(),
        ),
        (
            ChangeType::CreateRoutine,
            "CREATE FUNCTION helper() RETURNS integer LANGUAGE sql AS $$ SELECT 1 $$;\n".into(),
        ),
    ]);

    assert_eq!(
        sql,
        "CREATE FUNCTION helper() RETURNS integer LANGUAGE sql AS $$ SELECT 1 $$;\n\nCREATE TABLE uses_func (id integer);\n"
    );
}

#[test]
fn quote_ident_doubles_quotes_but_leaves_backslashes() {
    assert_eq!(quote_ident("plain"), "\"plain\"");
    assert_eq!(quote_ident("a\"b"), "\"a\"\"b\"");
    assert_eq!(quote_ident(r"a\b"), r#""a\b""#);
}
