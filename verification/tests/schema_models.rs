use tusker::collection::KeyMap;
use tusker::diff::{diff, ChangeType, Diff, DiffSql};
use tusker::inspection::Inspection;
use tusker::models::catalog::SchemaRows;
use tusker::models::constraint::{Constraint, ConstraintType};
use tusker::models::enums::{can_safely_add_values, Enum};
use tusker::models::schema::change_renderable;
use tusker::models::routine::{topological_order, Routine, RoutineKey};
use tusker::models::schema::{join_sql, Schema};
use tusker::models::view::View;
use tusker::rows::{Class, ConstraintRow, EnumRow, Relkind, RoutineDependencyRow, RoutineKind, RoutineRow};
use tusker::sql::StatementBuilder;

fn en(labels: &[&str]) -> Enum {
    Enum {
        schema: "public".into(),
        name: "mood".into(),
        labels: labels.iter().map(|l| l.to_string()).collect(),
    }
}

#[test]
fn enum_values_are_added_in_place() {
    let previous = en(&["a", "c"]);
    let target = en(&["a", "b", "c", "d"]);
    assert!(can_safely_add_values(&previous, &target));
    assert_eq!(
        target.alter_sql(&previous),
        vec![
            (ChangeType::AlterType, "ALTER TYPE \"public\".\"mood\" ADD VALUE 'b' BEFORE 'c';\n".to_string()),
            (ChangeType::AlterType, "ALTER TYPE \"public\".\"mood\" ADD VALUE 'd';\n".to_string()),
        ]
    );
}

#[test]
fn enum_values_that_vanish_need_a_manual_migration() {
    let previous = en(&["a", "b"]);
    let target = en(&["b", "a"]);
    assert!(!can_safely_add_values(&previous, &target));
    let sql = target.alter_sql(&previous);
    assert_eq!(sql.len(), 1);
    assert_eq!(sql[0].0, ChangeType::AlterType);
    assert_eq!(
        sql[0].1,
        "-- WARNING: enum \"public\".\"mood\" changed incompatibly and no safe automatic migration was generated.\n-- Previous labels: 'a', 'b'\n-- Target labels: 'b', 'a'\n-- Suggested manual approach:\n-- 1. Change dependent columns to TEXT with an explicit USING cast.\n-- 2. Rewrite any rows, defaults, functions, or views that still reference removed/renamed values.\n-- 3. Recreate the enum type with the desired labels.\n-- 4. Cast dependent columns back to the enum type.\nDO $$\nBEGIN\nRAISE EXCEPTION 'Unsafe enum migration required for public.mood';\nEND\n$$;\n"
    );
}

#[test]
fn enums_are_created_and_dropped() {
    let e = en(&["it's", "b"]);
    let none: Vec<&Enum> = vec![];
    let d = Diff { a_only: none.clone(), a_and_b: vec![], b_only: vec![&e] };
    assert_eq!(
        d.sql(),
        vec![(ChangeType::CreateType, "CREATE TYPE \"public\".\"mood\" AS ENUM ('it''s', 'b');\n".to_string())]
    );
    let d = Diff { a_only: vec![&e], a_and_b: vec![], b_only: none };
    assert_eq!(d.sql(), vec![(ChangeType::DropType, "DROP TYPE \"public\".\"mood\";\n".to_string())]);
}

fn routine(name: &str, deps: &[&str]) -> Routine {
    Routine {
        schema: "public".into(),
        name: name.into(),
        kind: RoutineKind::Function,
        identity_arguments: "".into(),
        definition: format!("CREATE FUNCTION {name}()"),
        dependencies: deps.iter().map(|d| RoutineKey::new("public", d, "")).collect(),
    }
}

fn names(v: &[&Routine]) -> Vec<String> {
    v.iter().map(|r| r.name.clone()).collect()
}

#[test]
fn topological_order_puts_dependencies_first_and_breaks_ties_by_key() {
    let c = routine("c", &["a"]);
    let b = routine("b", &[]);
    let a = routine("a", &["b"]);
    let d = routine("d", &[]);
    assert_eq!(names(&topological_order(vec![&c, &b, &a, &d], false)), vec!["b", "a", "c", "d"]);
    assert_eq!(names(&topological_order(vec![&c, &b, &a, &d], true)), vec!["d", "c", "a", "b"]);
}

#[test]
fn topological_order_appends_cycles_by_key() {
    let x = routine("x", &["y"]);
    let y = routine("y", &["x"]);
    let z = routine("z", &["x"]);
    let w = routine("w", &[]);
    assert_eq!(names(&topological_order(vec![&z, &y, &x, &w], false)), vec!["w", "x", "y", "z"]);
    let s = routine("s", &["s"]);
    assert_eq!(names(&topological_order(vec![&s, &w], false)), vec!["w", "s"]);
}

#[test]
fn topological_order_keeps_the_last_routine_of_a_key() {
    let first = Routine { definition: "first".into(), ..routine("a", &[]) };
    let second = Routine { definition: "second".into(), ..routine("a", &[]) };
    let out = topological_order(vec![&first, &second], false);
    assert_eq!(out.len(), 1);
    assert_eq!(out[0].definition, "second");
}

#[test]
fn routines_are_read_with_sorted_distinct_dependencies() {
    let dep = |n: &str| RoutineDependencyRow { schema: "public".into(), name: n.into(), identity_arguments: "".into() };
    let r = Routine::from_row(RoutineRow {
        schema: "public".into(),
        name: "f".into(),
        kind: RoutineKind::Procedure,
        identity_arguments: "".into(),
        definition: "CREATE PROCEDURE f();\n".into(),
        dependencies: vec![dep("b"), dep("a"), dep("b")],
    });
    let names: Vec<String> = r.dependencies.iter().map(|k| k.name.clone()).collect();
    assert_eq!(names, vec!["a", "b"]);
    assert_eq!(r.drop_sql(), "DROP PROCEDURE \"public\".\"f\"();\n");
    assert_eq!(r.create_sql(), "CREATE PROCEDURE f();\n");
}

#[test]
fn join_sql_orders_by_kind_and_keeps_order_within_a_kind() {
    let sql = join_sql(vec![
        (ChangeType::CreateTrigger, "t;".into()),
        (ChangeType::CreateConstraint(ConstraintType::ForeignKey), "fk;".into()),
        (ChangeType::CreateConstraint(ConstraintType::PrimaryKey), "pk;".into()),
        (ChangeType::DropConstraint(ConstraintType::PrimaryKey), "dpk;".into()),
        (ChangeType::DropConstraint(ConstraintType::ForeignKey), "dfk;".into()),
        (ChangeType::DropRoutine, "dr1;".into()),
        (ChangeType::DropRoutine, "dr2;".into()),
    ]);
    assert_eq!(sql, "dfk;\ndpk;\ndr1;\ndr2;\npk;\nfk;\nt;");
    assert_eq!(join_sql(vec![]), "");
}

#[test]
fn diff_matches_by_key() {
    let a1 = en(&["x"]);
    let a2 = Enum { name: "other".into(), ..en(&["x"]) };
    let b1 = en(&["y"]);
    let b2 = Enum { name: "third".into(), ..en(&["x"]) };
    let d = diff(vec![&a1, &a2], vec![&b1, &b2]);
    assert_eq!(d.a_only, vec![&a2]);
    assert_eq!(d.a_and_b, vec![(&a1, &b1)]);
    assert_eq!(d.b_only, vec![&b2]);
}

#[test]
fn statement_builder_joins_parts_with_spaces() {
    let mut b = StatementBuilder::new();
    b.part("DROP TABLE");
    b.ident("my \"table\"");
    assert_eq!(b.to_string(), "DROP TABLE \"my \"\"table\"\"\"");
}

#[test]
fn key_map_replaces_in_place() {
    let mut m: KeyMap<String, i32> = KeyMap::new();
    assert_eq!(m.insert("a".into(), 1), None);
    assert_eq!(m.insert("b".into(), 2), None);
    assert_eq!(m.insert("a".into(), 3), Some(1));
    assert_eq!(m.len(), 2);
    assert_eq!(m.get(&"a".to_string()), Some(&3));
    assert_eq!(m.values(), vec![&3, &2]);
}

fn rows() -> SchemaRows {
    SchemaRows {
        enums: vec![
            EnumRow { schema: "app".into(), name: "mood".into(), labels: vec!["a".into()] },
            EnumRow { schema: "app".into(), name: "mood".into(), labels: vec!["b".into()] },
        ],
        domains: vec![],
        extensions: vec![],
        indexes: vec![],
        classes: vec![
            Class { schema: "app".into(), name: "t".into(), relkind: Relkind::OrdinaryTable, viewdef: None },
            Class { schema: "app".into(), name: "v".into(), relkind: Relkind::View, viewdef: Some("SELECT 1".into()) },
            Class {
                schema: "app".into(),
                name: "m".into(),
                relkind: Relkind::MaterializedView,
                viewdef: Some("SELECT 2".into()),
            },
        ],
        constraints: vec![
            ConstraintRow { table: "t".into(), name: "t_pkey".into(), constraint_type: ConstraintType::PrimaryKey, def: "PRIMARY KEY (id)".into() },
            ConstraintRow { table: "t".into(), name: "t_id_not_null".into(), constraint_type: ConstraintType::NotNull, def: "NOT NULL id".into() },
        ],
        routines: vec![],
        triggers: vec![],
    }
}

#[test]
fn schemas_are_built_from_catalog_rows() {
    let s = Schema::from_rows("app", rows());
    assert_eq!(s.name, "app");
    assert_eq!(s.enums.len(), 1);
    assert_eq!(s.enums.get(&"mood".to_string()).unwrap().labels, vec!["b".to_string()]);
    assert_eq!(s.views.len(), 2);
    let m: &View = s.views.get(&"m".to_string()).unwrap();
    assert!(m.materialized);
    assert_eq!(m.create(), "CREATE OR REPLACE MATERIALIZED VIEW \"app\".\"m\" AS\nSELECT 2;\n");
    assert_eq!(s.constraints.len(), 1);
    let c: &Constraint = s.constraints.get(&("t".to_string(), "t_pkey".to_string())).unwrap();
    assert_eq!(c.schema, "app");
}

#[test]
fn an_inspection_does_not_differ_from_itself() {
    let mut i = Inspection::empty();
    i.schemas.insert("app".into(), Schema::from_rows("app", rows()));
    let d = i.diff(&i);
    assert!(d.a_only.is_empty());
    assert!(d.b_only.is_empty());
    assert_eq!(d.a_and_b.len(), 1);
    assert!(d.sql().is_empty());
}

#[test]
fn inspections_compare_regardless_of_order() {
    let mut a = Schema::new("app");
    a.extensions.insert("x".into(), tusker::models::extension::Extension { schema: "app".into(), name: "x".into(), version: "1".into() });
    a.extensions.insert("y".into(), tusker::models::extension::Extension { schema: "app".into(), name: "y".into(), version: "2".into() });
    let mut b = Schema::new("app");
    b.extensions.insert("y".into(), tusker::models::extension::Extension { schema: "app".into(), name: "y".into(), version: "2".into() });
    b.extensions.insert("x".into(), tusker::models::extension::Extension { schema: "app".into(), name: "x".into(), version: "1".into() });
    let mut i = Inspection::empty();
    i.schemas.insert("app".into(), a);
    let mut j = Inspection::empty();
    j.schemas.insert("app".into(), b);
    assert!(i.same_as(&j));
    assert!(j.same_as(&i));
    let mut c = Schema::new("app");
    c.extensions.insert("x".into(), tusker::models::extension::Extension { schema: "app".into(), name: "x".into(), version: "9".into() });
    let mut k = Inspection::empty();
    k.schemas.insert("app".into(), c);
    assert!(!i.same_as(&k));
    assert!(Inspection::empty().same_as(&Inspection::empty()));
}

fn named(name: &str, labels: &[&str]) -> Enum {
    Enum { name: name.into(), ..en(labels) }
}

#[test]
fn diff_with_sides_swapped_swaps_the_result() {
    let a = [named("a", &["1"]), named("b", &["1"]), named("c", &["1"])];
    let b = [named("b", &["2"]), named("c", &["2"]), named("d", &["2"])];
    let d1 = diff(a.iter().collect(), b.iter().collect());
    let d2 = diff(b.iter().collect(), a.iter().collect());
    assert_eq!(d1.a_only, vec![&a[0]]);
    assert_eq!(d1.b_only, vec![&b[2]]);
    assert_eq!(d2.a_only, d1.b_only);
    assert_eq!(d2.b_only, d1.a_only);
    assert_eq!(d2.a_and_b, d1.a_and_b.iter().map(|(x, y)| (*y, *x)).collect::<Vec<_>>());
    assert_eq!(d2.a_and_b, vec![(&b[0], &a[1]), (&b[1], &a[2])]);
}

fn no_rows() -> SchemaRows {
    SchemaRows {
        enums: vec![],
        domains: vec![],
        extensions: vec![],
        indexes: vec![],
        classes: vec![],
        constraints: vec![],
        routines: vec![],
        triggers: vec![],
    }
}

#[test]
fn inspection_stores_each_schema_under_its_name() {
    let i = Inspection::from_rows(vec![("app".into(), rows()), ("empty".into(), no_rows())]);
    assert_eq!(i.schemas.len(), 2);
    let app = i.schemas.get(&"app".to_string()).unwrap();
    assert_eq!(app.name, "app");
    assert_eq!(app.enums.get(&"mood".to_string()).unwrap().labels, vec!["b".to_string()]);
    assert_eq!(app.views.len(), 2);
    let empty = i.schemas.get(&"empty".to_string()).unwrap();
    assert_eq!(empty.name, "empty");
    assert_eq!(empty.enums.len(), 0);
    assert!(i.schemas.get(&"other".to_string()).is_none());
}

#[test]
fn enum_changes_are_renderable() {
    assert!(en(&["a", "b", "c", "d"]).alter_renderable(&en(&["a", "c"])));
    assert!(en(&["x"]).alter_renderable(&en(&[])));
    assert!(en(&["b", "a"]).alter_renderable(&en(&["a", "b"])));
    let mut a = Schema::new("app");
    a.enums.insert("mood".into(), en(&["a", "c"]));
    let mut b = Schema::new("app");
    b.enums.insert("mood".into(), en(&["a", "b", "c"]));
    assert!(change_renderable(&a, &b));
    assert!(change_renderable(&b, &a));
}

#[test]
fn inspection_diff_swapped_swaps_the_result() {
    let i = Inspection::from_rows(vec![("b".into(), no_rows()), ("a".into(), no_rows())]);
    let j = Inspection::from_rows(vec![("c".into(), no_rows()), ("b".into(), no_rows())]);
    let d1 = i.diff(&j);
    let d2 = j.diff(&i);
    let names = |v: &Vec<&Schema>| v.iter().map(|s| s.name.clone()).collect::<Vec<_>>();
    assert_eq!(names(&d1.a_only), vec!["a".to_string()]);
    assert_eq!(names(&d1.b_only), vec!["c".to_string()]);
    assert_eq!(names(&d2.a_only), names(&d1.b_only));
    assert_eq!(names(&d2.b_only), names(&d1.a_only));
    assert_eq!(d1.a_and_b.len(), 1);
    assert_eq!(d2.a_and_b, d1.a_and_b.iter().map(|(x, y)| (*y, *x)).collect::<Vec<_>>());
}

#[test]
fn sorting_by_key_keeps_equal_keys_in_order() {
    let b1 = named("b", &["1"]);
    let a = named("a", &["1"]);
    let b2 = named("b", &["2"]);
    let c = named("c", &["1"]);
    let sorted = tusker::order::sorted_by_key(vec![&c, &b1, &a, &b2]);
    assert_eq!(sorted, vec![&a, &b1, &b2, &c]);
    assert_eq!(sorted[1].labels, vec!["1".to_string()]);
    assert_eq!(sorted[2].labels, vec!["2".to_string()]);
}
