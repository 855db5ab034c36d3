use tusker::cli::{Backend, DiffArgs};
use tokio_postgres::config::Host;
use tusker::config::{Config, DatabaseConfig, HostSetting, PgConfigError, SystemUser};
use tusker::query::check::{build_query_validation, check_sidecar, query_metadata, sql_type_marker, write_status, RowCheck, SqlMarker, ValidationError, WriteStatus};
use tusker::query::models::{Column, Query};

#[test]
fn defaults_and_template() {
    let d = Config::default();
    assert_eq!(d.schema.filename, "db/schema/**/*.sql");
    assert_eq!(d.migrations.filename, "db/migrations/**/*.sql");
    assert_eq!(d.queries.filename, "db/queries/**/*.sql");
    assert!(!d.diff.safe);
    assert!(d.diff.privileges);
    assert!(d.database.url.is_none());
    assert_eq!(d.database.dbname, "");
    let t = Config::template();
    assert_eq!(t.database.port, Some(5432));
    assert_eq!(t.database.url.as_deref(), Some(""));
    assert_eq!(t.database.user.as_deref(), Some(""));
}

fn db(user: Option<&str>, host: Option<&str>) -> DatabaseConfig {
    DatabaseConfig {
        url: None,
        host: host.map(|s| s.to_string()),
        port: Some(5433),
        user: user.map(|s| s.to_string()),
        password: None,
        dbname: "app".into(),
    }
}

#[test]
fn connection_settings_fall_back_to_socket_and_system_user() {
    let s = db(None, None).pg_settings(SystemUser::Name("alice".into()));
    match s.host {
        HostSetting::Path(p) => assert_eq!(p, "/var/run/postgresql"),
        HostSetting::Host(_) => panic!("expected a socket directory"),
    }
    assert_eq!(s.user, Ok("alice".to_string()));
    assert_eq!(s.port, Some(5433));
    assert_eq!(s.dbname, "app");
    let s = db(Some("bob"), Some("db.example")).pg_settings(SystemUser::Unknown);
    assert_eq!(s.user, Ok("bob".to_string()));
    match s.host {
        HostSetting::Host(h) => assert_eq!(h, "db.example"),
        HostSetting::Path(_) => panic!("expected a host"),
    }
    assert_eq!(
        db(None, None).pg_settings(SystemUser::Unknown).user,
        Err("No database user specified. Fallback to system user name failed.".to_string())
    );
    assert_eq!(
        db(None, None).pg_settings(SystemUser::NotUtf8).user,
        Err("System user name contains non-UTF-8 characters".to_string())
    );
}

#[test]
fn diff_backends_swap_on_reverse() {
    let mut args = DiffArgs {
        from: Backend::Migrations,
        to: Backend::Schema,
        reverse: false,
        safe: false,
        unsafe_drops: false,
        with_privileges: false,
        without_privileges: false,
    };
    assert_eq!(args.backends(), (Backend::Migrations, Backend::Schema));
    args.reverse = true;
    assert_eq!(args.backends(), (Backend::Schema, Backend::Migrations));
    assert_eq!(Backend::Database.name(), "database");
}

#[test]
fn sql_types_map_to_markers() {
    assert_eq!(sql_type_marker("int8"), Ok(SqlMarker::PgI64));
    assert_eq!(sql_type_marker("oid"), Ok(SqlMarker::PgI64));
    assert_eq!(sql_type_marker("ltxtquery"), Ok(SqlMarker::PgString));
    assert_eq!(sql_type_marker("jsonb"), Ok(SqlMarker::PgJson));
    assert_eq!(sql_type_marker("money"), Err("`money` is not supported yet".to_string()));
    assert_eq!(SqlMarker::PgTimestampTz.path(), "::tusker_query::types::PgTimestampTz");
}

fn col(name: &str, t: &str, notnull: Option<bool>) -> Column {
    Column { name: name.into(), column_type: t.into(), notnull }
}

fn query(params: &[&str], columns: Vec<Column>) -> Query {
    Query { checksum: vec![], params: params.iter().map(|p| p.to_string()).collect(), columns }
}

#[test]
fn query_validation_reports_the_first_problem() {
    let q = query(&["int4", "text"], vec![col("id", "int4", Some(true)), col("name", "text", None), col("x", "bool", Some(false))]);
    let v = match build_query_validation(2, &q) {
        Ok(v) => v,
        Err(_) => panic!("expected a validation"),
    };
    assert_eq!(v.params, vec![SqlMarker::PgI32, SqlMarker::PgString]);
    assert_eq!(v.row_len, 3);
    let checks: Vec<(usize, SqlMarker, RowCheck)> = v.columns.iter().map(|c| (c.index, c.marker, c.check)).collect();
    assert_eq!(
        checks,
        vec![
            (0, SqlMarker::PgI32, RowCheck::NotNull),
            (1, SqlMarker::PgString, RowCheck::MaybeNull),
            (2, SqlMarker::PgBool, RowCheck::MaybeNull),
        ]
    );
    match build_query_validation(1, &q) {
        Err(ValidationError::ParamCount(m)) => assert_eq!(
            m,
            "Query parameter count mismatch: Rust struct has 1 fields but the sidecar expects 2 parameters."
        ),
        _ => panic!("expected a count mismatch"),
    }
    let q = query(&["int4", "money", "point"], vec![]);
    match build_query_validation(3, &q) {
        Err(ValidationError::ParamType(i, m)) => {
            assert_eq!(i, 1);
            assert_eq!(m, "Unsupported SQL parameter type at position 2: `money` is not supported yet");
        }
        _ => panic!("expected a parameter type error"),
    }
    let q = query(&[], vec![col("id", "int4", Some(true)), col("p", "point", None)]);
    match build_query_validation(0, &q) {
        Err(ValidationError::ColumnType(m)) => assert_eq!(
            m,
            "Unsupported SQL result type for column `p` at position 2: `point` is not supported yet"
        ),
        _ => panic!("expected a column type error"),
    }
}

#[test]
fn sidecars_are_current_only_with_the_sql_digest() {
    let q = query_metadata(b"SELECT 1", vec!["int4".into()], vec![]);
    assert_eq!(q.checksum.len(), 64);
    let current = check_sidecar(b"SELECT 1", q, "db/queries/a.json");
    assert!(current.is_ok());
    let q = query_metadata(b"SELECT 1", vec![], vec![]);
    let stale = check_sidecar(b"SELECT 2", q, "db/queries/a.json");
    match stale {
        Err(m) => assert_eq!(m, "Query sidecar file db/queries/a.json is out of date. Run `tusker query sync` to refresh it."),
        Ok(_) => panic!("expected a stale sidecar"),
    }
}

#[test]
fn write_status_compares_with_the_existing_file() {
    assert_eq!(write_status(None, "x"), WriteStatus::Created);
    assert_eq!(write_status(Some("x"), "x"), WriteStatus::Unchanged);
    assert_eq!(write_status(Some("y"), "x"), WriteStatus::Updated);
    assert_eq!(WriteStatus::Unchanged.label(), "unchanged");
    assert_eq!(WriteStatus::Created.label(), "created");
}

#[test]
fn connection_parameters_take_the_url_then_the_settings() {
    let mut d = db(Some("bob"), Some("db.example"));
    d.url = Some("postgresql://carol@elsewhere:6000/other".into());
    d.password = Some("secret".into());
    let cfg = d.pg_config(SystemUser::Unknown).unwrap().into_config();
    assert_eq!(cfg.get_user(), Some("bob"));
    assert_eq!(cfg.get_dbname(), Some("app"));
    assert_eq!(cfg.get_password(), Some(&b"secret"[..]));
    assert_eq!(cfg.get_ports(), &[6000, 5433]);
    assert_eq!(cfg.get_hosts(), &[Host::Tcp("elsewhere".into()), Host::Tcp("db.example".into())]);
}

#[test]
fn connection_parameters_without_url_use_the_socket_and_system_user() {
    let cfg = db(None, None).pg_config(SystemUser::Name("alice".into())).unwrap().into_config();
    assert_eq!(cfg.get_user(), Some("alice"));
    assert_eq!(cfg.get_dbname(), Some("app"));
    assert_eq!(cfg.get_password(), None);
    assert_eq!(cfg.get_ports(), &[5433]);
    assert_eq!(cfg.get_hosts(), &[Host::Unix("/var/run/postgresql".into())]);
}

#[test]
fn a_refused_url_is_reported_before_a_missing_user() {
    let mut d = db(None, None);
    d.url = Some("postgresql://h:notaport/db".into());
    assert!(matches!(d.pg_config(SystemUser::Unknown), Err(PgConfigError::Url(_))));
    d.url = Some("postgresql://h:5432/db".into());
    match d.pg_config(SystemUser::Unknown) {
        Err(PgConfigError::User(m)) => {
            assert_eq!(m, "No database user specified. Fallback to system user name failed.")
        }
        _ => panic!("expected a missing user"),
    }
    match db(None, None).pg_config(SystemUser::NotUtf8) {
        Err(PgConfigError::User(m)) => assert_eq!(m, "System user name contains non-UTF-8 characters"),
        _ => panic!("expected a missing user"),
    }
}

#[test]
fn a_host_starting_with_a_slash_is_a_socket_directory() {
    let mut d = db(Some("bob"), Some("/tmp/pg"));
    d.port = None;
    d.password = Some("pä".into());
    let cfg = d.pg_config(SystemUser::Unknown).unwrap().into_config();
    assert_eq!(cfg.get_hosts(), &[Host::Unix("/tmp/pg".into())]);
    assert!(cfg.get_ports().is_empty());
    assert_eq!(cfg.get_password(), Some("pä".as_bytes()));
    assert_eq!(cfg.get_user(), Some("bob"));
}
