use std::path::PathBuf;

use tusker::migration::error::{io_error, MigrationError};
use tusker::migration::file::{add_migration_file, calculate_hash, parse_filename, parse_i32, IntFailure, MigrationFile};
use tusker::migration::models::{combine_migrations, DbMigration, Migration, MigrationStatus};
use tusker::migration::plan::{all_applied, log_style, plan_fix, plan_run, FixAction, LogStyle};

const HELLO_WORLD_SHA512: &str = "309ecc489c12d6eb4cc40f50c902f2b4d0ed77ee511a7c7a9bcd3ca86d4cd86f989dd35bc5ff499670da34255b45b0cfd830e81f605dcf7dc5542e93ae9cd76f";

fn hex(bytes: &[u8]) -> String {
    bytes.iter().map(|b| format!("{:02x}", b)).collect()
}

fn misc(e: MigrationError) -> String {
    match e {
        MigrationError::Misc(m) => m,
        other => panic!("unexpected error: {:?}", other),
    }
}

fn file(number: i32, name: &str, contents: &[u8]) -> MigrationFile {
    MigrationFile {
        path: PathBuf::from(format!("db/migrations/{:04}_{}.sql", number, name)),
        number,
        name: name.into(),
        hash: calculate_hash(contents),
    }
}

fn db(number: i32, name: &str, contents: &[u8]) -> DbMigration {
    DbMigration { number, name: name.into(), hash: calculate_hash(contents) }
}

#[test]
fn hashes_contents_with_sha512() {
    let h = calculate_hash(b"hello world");
    assert_eq!(h.len(), 64);
    assert_eq!(hex(&h), HELLO_WORLD_SHA512);
    assert_ne!(calculate_hash(b"hello world"), calculate_hash(b"hello world!"));
}

#[test]
fn parses_numbers_like_the_standard_library() {
    for s in ["0", "42", "-7", "+13", "0001", "2147483647", "-2147483648", "", "+", "-", "1a", "a1", "--1", "2147483648", "-2147483649", "99999999999x", "1x99999999999", "٣"] {
        let expected = s.parse::<i32>();
        let got = parse_i32(s);
        match (expected, got) {
            (Ok(a), Ok(b)) => assert_eq!(a, b, "{:?}", s),
            (Err(e), Err(f)) => {
                let kind = match f {
                    IntFailure::Empty => std::num::IntErrorKind::Empty,
                    IntFailure::InvalidDigit => std::num::IntErrorKind::InvalidDigit,
                    IntFailure::PosOverflow => std::num::IntErrorKind::PosOverflow,
                    IntFailure::NegOverflow => std::num::IntErrorKind::NegOverflow,
                };
                assert_eq!(e.kind(), &kind, "{:?}", s);
            }
            (a, b) => panic!("{:?}: {:?} vs {:?}", s, a, b),
        }
    }
}

#[test]
fn parses_file_names_at_the_first_underscore() {
    assert_eq!(parse_filename("0001_initial".into()), Ok((1, "initial".to_string())));
    assert_eq!(parse_filename("0002_add_users".into()), Ok((2, "add_users".to_string())));
    assert_eq!(parse_filename("7".into()), Ok((7, "".to_string())));
    assert_eq!(parse_filename("-3_x".into()), Ok((-3, "x".to_string())));
    assert_eq!(
        parse_filename("initial".into()),
        Err("Invalid number: invalid digit found in string".to_string())
    );
    assert_eq!(
        parse_filename("_initial".into()),
        Err("Invalid number: cannot parse integer from empty string".to_string())
    );
    assert_eq!(
        parse_filename("99999999999_big".into()),
        Err("Invalid number: number too large to fit in target type".to_string())
    );
    assert_eq!(
        parse_filename("-99999999999_small".into()),
        Err("Invalid number: number too small to fit in target type".to_string())
    );
}

#[test]
fn builds_migration_files_from_paths() {
    let path = PathBuf::from("db/migrations/0003_fix_indexes.sql");
    let f = MigrationFile::from_path(
        path.clone(),
        Some("0003_fix_indexes".into()),
        "db/migrations/0003_fix_indexes.sql",
        "\"db/migrations/0003_fix_indexes.sql\"",
        Ok(b"hello world".to_vec()),
    )
    .unwrap();
    assert_eq!(f.path, path);
    assert_eq!(f.number, 3);
    assert_eq!(f.name, "fix_indexes");
    assert_eq!(hex(&f.hash), HELLO_WORLD_SHA512);

    let no_stem = MigrationFile::from_path(PathBuf::from("/"), None, "/", "\"/\"", Ok(vec![]));
    assert_eq!(misc(no_stem.err().unwrap()), "Invalid filename: /");

    let bad = MigrationFile::from_path(
        PathBuf::from("db/migrations/abc.sql"),
        Some("abc".into()),
        "db/migrations/abc.sql",
        "\"db/migrations/abc.sql\"",
        Err(io_error(std::io::Error::new(std::io::ErrorKind::Other, "unreadable"))),
    );
    assert_eq!(
        misc(bad.err().unwrap()),
        "Invalid filename \"db/migrations/abc.sql\": Invalid number: invalid digit found in string"
    );

    let unreadable = MigrationFile::from_path(
        PathBuf::from("db/migrations/0001_a.sql"),
        Some("0001_a".into()),
        "db/migrations/0001_a.sql",
        "\"db/migrations/0001_a.sql\"",
        Err(io_error(std::io::Error::new(std::io::ErrorKind::Other, "unreadable"))),
    );
    match unreadable.err().unwrap() {
        MigrationError::Io(m, _) => assert_eq!(m, "I/O error"),
        other => panic!("unexpected error: {:?}", other),
    }
}

#[test]
fn refuses_two_files_with_one_number() {
    let mut files = Vec::new();
    assert!(add_migration_file(&mut files, file(1, "a", b"a")).is_ok());
    assert!(add_migration_file(&mut files, file(2, "b", b"b")).is_ok());
    let e = add_migration_file(&mut files, file(1, "c", b"c")).err().unwrap();
    assert_eq!(misc(e), "Migration folder contains multiple files for number 1");
    assert_eq!(files.len(), 2);
}

#[test]
fn error_messages_join_the_cause() {
    let e = io_error(std::io::Error::new(std::io::ErrorKind::Other, "disk on fire"));
    assert_eq!(e.message(), "I/O error: disk on fire");
    assert_eq!(MigrationError::Misc("plain".into()).message(), "plain");
    assert_eq!(MigrationError::Sql("LINE 1: x".into()).message(), "LINE 1: x");
}

fn statuses(ms: &[Migration]) -> Vec<&'static str> {
    ms.iter()
        .map(|m| match m.get_status() {
            MigrationStatus::Applied(_, _) => "applied",
            MigrationStatus::Mismatch(_, _) => "mismatch",
            MigrationStatus::NotApplied(_) => "new",
            MigrationStatus::FileMissing(_) => "missing",
        })
        .collect()
}

#[test]
fn combines_files_and_log_by_number() {
    let files = vec![file(3, "c", b"c"), file(1, "a", b"a"), file(2, "b", b"b"), file(5, "e", b"e")];
    let dbs = vec![db(4, "d", b"d"), db(1, "a", b"a"), db(2, "b", b"changed"), db(3, "renamed", b"c")];
    let ms = combine_migrations(&files, &dbs);
    let numbers: Vec<i32> = ms.iter().map(|m| m.number).collect();
    assert_eq!(numbers, vec![1, 2, 3, 4, 5]);
    assert_eq!(statuses(&ms), vec!["applied", "mismatch", "mismatch", "missing", "new"]);
    assert_eq!(ms[0].file.as_ref().unwrap().name, "a");
    assert_eq!(ms[0].file.as_ref().unwrap().path, PathBuf::from("db/migrations/0001_a.sql"));
    assert_eq!(hex(&ms[0].file.as_ref().unwrap().hash), hex(&calculate_hash(b"a")));
    assert_eq!(ms[3].db.as_ref().unwrap().name, "d");
    assert_eq!(ms[1].status_label(), "Mismatch: hash");
    assert_eq!(ms[2].status_label(), "Mismatch: name");
    assert_eq!(ms[3].status_label(), "Migration file missing");
    assert_eq!(ms[3].listed_name(), "d");
    assert_eq!(ms[4].status_label(), "New");
    assert_eq!(ms[0].status_label(), "Ok");
}

#[test]
fn later_files_and_log_entries_of_a_number_win() {
    let files = vec![file(1, "first", b"x"), file(1, "second", b"y")];
    let dbs = vec![db(1, "old", b"x"), db(1, "second", b"y")];
    let ms = combine_migrations(&files, &dbs);
    assert_eq!(ms.len(), 1);
    assert_eq!(ms[0].file.as_ref().unwrap().name, "second");
    assert_eq!(ms[0].db.as_ref().unwrap().name, "second");
    assert_eq!(statuses(&ms), vec!["applied"]);
}

#[test]
fn combining_nothing_gives_nothing() {
    assert!(combine_migrations(&[], &[]).is_empty());
}

#[test]
fn run_applies_new_migrations_up_to_the_first_problem() {
    let files = vec![file(1, "a", b"a"), file(2, "b", b"b"), file(3, "c", b"c"), file(4, "d", b"d")];
    let dbs = vec![db(1, "a", b"a"), db(3, "c", b"other")];
    let ms = combine_migrations(&files, &dbs);
    let plan = plan_run(&ms);
    assert_eq!(plan.apply, vec![1]);
    assert_eq!(
        misc(plan.failure.unwrap()),
        "Migration file mismatch found. See `status` for more details"
    );

    let dbs = vec![db(1, "a", b"a"), db(9, "gone", b"z")];
    let ms = combine_migrations(&files, &dbs);
    let plan = plan_run(&ms);
    assert_eq!(plan.apply, vec![1, 2, 3]);
    assert_eq!(misc(plan.failure.unwrap()), "Migration file missing. See `status` for more details");

    let ms = combine_migrations(&files, &[db(1, "a", b"a")]);
    let plan = plan_run(&ms);
    assert_eq!(plan.apply, vec![1, 2, 3]);
    assert!(plan.failure.is_none());
    assert!(!all_applied(&ms));
    let all = combine_migrations(&files[..1], &[db(1, "a", b"a")]);
    assert!(all_applied(&all));
}

#[test]
fn fix_picks_the_action_for_the_status() {
    let files = vec![file(1, "a", b"a"), file(2, "b", b"b"), file(3, "c", b"c")];
    let dbs = vec![db(1, "a", b"a"), db(2, "b", b"changed"), db(4, "d", b"d")];
    let ms = combine_migrations(&files, &dbs);
    assert_eq!(misc(plan_fix(&ms, 1).err().unwrap()), "Migration does not require fixing: 1");
    assert_eq!(misc(plan_fix(&ms, 7).err().unwrap()), "Migration number does not exist: 7");
    assert_eq!(misc(plan_fix(&ms, -7).err().unwrap()), "Migration number does not exist: -7");
    match plan_fix(&ms, 2) {
        Ok(FixAction::Update(f)) => assert_eq!(f.name, "b"),
        _ => panic!("expected an update"),
    }
    match plan_fix(&ms, 3) {
        Ok(FixAction::Fake(f)) => assert_eq!(f.number, 3),
        _ => panic!("expected a fake"),
    }
    match plan_fix(&ms, 4) {
        Ok(FixAction::Remove(n)) => assert_eq!(n, 4),
        _ => panic!("expected a removal"),
    }
}

#[test]
fn log_operations_have_styles() {
    assert_eq!(log_style("apply"), LogStyle::Applied);
    assert_eq!(log_style("update"), LogStyle::Modified);
    assert_eq!(log_style("fake"), LogStyle::Modified);
    assert_eq!(log_style("delete"), LogStyle::Removed);
    assert_eq!(log_style("other"), LogStyle::Plain);
}

#[test]
fn written_file_names_read_back() {
    for (n, name) in [(0, "initial"), (1, "add_users"), (-12, "x_y_z"), (i32::MAX, ""), (i32::MIN, "min"), (7, "ü")] {
        assert_eq!(parse_filename(format!("{}_{}", n, name)), Ok((n, name.to_string())));
    }
}
