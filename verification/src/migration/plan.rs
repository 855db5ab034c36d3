//! What the migration commands decide from the matched migrations: which
//! to apply, whether all are applied, how to fix one, and how each reads in
//! a listing.
use vstd::prelude::*;
use crate::migration::error::MigrationError;
use crate::migration::file::MigrationFile;
use crate::migration::models::{DbMigration, Migration, MigrationStatus, file_matches_db, numbers_increase};
use crate::text::{decimal_i32, push_str, signed_decimal, string_of};

verus! {

/// How a migration stands against the log, without its parts.
#[derive(Debug, Clone, Copy, PartialEq, Eq, Structural)]
pub enum StatusKind {
    Applied,
    Mismatch,
    NotApplied,
    FileMissing,
}

/// Whether a migration has a file, a log entry or both.
pub open spec fn has_part(m: Migration) -> bool {
    m.file is Some || m.db is Some
}

/// How a migration with a file or a log entry stands.
pub open spec fn status_kind(m: Migration) -> StatusKind {
    match (m.file, m.db) {
        (Some(f), Some(d)) => if file_matches_db(f, d) {
            StatusKind::Applied
        } else {
            StatusKind::Mismatch
        },
        (Some(_), None) => StatusKind::NotApplied,
        _ => StatusKind::FileMissing,
    }
}

/// Whether every migration has a file or a log entry.
pub open spec fn all_have_parts(ms: Seq<Migration>) -> bool {
    forall|i: int| 0 <= i < ms.len() ==> has_part(#[trigger] ms[i])
}

fn kind_of(m: &Migration) -> (k: StatusKind)
    requires
        has_part(*m),
    ensures
        k == status_kind(*m),
{
    match m.get_status() {
        MigrationStatus::Applied(_, _) => StatusKind::Applied,
        MigrationStatus::Mismatch(_, _) => StatusKind::Mismatch,
        MigrationStatus::NotApplied(_) => StatusKind::NotApplied,
        MigrationStatus::FileMissing(_) => StatusKind::FileMissing,
    }
}

/// Whether every migration is applied as its file says.
pub fn all_applied(migrations: &[Migration]) -> (r: bool)
    requires
        all_have_parts(migrations@),
    ensures
        r == forall|i: int| 0 <= i < migrations@.len() ==> status_kind(#[trigger] migrations@[i]) == StatusKind::Applied,
{
    let mut i: usize = 0;
    while i < migrations.len()
        invariant
            i <= migrations@.len(),
            all_have_parts(migrations@),
            forall|j: int| 0 <= j < i ==> status_kind(#[trigger] migrations@[j]) == StatusKind::Applied,
        decreases migrations.len() - i,
    {
        if kind_of(&migrations[i]) != StatusKind::Applied {
            return false;
        }
        i = i + 1;
    }
    true
}

/// Whether a migration stops a run: its file does not match the log, or
/// its file is gone.
pub open spec fn blocks_run(m: Migration) -> bool {
    status_kind(m) == StatusKind::Mismatch || status_kind(m) == StatusKind::FileMissing
}

/// The first position of `ms` whose migration stops a run, or its length.
pub open spec fn run_stop(ms: Seq<Migration>) -> int
    decreases ms.len(),
{
    if ms.len() == 0 {
        0
    } else if blocks_run(ms[0]) {
        0
    } else {
        1 + run_stop(ms.drop_first())
    }
}

/// The positions before `end` of migrations not yet applied, in order.
pub open spec fn to_apply(ms: Seq<Migration>, end: int) -> Seq<usize>
    decreases end,
{
    if end <= 0 {
        Seq::empty()
    } else if status_kind(ms[end - 1]) == StatusKind::NotApplied {
        to_apply(ms, end - 1).push((end - 1) as usize)
    } else {
        to_apply(ms, end - 1)
    }
}

/// The message a run stops with at a migration.
pub open spec fn run_failure_message(k: StatusKind) -> Seq<char> {
    if k == StatusKind::Mismatch {
        "Migration file mismatch found. See `status` for more details"@
    } else {
        "Migration file missing. See `status` for more details"@
    }
}

/// What a run does: apply the migrations at `apply`, in order, then fail
/// with `failure` if there is one.
pub struct RunPlan {
    pub apply: Vec<usize>,
    pub failure: Option<MigrationError>,
}

proof fn lemma_run_stop(ms: Seq<Migration>)
    ensures
        0 <= run_stop(ms) <= ms.len(),
        forall|i: int| 0 <= i < run_stop(ms) ==> !blocks_run(#[trigger] ms[i]),
        run_stop(ms) < ms.len() ==> blocks_run(ms[run_stop(ms)]),
    decreases ms.len(),
{
    if ms.len() > 0 && !blocks_run(ms[0]) {
        let t = ms.drop_first();
        lemma_run_stop(t);
        assert forall|i: int| 0 <= i < run_stop(ms) implies !blocks_run(#[trigger] ms[i]) by {
            if i > 0 {
                assert(ms[i] == t[i - 1]);
            }
        }
        if run_stop(ms) < ms.len() {
            assert(ms[run_stop(ms)] == t[run_stop(t)]);
        }
    }
}

/// The plan of a run: every migration not yet applied, in order, up to the
/// first whose file does not match the log or is gone; a run that meets
/// such a migration fails there.
pub fn plan_run(migrations: &[Migration]) -> (r: RunPlan)
    requires
        all_have_parts(migrations@),
    ensures
        r.apply@ == to_apply(migrations@, run_stop(migrations@)),
        run_stop(migrations@) == migrations@.len() ==> r.failure is None,
        run_stop(migrations@) < migrations@.len() ==> (r.failure matches Some(MigrationError::Misc(m)) && m@
            == run_failure_message(status_kind(migrations@[run_stop(migrations@)]))),
{
    proof {
        lemma_run_stop(migrations@);
    }
    let ghost stop = run_stop(migrations@);
    let mut apply: Vec<usize> = Vec::new();
    let mut i: usize = 0;
    while i < migrations.len()
        invariant
            i <= migrations@.len(),
            i <= stop,
            stop == run_stop(migrations@),
            0 <= stop <= migrations@.len(),
            forall|j: int| 0 <= j < stop ==> !blocks_run(#[trigger] migrations@[j]),
            stop < migrations@.len() ==> blocks_run(migrations@[stop]),
            all_have_parts(migrations@),
            apply@ == to_apply(migrations@, i as int),
        decreases migrations.len() - i,
    {
        match kind_of(&migrations[i]) {
            StatusKind::Applied => {},
            StatusKind::NotApplied => {
                apply.push(i);
            },
            StatusKind::Mismatch => {
                return RunPlan {
                    apply,
                    failure: Some(MigrationError::Misc(string_of("Migration file mismatch found. See `status` for more details"))),
                };
            },
            StatusKind::FileMissing => {
                return RunPlan {
                    apply,
                    failure: Some(MigrationError::Misc(string_of("Migration file missing. See `status` for more details"))),
                };
            },
        }
        i = i + 1;
    }
    RunPlan { apply, failure: None }
}

proof fn lemma_to_apply(ms: Seq<Migration>, end: int)
    requires
        0 <= end <= ms.len(),
        ms.len() < usize::MAX,
    ensures
        forall|k: int|
            0 <= k < to_apply(ms, end).len() ==> (#[trigger] to_apply(ms, end)[k]) < end && status_kind(
                ms[to_apply(ms, end)[k] as int],
            ) == StatusKind::NotApplied,
        forall|k: int, l: int|
            0 <= k < l < to_apply(ms, end).len() ==> (#[trigger] to_apply(ms, end)[k]) < (#[trigger] to_apply(
                ms,
                end,
            )[l]),
        forall|i: int|
            0 <= i < end && status_kind(#[trigger] ms[i]) == StatusKind::NotApplied ==> exists|k: int|
                0 <= k < to_apply(ms, end).len() && to_apply(ms, end)[k] == i,
    decreases end,
{
    if end > 0 {
        lemma_to_apply(ms, end - 1);
        let prev = to_apply(ms, end - 1);
        let cur = to_apply(ms, end);
        if status_kind(ms[end - 1]) == StatusKind::NotApplied {
            assert(cur == prev.push((end - 1) as usize));
            assert forall|i: int| 0 <= i < end && status_kind(#[trigger] ms[i]) == StatusKind::NotApplied implies exists|k: int|
                0 <= k < cur.len() && cur[k] == i by {
                if i < end - 1 {
                    let k = choose|k: int| 0 <= k < prev.len() && prev[k] == i;
                    assert(cur[k] == prev[k]);
                } else {
                    assert(cur[prev.len() as int] == i);
                }
            }
        }
    }
}

/// A run applies, in increasing order of position, exactly the migrations
/// not yet applied that come before the first migration that stops it.
pub proof fn lemma_run_plan_order(ms: Seq<Migration>)
    requires
        ms.len() < usize::MAX,
    ensures
        forall|k: int|
            0 <= k < to_apply(ms, run_stop(ms)).len() ==> (#[trigger] to_apply(ms, run_stop(ms))[k]) < run_stop(ms)
                && status_kind(ms[to_apply(ms, run_stop(ms))[k] as int]) == StatusKind::NotApplied,
        forall|k: int, l: int|
            0 <= k < l < to_apply(ms, run_stop(ms)).len() ==> (#[trigger] to_apply(ms, run_stop(ms))[k]) < (
            #[trigger] to_apply(ms, run_stop(ms))[l]),
        forall|i: int|
            0 <= i < run_stop(ms) && status_kind(#[trigger] ms[i]) == StatusKind::NotApplied ==> exists|k: int|
                0 <= k < to_apply(ms, run_stop(ms)).len() && to_apply(ms, run_stop(ms))[k] == i,
{
    lemma_run_stop(ms);
    lemma_to_apply(ms, run_stop(ms));
}

/// How to fix a migration.
pub enum FixAction<'a> {
    /// Log the file's name and hash for its number.
    Update(&'a MigrationFile),
    /// Log the file as applied without running it.
    Fake(&'a MigrationFile),
    /// Take the migration of this number out of the log.
    Remove(i32),
}

/// The fix for the migration numbered `number`: a mismatched one is
/// updated, one not applied is faked, one whose file is gone is removed.
/// A number without a migration, and one that is cleanly applied, are
/// refused.
pub fn plan_fix(migrations: &[Migration], number: i32) -> (r: Result<FixAction<'_>, MigrationError>)
    requires
        all_have_parts(migrations@),
        numbers_increase(migrations@),
    ensures
        !(exists|i: int| 0 <= i < migrations@.len() && #[trigger] migrations@[i].number == number) ==> (r matches Err(
            MigrationError::Misc(m),
        ) && m@ == "Migration number does not exist: "@ + signed_decimal(number as int)),
        forall|i: int|
            0 <= i < migrations@.len() && #[trigger] migrations@[i].number == number ==> match status_kind(
                migrations@[i],
            ) {
                StatusKind::Applied => r matches Err(MigrationError::Misc(m)) && m@ == "Migration does not require fixing: "@
                    + signed_decimal(number as int),
                StatusKind::Mismatch => r matches Ok(FixAction::Update(f)) && migrations@[i].file == Some(*f),
                StatusKind::NotApplied => r matches Ok(FixAction::Fake(f)) && migrations@[i].file == Some(*f),
                StatusKind::FileMissing => r matches Ok(FixAction::Remove(n)) && migrations@[i].db matches Some(d) && n
                    == d.number,
            },
{
    let mut i: usize = 0;
    while i < migrations.len() && migrations[i].number != number
        invariant
            i <= migrations@.len(),
            forall|j: int| 0 <= j < i ==> #[trigger] migrations@[j].number != number,
        decreases migrations.len() - i,
    {
        i = i + 1;
    }
    if i == migrations.len() {
        let mut m = string_of("Migration number does not exist: ");
        push_str(&mut m, decimal_i32(number).as_str());
        return Err(MigrationError::Misc(m));
    }
    proof {
        assert forall|j: int| 0 <= j < migrations@.len() && #[trigger] migrations@[j].number == number implies j == i by {
            if j < i {
            } else if j > i {
                assert(migrations@[i as int].number < migrations@[j].number);
            }
        }
    }
    let m = &migrations[i];
    match m.get_status() {
        MigrationStatus::Applied(_, _) => {
            let mut msg = string_of("Migration does not require fixing: ");
            push_str(&mut msg, decimal_i32(number).as_str());
            Err(MigrationError::Misc(msg))
        },
        MigrationStatus::Mismatch(file, _) => Ok(FixAction::Update(file)),
        MigrationStatus::NotApplied(file) => Ok(FixAction::Fake(file)),
        MigrationStatus::FileMissing(db) => Ok(FixAction::Remove(db.number)),
    }
}

/// The label of a status in a listing.
pub open spec fn status_label_spec(m: Migration) -> Seq<char> {
    match status_kind(m) {
        StatusKind::Applied => "Ok"@,
        StatusKind::Mismatch => "Mismatch:"@ + (if m.file->Some_0.name@ != m.db->Some_0.name@ {
            " name"@
        } else {
            Seq::empty()
        }) + (if m.file->Some_0.hash@ != m.db->Some_0.hash@ {
            " hash"@
        } else {
            Seq::empty()
        }),
        StatusKind::NotApplied => "New"@,
        StatusKind::FileMissing => "Migration file missing"@,
    }
}

/// A migration whose file matches its log entry reads `Ok`; a file not yet
/// in the log reads `New`; a log entry without its file reads `Migration
/// file missing`; a file that differs from its log entry reads `Mismatch:`
/// followed by what differs, the name before the hash.
pub proof fn lemma_status_label(m: Migration)
    requires
        has_part(m),
    ensures
        m.file matches Some(f) && m.db matches Some(d) && f.name@ == d.name@ && f.hash@ == d.hash@
            ==> status_label_spec(m) == "Ok"@,
        m.file is Some && m.db is None ==> status_label_spec(m) == "New"@,
        m.file is None ==> status_label_spec(m) == "Migration file missing"@,
        m.file matches Some(f) && m.db matches Some(d) && f.name@ != d.name@ && f.hash@ != d.hash@
            ==> status_label_spec(m) == "Mismatch: name hash"@,
        m.file matches Some(f) && m.db matches Some(d) && f.name@ != d.name@ && f.hash@ == d.hash@
            ==> status_label_spec(m) == "Mismatch: name"@,
        m.file matches Some(f) && m.db matches Some(d) && f.name@ == d.name@ && f.hash@ != d.hash@
            ==> status_label_spec(m) == "Mismatch: hash"@,
{
    reveal_strlit("Mismatch:");
    reveal_strlit(" name");
    reveal_strlit(" hash");
    reveal_strlit("Mismatch: name hash");
    reveal_strlit("Mismatch: name");
    reveal_strlit("Mismatch: hash");
    assert("Mismatch:"@ + " name"@ + " hash"@ =~= "Mismatch: name hash"@);
    assert("Mismatch:"@ + " name"@ + Seq::<char>::empty() =~= "Mismatch: name"@);
    assert("Mismatch:"@ + Seq::<char>::empty() + " hash"@ =~= "Mismatch: hash"@);
}

/// A run stops at a mismatched migration with a message about the
/// mismatch, and at a missing file with a message about the missing file.
pub proof fn lemma_run_failure_message(k: StatusKind)
    ensures
        k == StatusKind::Mismatch ==> crate::text::starts_with(run_failure_message(k), "Migration file mismatch"@),
        k == StatusKind::FileMissing ==> crate::text::starts_with(run_failure_message(k), "Migration file missing"@),
{
    reveal_strlit("Migration file mismatch found. See `status` for more details");
    reveal_strlit("Migration file missing. See `status` for more details");
    reveal_strlit("Migration file mismatch");
    reveal_strlit("Migration file missing");
    let a = "Migration file mismatch found. See `status` for more details"@;
    let b = "Migration file missing. See `status` for more details"@;
    assert(a.take(23) =~= "Migration file mismatch"@);
    assert(b.take(22) =~= "Migration file missing"@);
}

/// The name a listing shows: the file's, or the log's when the file is
/// gone.
pub open spec fn listed_name(m: Migration) -> Seq<char> {
    match m.file {
        Some(f) => f.name@,
        None => m.db->Some_0.name@,
    }
}

fn bytes_differ(a: &Vec<u8>, b: &Vec<u8>) -> (r: bool)
    ensures
        r == (a@ != b@),
{
    if a.len() != b.len() {
        return true;
    }
    let mut i: usize = 0;
    while i < a.len()
        invariant
            i <= a@.len(),
            a@.len() == b@.len(),
            forall|j: int| 0 <= j < i ==> a@[j] == b@[j],
        decreases a.len() - i,
    {
        if a[i] != b[i] {
            return true;
        }
        i = i + 1;
    }
    assert(a@ =~= b@);
    false
}

impl Migration {
    /// How this migration reads in a status listing: `Ok`; `Mismatch:`
    /// followed by ` name` and ` hash` for what differs; `New`; or
    /// `Migration file missing`.
    pub fn status_label(&self) -> (r: String)
        requires
            has_part(*self),
        ensures
            r@ == status_label_spec(*self),
    {
        match self.get_status() {
            MigrationStatus::Applied(_, _) => string_of("Ok"),
            MigrationStatus::Mismatch(file, db) => {
                let mut s = string_of("Mismatch:");
                let ghost head = s@;
                if file.name != db.name {
                    push_str(&mut s, " name");
                } else {
                    assert(head + Seq::<char>::empty() == head);
                }
                let ghost mid = s@;
                if bytes_differ(&file.hash, &db.hash) {
                    push_str(&mut s, " hash");
                } else {
                    assert(mid + Seq::<char>::empty() == mid);
                }
                s
            },
            MigrationStatus::NotApplied(_) => string_of("New"),
            MigrationStatus::FileMissing(_) => string_of("Migration file missing"),
        }
    }

    /// The name a status listing shows for this migration.
    pub fn listed_name(&self) -> (r: &str)
        requires
            has_part(*self),
        ensures
            r@ == listed_name(*self),
    {
        match &self.file {
            Some(f) => f.name.as_str(),
            None => match &self.db {
                Some(d) => d.name.as_str(),
                None => {
                    proof {
                        assert(false);
                    }
                    ""
                },
            },
        }
    }
}

/// How an operation of the migration log is shown.
#[derive(Debug, Clone, Copy, PartialEq, Eq, Structural)]
pub enum LogStyle {
    /// `apply`.
    Applied,
    /// `update` and `fake`.
    Modified,
    /// `delete`.
    Removed,
    /// Any other operation.
    Plain,
}

/// The style of a logged operation.
pub open spec fn log_style_spec(operation: Seq<char>) -> LogStyle {
    if operation == "apply"@ {
        LogStyle::Applied
    } else if operation == "update"@ || operation == "fake"@ {
        LogStyle::Modified
    } else if operation == "delete"@ {
        LogStyle::Removed
    } else {
        LogStyle::Plain
    }
}

/// Applying shows as applied, updating and faking as modified, deleting as
/// removed, and any other operation plainly.
pub proof fn lemma_log_style(operation: Seq<char>)
    ensures
        (log_style_spec(operation) == LogStyle::Applied) == (operation == "apply"@),
        (log_style_spec(operation) == LogStyle::Modified) == (operation == "update"@ || operation == "fake"@),
        (log_style_spec(operation) == LogStyle::Removed) == (operation == "delete"@),
{
    reveal_strlit("apply");
    reveal_strlit("update");
    reveal_strlit("fake");
    reveal_strlit("delete");
    assert("apply"@.len() == 5 && "update"@.len() == 6 && "fake"@.len() == 4 && "delete"@.len() == 6);
    assert("update"@[0] == 'u' && "delete"@[0] == 'd');
}

/// The style a log listing shows an operation in.
pub fn log_style(operation: &str) -> (r: LogStyle)
    ensures
        r == log_style_spec(operation@),
{
    if crate::text::str_eq(operation, "apply") {
        LogStyle::Applied
    } else if crate::text::str_eq(operation, "update") || crate::text::str_eq(operation, "fake") {
        LogStyle::Modified
    } else if crate::text::str_eq(operation, "delete") {
        LogStyle::Removed
    } else {
        LogStyle::Plain
    }
}

} // verus!
