//! Migration files matched by number with the migrations the database log
//! holds.
use vstd::prelude::*;
use crate::migration::file::{MigrationFile, same_file};
use crate::rows::bytes_of;
use crate::text::copy_string;

verus! {

/// A migration as the database log currently holds it.
#[derive(Clone, Debug)]
pub struct DbMigration {
    pub number: i32,
    pub name: String,
    pub hash: Vec<u8>,
}

/// Whether two logged migrations agree field by field.
pub open spec fn same_db(a: DbMigration, b: DbMigration) -> bool {
    &&& a.number == b.number
    &&& a.name@ == b.name@
    &&& a.hash@ == b.hash@
}

impl DbMigration {
    /// A copy of this logged migration.
    pub fn duplicate(&self) -> (r: DbMigration)
        ensures
            same_db(r, *self),
    {
        DbMigration { number: self.number, name: copy_string(&self.name), hash: bytes_of(self.hash.as_slice()) }
    }
}

/// How a migration file stands against the log.
pub enum MigrationStatus<'a> {
    /// File and log entry agree in name and hash.
    Applied(&'a MigrationFile, &'a DbMigration),
    /// The log has the number with another name or hash.
    Mismatch(&'a MigrationFile, &'a DbMigration),
    /// The file has not been applied.
    NotApplied(&'a MigrationFile),
    /// The log has a migration whose file is gone.
    FileMissing(&'a DbMigration),
}

/// A migration number with its file and its log entry, where there are.
pub struct Migration {
    pub number: i32,
    pub file: Option<MigrationFile>,
    pub db: Option<DbMigration>,
}

/// Whether a file and a log entry agree in name and hash.
pub open spec fn file_matches_db(f: MigrationFile, d: DbMigration) -> bool {
    f.name@ == d.name@ && f.hash@ == d.hash@
}

fn bytes_eq(a: &Vec<u8>, b: &Vec<u8>) -> (r: bool)
    ensures
        r == (a@ == b@),
{
    if a.len() != b.len() {
        return false;
    }
    let mut i: usize = 0;
    while i < a.len()
        invariant
            i <= a@.len(),
            a@.len() == b@.len(),
            forall|j: int| 0 <= j < i ==> a@[j] == b@[j],
        decreases a.len() - i,
    {
        if a[i] != b[i] {
            return false;
        }
        i = i + 1;
    }
    assert(a@ =~= b@);
    true
}

impl Migration {
    /// The status of a migration that has a file, a log entry or both.
    pub fn get_status(&self) -> (r: MigrationStatus<'_>)
        requires
            self.file.is_some() || self.db.is_some(),
        ensures
            match (self.file, self.db) {
                (Some(f), Some(d)) => if file_matches_db(f, d) {
                    r matches MigrationStatus::Applied(a, b) && *a == f && *b == d
                } else {
                    r matches MigrationStatus::Mismatch(a, b) && *a == f && *b == d
                },
                (Some(f), None) => r matches MigrationStatus::NotApplied(a) && *a == f,
                (None, Some(d)) => r matches MigrationStatus::FileMissing(b) && *b == d,
                (None, None) => false,
            },
    {
        match (&self.file, &self.db) {
            (Some(file), Some(db)) => {
                if file.name == db.name && bytes_eq(&file.hash, &db.hash) {
                    MigrationStatus::Applied(file, db)
                } else {
                    MigrationStatus::Mismatch(file, db)
                }
            },
            (Some(file), None) => MigrationStatus::NotApplied(file),
            (None, Some(db)) => MigrationStatus::FileMissing(db),
            (None, None) => {
                proof {
                    assert(false);
                }
                MigrationStatus::NotApplied(self.file.as_ref().unwrap())
            },
        }
    }
}

/// The last file of `files` with number `n`.
pub open spec fn file_numbered(files: Seq<MigrationFile>, n: i32) -> Option<MigrationFile>
    decreases files.len(),
{
    if files.len() == 0 {
        None
    } else if files.last().number == n {
        Some(files.last())
    } else {
        file_numbered(files.drop_last(), n)
    }
}

/// The last log entry of `dbs` with number `n`.
pub open spec fn db_numbered(dbs: Seq<DbMigration>, n: i32) -> Option<DbMigration>
    decreases dbs.len(),
{
    if dbs.len() == 0 {
        None
    } else if dbs.last().number == n {
        Some(dbs.last())
    } else {
        db_numbered(dbs.drop_last(), n)
    }
}

/// Whether two optional files agree: both absent, or both present and
/// equal field by field.
pub open spec fn same_file_opt(a: Option<MigrationFile>, b: Option<MigrationFile>) -> bool {
    match (a, b) {
        (Some(x), Some(y)) => same_file(x, y),
        (None, None) => true,
        _ => false,
    }
}

/// Whether two optional log entries agree.
pub open spec fn same_db_opt(a: Option<DbMigration>, b: Option<DbMigration>) -> bool {
    match (a, b) {
        (Some(x), Some(y)) => same_db(x, y),
        (None, None) => true,
        _ => false,
    }
}

/// Whether the numbers of `out` strictly increase.
pub open spec fn numbers_increase(out: Seq<Migration>) -> bool {
    forall|i: int, j: int| 0 <= i < j < out.len() ==> (#[trigger] out[i]).number < (#[trigger] out[j]).number
}

/// Whether each migration of `out` holds the last file and the last log
/// entry of its number.
pub open spec fn entries_agree(out: Seq<Migration>, files: Seq<MigrationFile>, dbs: Seq<DbMigration>) -> bool {
    forall|i: int|
        0 <= i < out.len() ==> same_file_opt((#[trigger] out[i]).file, file_numbered(files, out[i].number))
            && same_db_opt(out[i].db, db_numbered(dbs, out[i].number))
}

/// Whether each number of `out` is that of a file or of a log entry.
pub open spec fn entries_known(out: Seq<Migration>, files: Seq<MigrationFile>, dbs: Seq<DbMigration>) -> bool {
    forall|i: int|
        0 <= i < out.len() ==> file_numbered(files, (#[trigger] out[i]).number) is Some || db_numbered(
            dbs,
            out[i].number,
        ) is Some
}

/// Whether each number of a file or of a log entry has a migration in
/// `out`.
pub open spec fn numbers_covered(out: Seq<Migration>, files: Seq<MigrationFile>, dbs: Seq<DbMigration>) -> bool {
    forall|n: i32|
        (#[trigger] file_numbered(files, n) is Some || #[trigger] db_numbered(dbs, n) is Some) ==> exists|i: int|
            0 <= i < out.len() && #[trigger] out[i].number == n
}

/// Whether `out` matches `files` with `dbs` by number: one migration per
/// number that a file or a log entry has, in increasing order of number,
/// each with the last file and the last log entry of its number.
pub open spec fn combined(out: Seq<Migration>, files: Seq<MigrationFile>, dbs: Seq<DbMigration>) -> bool {
    &&& numbers_increase(out)
    &&& entries_agree(out, files, dbs)
    &&& entries_known(out, files, dbs)
    &&& numbers_covered(out, files, dbs)
}

/// The first position of `out` whose number is at least `n`.
fn slot_of(out: &Vec<Migration>, n: i32) -> (p: usize)
    requires
        numbers_increase(out@),
    ensures
        p <= out@.len(),
        forall|i: int| 0 <= i < p ==> (#[trigger] out@[i]).number < n,
        forall|i: int| p <= i < out@.len() ==> (#[trigger] out@[i]).number >= n,
{
    let mut p: usize = 0;
    while p < out.len() && out[p].number < n
        invariant
            p <= out@.len(),
            forall|i: int| 0 <= i < p ==> (#[trigger] out@[i]).number < n,
        decreases out.len() - p,
    {
        p = p + 1;
    }
    proof {
        if p < out@.len() {
            assert forall|i: int| p <= i < out@.len() implies (#[trigger] out@[i]).number >= n by {
                if i > p {
                    assert(out@[p as int].number < out@[i].number);
                }
            }
        }
    }
    p
}

proof fn lemma_file_numbered_push(files: Seq<MigrationFile>, f: MigrationFile, n: i32)
    ensures
        file_numbered(files.push(f), n) == if f.number == n {
            Some(f)
        } else {
            file_numbered(files, n)
        },
{
    assert(files.push(f).drop_last() =~= files);
}

proof fn lemma_db_numbered_push(dbs: Seq<DbMigration>, d: DbMigration, n: i32)
    ensures
        db_numbered(dbs.push(d), n) == if d.number == n {
            Some(d)
        } else {
            db_numbered(dbs, n)
        },
{
    assert(dbs.push(d).drop_last() =~= dbs);
}

/// Matches migration files with the log's migrations by number, in
/// increasing order of number. A number keeps its last file and its last
/// log entry.
pub fn combine_migrations(migration_files: &[MigrationFile], db_migrations: &[DbMigration]) -> (r: Vec<Migration>)
    ensures
        combined(r@, migration_files@, db_migrations@),
{
    let ghost files = migration_files@;
    let ghost dbs = db_migrations@;
    let mut out: Vec<Migration> = Vec::new();
    let mut i: usize = 0;
    assert(files.take(0) =~= Seq::<MigrationFile>::empty());
    while i < migration_files.len()
        invariant
            i <= files.len(),
            files == migration_files@,
            combined(out@, files.take(i as int), Seq::<DbMigration>::empty()),
        decreases migration_files.len() - i,
    {
        let f = &migration_files[i];
        let n = f.number;
        let p = slot_of(&out, n);
        let ghost prev = out@;
        let ghost pre = files.take(i as int);
        let ghost post = files.take(i + 1);
        proof {
            assert(post =~= pre.push(files[i as int]));
        }
        let m = Migration { number: n, file: Some(f.duplicate()), db: None };
        if p < out.len() && out[p].number == n {
            let _ = out.remove(p);
            out.insert(p, m);
            proof {
                assert(out@ =~= prev.update(p as int, out@[p as int]));
            }
        } else {
            out.insert(p, m);
        }
        proof {
            assert(placed(prev, out@, p as int, n));
            lemma_combined_file_step(prev, out@, pre, files[i as int], p as int);
        }
        i = i + 1;
    }
    assert(files.take(files.len() as int) =~= files);
    let mut j: usize = 0;
    assert(dbs.take(0) =~= Seq::<DbMigration>::empty());
    while j < db_migrations.len()
        invariant
            j <= dbs.len(),
            files == migration_files@,
            dbs == db_migrations@,
            combined(out@, files, dbs.take(j as int)),
        decreases db_migrations.len() - j,
    {
        let d = &db_migrations[j];
        let n = d.number;
        let p = slot_of(&out, n);
        let ghost prev = out@;
        let ghost pre = dbs.take(j as int);
        proof {
            assert(dbs.take(j + 1) =~= pre.push(dbs[j as int]));
        }
        if p < out.len() && out[p].number == n {
            let old_m = out.remove(p);
            let m = Migration { number: old_m.number, file: old_m.file, db: Some(d.duplicate()) };
            out.insert(p, m);
            proof {
                assert(out@ =~= prev.update(p as int, out@[p as int]));
            }
        } else {
            let m = Migration { number: n, file: None, db: Some(d.duplicate()) };
            out.insert(p, m);
        }
        proof {
            assert(placed(prev, out@, p as int, n));
            lemma_combined_db_step(prev, out@, files, pre, dbs[j as int], p as int);
        }
        j = j + 1;
    }
    assert(dbs.take(dbs.len() as int) =~= dbs);
    out
}

/// Whether `p` is where a migration numbered `n` goes in `prev`: after
/// the smaller numbers, before the others.
pub open spec fn slot_for(prev: Seq<Migration>, p: int, n: i32) -> bool {
    &&& 0 <= p <= prev.len()
    &&& forall|i: int| 0 <= i < p ==> (#[trigger] prev[i]).number < n
    &&& forall|i: int| p <= i < prev.len() ==> (#[trigger] prev[i]).number >= n
}

/// Whether the slot `p` holds number `n` already.
pub open spec fn slot_taken(prev: Seq<Migration>, p: int, n: i32) -> bool {
    p < prev.len() && prev[p].number == n
}

/// The position in `prev` of position `i` of `out`, for `i` not the slot.
pub open spec fn old_index(prev: Seq<Migration>, p: int, n: i32, i: int) -> int {
    if slot_taken(prev, p, n) || i < p {
        i
    } else {
        i - 1
    }
}

/// The position in `out` of position `k` of `prev`, for `k` not the slot.
pub open spec fn new_index(prev: Seq<Migration>, p: int, n: i32, k: int) -> int {
    if slot_taken(prev, p, n) || k < p {
        k
    } else {
        k + 1
    }
}

/// `out` is `prev` with the migration at its slot `p` for number `n`
/// replaced, or inserted there.
pub open spec fn placed(prev: Seq<Migration>, out: Seq<Migration>, p: int, n: i32) -> bool {
    &&& slot_for(prev, p, n)
    &&& 0 <= p < out.len()
    &&& out[p].number == n
    &&& slot_taken(prev, p, n) ==> out == prev.update(p, out[p])
    &&& !slot_taken(prev, p, n) ==> out == prev.insert(p, out[p])
}

proof fn lemma_placed(prev: Seq<Migration>, out: Seq<Migration>, p: int, n: i32)
    requires
        numbers_increase(prev),
        placed(prev, out, p, n),
    ensures
        numbers_increase(out),
        forall|i: int|
            0 <= i < out.len() && i != p ==> {
                let k = #[trigger] old_index(prev, p, n, i);
                &&& 0 <= k < prev.len()
                &&& out[i] == prev[k]
                &&& prev[k].number != n
            },
        forall|k: int|
            0 <= k < prev.len() && prev[k].number != n ==> {
                let i = #[trigger] new_index(prev, p, n, k);
                &&& 0 <= i < out.len()
                &&& i != p
                &&& out[i] == prev[k]
            },
{
    assert forall|k: int| 0 <= k < prev.len() && k != p implies #[trigger] prev[k].number != n by {
        if k > p && p < prev.len() {
            assert(prev[p].number < prev[k].number);
        }
    }
    assert forall|i: int, j: int| 0 <= i < j < out.len() implies (#[trigger] out[i]).number < (#[trigger] out[j]).number by {
        if slot_taken(prev, p, n) {
            if i != p && j != p {
                assert(out[i] == prev[i] && out[j] == prev[j]);
            } else if i == p {
                assert(out[j] == prev[j]);
            } else {
                assert(out[i] == prev[i]);
            }
        } else {
            if j < p {
                assert(out[i] == prev[i] && out[j] == prev[j]);
            } else if i > p {
                assert(out[i] == prev[i - 1] && out[j] == prev[j - 1]);
            } else if i == p {
                assert(out[j] == prev[j - 1]);
            } else if j == p {
                assert(out[i] == prev[i]);
            } else {
                assert(out[i] == prev[i] && out[j] == prev[j - 1]);
            }
        }
    }
}

proof fn lemma_combined_file_step(
    prev: Seq<Migration>,
    out: Seq<Migration>,
    files: Seq<MigrationFile>,
    f: MigrationFile,
    p: int,
)
    requires
        combined(prev, files, Seq::<DbMigration>::empty()),
        placed(prev, out, p, f.number),
        out[p].db is None,
        out[p].file matches Some(g) && same_file(g, f),
    ensures
        combined(out, files.push(f), Seq::<DbMigration>::empty()),
{
    let files2 = files.push(f);
    let e = Seq::<DbMigration>::empty();
    let n0 = f.number;
    lemma_placed(prev, out, p, n0);
    assert forall|n: i32| #[trigger] file_numbered(files2, n) == if n0 == n {
        Some(f)
    } else {
        file_numbered(files, n)
    } by {
        lemma_file_numbered_push(files, f, n);
    }
    assert forall|n: i32| #[trigger] db_numbered(e, n) == None::<DbMigration> by {}
    assert forall|i: int| 0 <= i < out.len() implies same_file_opt((#[trigger] out[i]).file, file_numbered(files2, out[i].number))
        && same_db_opt(out[i].db, db_numbered(e, out[i].number)) by {
        if i != p {
            let k = old_index(prev, p, n0, i);
            assert(out[i] == prev[k]);
        }
    }
    assert forall|i: int| 0 <= i < out.len() implies file_numbered(files2, (#[trigger] out[i]).number) is Some
        || db_numbered(e, out[i].number) is Some by {
        if i != p {
            let k = old_index(prev, p, n0, i);
            assert(out[i] == prev[k]);
        }
    }
    assert forall|n: i32| (#[trigger] file_numbered(files2, n) is Some || #[trigger] db_numbered(e, n) is Some) implies exists|i: int|
        0 <= i < out.len() && #[trigger] out[i].number == n by {
        if n == n0 {
            assert(out[p].number == n);
        } else {
            assert(file_numbered(files, n) is Some || db_numbered(e, n) is Some);
            let k = choose|k: int| 0 <= k < prev.len() && #[trigger] prev[k].number == n;
            let i = new_index(prev, p, n0, k);
            assert(out[i] == prev[k]);
        }
    }
}

proof fn lemma_combined_db_step(
    prev: Seq<Migration>,
    out: Seq<Migration>,
    files: Seq<MigrationFile>,
    dbs: Seq<DbMigration>,
    d: DbMigration,
    p: int,
)
    requires
        combined(prev, files, dbs),
        placed(prev, out, p, d.number),
        slot_taken(prev, p, d.number) ==> out[p].file == prev[p].file,
        !slot_taken(prev, p, d.number) ==> out[p].file is None,
        out[p].db matches Some(g) && same_db(g, d),
    ensures
        combined(out, files, dbs.push(d)),
{
    let dbs2 = dbs.push(d);
    let n0 = d.number;
    lemma_placed(prev, out, p, n0);
    assert forall|n: i32| #[trigger] db_numbered(dbs2, n) == if n0 == n {
        Some(d)
    } else {
        db_numbered(dbs, n)
    } by {
        lemma_db_numbered_push(dbs, d, n);
    }
    assert forall|i: int| 0 <= i < out.len() implies same_file_opt((#[trigger] out[i]).file, file_numbered(files, out[i].number))
        && same_db_opt(out[i].db, db_numbered(dbs2, out[i].number)) by {
        if i != p {
            let k = old_index(prev, p, n0, i);
            assert(out[i] == prev[k]);
        } else if slot_taken(prev, p, n0) {
            assert(same_file_opt(prev[p].file, file_numbered(files, prev[p].number)));
        } else if file_numbered(files, n0) is Some {
            let k = choose|k: int| 0 <= k < prev.len() && #[trigger] prev[k].number == n0;
            assert(k != p ==> prev[k].number != n0);
            assert(false);
        }
    }
    assert forall|i: int| 0 <= i < out.len() implies file_numbered(files, (#[trigger] out[i]).number) is Some
        || db_numbered(dbs2, out[i].number) is Some by {
        if i != p {
            let k = old_index(prev, p, n0, i);
            assert(out[i] == prev[k]);
        }
    }
    assert forall|n: i32| (#[trigger] file_numbered(files, n) is Some || #[trigger] db_numbered(dbs2, n) is Some) implies exists|i: int|
        0 <= i < out.len() && #[trigger] out[i].number == n by {
        if n == n0 {
            assert(out[p].number == n);
        } else {
            assert(file_numbered(files, n) is Some || db_numbered(dbs, n) is Some);
            let k = choose|k: int| 0 <= k < prev.len() && #[trigger] prev[k].number == n;
            let i = new_index(prev, p, n0, k);
            assert(out[i] == prev[k]);
        }
    }
}

/// The migrations that matching files with the log gives each have a file,
/// a log entry or both, and no two of them share a number.
pub proof fn lemma_combined_well_formed(out: Seq<Migration>, files: Seq<MigrationFile>, dbs: Seq<DbMigration>)
    requires
        combined(out, files, dbs),
    ensures
        forall|i: int| 0 <= i < out.len() ==> (#[trigger] out[i]).file is Some || out[i].db is Some,
        forall|i: int, j: int| 0 <= i < out.len() && 0 <= j < out.len() && i != j ==> (#[trigger] out[i]).number
            != (#[trigger] out[j]).number,
{
    assert forall|i: int| 0 <= i < out.len() implies (#[trigger] out[i]).file is Some || out[i].db is Some by {
        lemma_numbered_is_from(files, dbs, out[i].number);
        assert(same_file_opt(out[i].file, file_numbered(files, out[i].number)));
        assert(same_db_opt(out[i].db, db_numbered(dbs, out[i].number)));
        if out[i].file is None && out[i].db is None {
            assert(file_numbered(files, out[i].number) is None);
            assert(db_numbered(dbs, out[i].number) is None);
        }
    }
    assert forall|i: int, j: int| 0 <= i < out.len() && 0 <= j < out.len() && i != j implies (#[trigger] out[i]).number
        != (#[trigger] out[j]).number by {
        if i < j {
            assert(out[i].number < out[j].number);
        } else {
            assert(out[j].number < out[i].number);
        }
    }
}

proof fn lemma_numbered_is_from(files: Seq<MigrationFile>, dbs: Seq<DbMigration>, n: i32)
    ensures
        file_numbered(files, n) matches Some(f) ==> f.number == n,
        db_numbered(dbs, n) matches Some(d) ==> d.number == n,
    decreases files.len() + dbs.len(),
{
    if files.len() > 0 {
        lemma_numbered_is_from(files.drop_last(), dbs, n);
    } else if dbs.len() > 0 {
        lemma_numbered_is_from(files, dbs.drop_last(), n);
    }
}

} // verus!
