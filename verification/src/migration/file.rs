//! Migration files: the number and name their file name carries, and the
//! hash of their contents.
use vstd::prelude::*;
use crate::hash::{sha512, sha512_digest};
use crate::migration::error::MigrationError;
use crate::rows::bytes_of;
use crate::text::{chars_of, copy_string, decimal, decimal_i32, digit_char, push_char, push_str, signed_decimal, string_of};

verus! {

/// `std::path::PathBuf`, carried through as it is.
#[verifier::external_type_specification]
#[verifier::external_body]
pub struct ExPathBuf(std::path::PathBuf);

/// Why a text is not a number of type `i32`.
#[derive(Debug, Clone, Copy, PartialEq, Eq, Structural)]
pub enum IntFailure {
    /// The text is empty.
    Empty,
    /// A character is not a digit, or a sign stands alone.
    InvalidDigit,
    /// The number is above `i32::MAX`.
    PosOverflow,
    /// The number is below `i32::MIN`.
    NegOverflow,
}

/// The message that describes a parse failure.
pub open spec fn failure_message(f: IntFailure) -> Seq<char> {
    match f {
        IntFailure::Empty => "cannot parse integer from empty string"@,
        IntFailure::InvalidDigit => "invalid digit found in string"@,
        IntFailure::PosOverflow => "number too large to fit in target type"@,
        IntFailure::NegOverflow => "number too small to fit in target type"@,
    }
}

/// Whether `c` is an ASCII decimal digit.
pub open spec fn is_digit(c: char) -> bool {
    '0' <= c && c <= '9'
}

/// Whether `n` fits in an `i32`.
pub open spec fn fits_i32(n: int) -> bool {
    i32::MIN <= n && n <= i32::MAX
}

/// Reads the digits `d` from the left, adding each digit to ten times the
/// value so far (subtracting it for a negative number); the first
/// character that is no digit, or the first step whose value leaves the
/// `i32` range, ends it with that failure.
pub open spec fn scan_digits(d: Seq<char>, negative: bool) -> Result<int, IntFailure>
    decreases d.len(),
{
    if d.len() == 0 {
        Ok(0)
    } else {
        match scan_digits(d.drop_last(), negative) {
            Err(f) => Err(f),
            Ok(acc) => {
                let c = d.last();
                if !is_digit(c) {
                    Err(IntFailure::InvalidDigit)
                } else {
                    let digit = (c as int) - ('0' as int);
                    let v = if negative {
                        acc * 10 - digit
                    } else {
                        acc * 10 + digit
                    };
                    if fits_i32(v) {
                        Ok(v)
                    } else if negative {
                        Err(IntFailure::NegOverflow)
                    } else {
                        Err(IntFailure::PosOverflow)
                    }
                }
            },
        }
    }
}

/// What parsing `s` as a decimal `i32` gives: an optional `+` or `-`, then
/// one or more digits.
pub open spec fn parse_i32_spec(s: Seq<char>) -> Result<int, IntFailure> {
    if s.len() == 0 {
        Err(IntFailure::Empty)
    } else if (s[0] == '+' || s[0] == '-') && s.len() == 1 {
        Err(IntFailure::InvalidDigit)
    } else if s[0] == '+' {
        scan_digits(s.drop_first(), false)
    } else if s[0] == '-' {
        scan_digits(s.drop_first(), true)
    } else {
        scan_digits(s, false)
    }
}

proof fn lemma_scan_bounds(d: Seq<char>, negative: bool)
    ensures
        scan_digits(d, negative) matches Ok(v) ==> fits_i32(v) && (negative ==> v <= 0) && (!negative ==> v >= 0),
    decreases d.len(),
{
    if d.len() > 0 {
        lemma_scan_bounds(d.drop_last(), negative);
    }
}

fn scan_digits_exec(d: &Vec<char>, start: usize, negative: bool) -> (r: Result<i32, IntFailure>)
    requires
        start <= d@.len(),
    ensures
        match scan_digits(d@.skip(start as int), negative) {
            Ok(v) => r == Ok::<i32, IntFailure>(v as i32),
            Err(f) => r == Err::<i32, IntFailure>(f),
        },
{
    let ghost s = d@.skip(start as int);
    let mut acc: i32 = 0;
    let mut i = start;
    assert(s.take(0) =~= Seq::<char>::empty());
    while i < d.len()
        invariant
            start <= i <= d@.len(),
            s == d@.skip(start as int),
            scan_digits(s.take(i - start), negative) == Ok::<int, IntFailure>(acc as int),
        decreases d.len() - i,
    {
        let c = d[i];
        let ghost t = s.take(i - start + 1);
        proof {
            assert(t.drop_last() =~= s.take(i - start));
            assert(t.last() == c);
            lemma_scan_bounds(s.take(i - start), negative);
        }
        if c < '0' || c > '9' {
            proof {
                lemma_scan_prefix_err(s, i - start + 1, IntFailure::InvalidDigit, negative);
            }
            return Err(IntFailure::InvalidDigit);
        }
        let digit: i64 = (c as u32 - '0' as u32) as i64;
        let wide: i64 = if negative {
            acc as i64 * 10 - digit
        } else {
            acc as i64 * 10 + digit
        };
        if wide < i32::MIN as i64 || wide > i32::MAX as i64 {
            let f = if negative {
                IntFailure::NegOverflow
            } else {
                IntFailure::PosOverflow
            };
            proof {
                lemma_scan_prefix_err(s, i - start + 1, f, negative);
            }
            return Err(f);
        }
        acc = wide as i32;
        i = i + 1;
    }
    assert(s.take(i - start) =~= s);
    Ok(acc)
}

/// A failure on a prefix is the failure of the whole.
proof fn lemma_scan_prefix_err(s: Seq<char>, n: int, f: IntFailure, negative: bool)
    requires
        0 <= n <= s.len(),
        scan_digits(s.take(n), negative) == Err::<int, IntFailure>(f),
    ensures
        scan_digits(s, negative) == Err::<int, IntFailure>(f),
    decreases s.len() - n,
{
    if n < s.len() {
        assert(s.take(n + 1).drop_last() =~= s.take(n));
        lemma_scan_prefix_err(s, n + 1, f, negative);
    } else {
        assert(s.take(n) =~= s);
    }
}

/// Parses `s` as a decimal `i32`: an optional sign, then digits.
pub fn parse_i32(s: &str) -> (r: Result<i32, IntFailure>)
    ensures
        match parse_i32_spec(s@) {
            Ok(v) => r == Ok::<i32, IntFailure>(v as i32),
            Err(f) => r == Err::<i32, IntFailure>(f),
        },
{
    let d = chars_of(s);
    if d.len() == 0 {
        return Err(IntFailure::Empty);
    }
    let first = d[0];
    if (first == '+' || first == '-') && d.len() == 1 {
        return Err(IntFailure::InvalidDigit);
    }
    if first == '+' {
        assert(d@.skip(1) =~= d@.drop_first());
        scan_digits_exec(&d, 1, false)
    } else if first == '-' {
        assert(d@.skip(1) =~= d@.drop_first());
        scan_digits_exec(&d, 1, true)
    } else {
        assert(d@.skip(0) =~= d@);
        scan_digits_exec(&d, 0, false)
    }
}

/// The message of a parse failure.
pub fn failure_text(f: IntFailure) -> (r: String)
    ensures
        r@ == failure_message(f),
{
    match f {
        IntFailure::Empty => string_of("cannot parse integer from empty string"),
        IntFailure::InvalidDigit => string_of("invalid digit found in string"),
        IntFailure::PosOverflow => string_of("number too large to fit in target type"),
        IntFailure::NegOverflow => string_of("number too small to fit in target type"),
    }
}

/// The position of the first `_` in `s`, if any.
pub open spec fn first_underscore(s: Seq<char>) -> Option<int> {
    if exists|i: int| 0 <= i < s.len() && s[i] == '_' {
        Some(choose|i: int| 0 <= i < s.len() && s[i] == '_' && forall|j: int| 0 <= j < i ==> s[j] != '_')
    } else {
        None
    }
}

/// The text before the first `_` (all of `s` without one).
pub open spec fn number_part(s: Seq<char>) -> Seq<char> {
    match first_underscore(s) {
        Some(i) => s.take(i),
        None => s,
    }
}

/// The text after the first `_` (empty without one).
pub open spec fn name_part(s: Seq<char>) -> Seq<char> {
    match first_underscore(s) {
        Some(i) => s.skip(i + 1),
        None => Seq::empty(),
    }
}

/// What a file name stem `<number>_<name>` gives: its number and name, or
/// `Invalid number: ` and why the number part is none.
pub open spec fn parse_filename_spec(s: Seq<char>) -> Result<(int, Seq<char>), Seq<char>> {
    match parse_i32_spec(number_part(s)) {
        Ok(n) => Ok((n, name_part(s))),
        Err(f) => Err("Invalid number: "@ + failure_message(f)),
    }
}

/// Splits a file name stem `<number>_<name>` at its first `_` and parses
/// the number.
pub fn parse_filename(filename: String) -> (r: Result<(i32, String), String>)
    ensures
        match parse_filename_spec(filename@) {
            Ok((n, name)) => r matches Ok((m, nm)) && m == n && nm@ == name,
            Err(msg) => r matches Err(m) && m@ == msg,
        },
{
    let d = chars_of(filename.as_str());
    let mut i: usize = 0;
    while i < d.len() && d[i] != '_'
        invariant
            i <= d@.len(),
            d@ == filename@,
            forall|j: int| 0 <= j < i ==> d@[j] != '_',
        decreases d.len() - i,
    {
        i = i + 1;
    }
    let cut: Option<usize> = if i < d.len() {
        Some(i)
    } else {
        None
    };
    let ghost s = filename@;
    let mut number = String::new();
    let mut name = String::new();
    let end = match cut {
        Some(c) => c,
        None => d.len(),
    };
    proof {
        match cut {
            Some(c) => {
                assert(s[c as int] == '_');
                assert(exists|k: int| 0 <= k < s.len() && s[k] == '_');
                let k = choose|k: int| 0 <= k < s.len() && s[k] == '_' && forall|j: int| 0 <= j < k ==> s[j] != '_';
                if k < c {
                } else if k > c {
                    assert(s[c as int] != '_');
                }
                assert(first_underscore(s) == Some(c as int));
            },
            None => {
                assert(i == d.len());
                assert(first_underscore(s) == None::<int>);
            },
        }
    }
    let mut j: usize = 0;
    while j < end
        invariant
            j <= end <= d@.len(),
            d@ == s,
            number@ == s.take(j as int),
        decreases end - j,
    {
        push_char(&mut number, d[j]);
        assert(number@ =~= s.take(j + 1));
        j = j + 1;
    }
    if end < d.len() {
        let mut k: usize = end + 1;
        assert(s.skip(end + 1).take(0) =~= Seq::<char>::empty());
        while k < d.len()
            invariant
                end + 1 <= k <= d@.len(),
                d@ == s,
                name@ == s.skip(end + 1).take(k - end - 1),
            decreases d.len() - k,
        {
            push_char(&mut name, d[k]);
            assert(name@ =~= s.skip(end + 1).take(k - end));
            k = k + 1;
        }
        assert(s.skip(end + 1).take(d@.len() - end - 1) =~= s.skip(end + 1));
    }
    assert(number@ == number_part(s)) by {
        if end == d.len() {
            assert(s.take(end as int) =~= s);
        }
    }
    match parse_i32(number.as_str()) {
        Ok(n) => Ok((n, name)),
        Err(f) => {
            let mut m = string_of("Invalid number: ");
            push_str(&mut m, failure_text(f).as_str());
            Err(m)
        },
    }
}

proof fn lemma_digit_value(d: nat)
    requires
        d < 10,
    ensures
        is_digit(digit_char(d)),
        (digit_char(d) as int) - ('0' as int) == d,
{
}

proof fn lemma_decimal_digits(m: nat)
    ensures
        decimal(m).len() >= 1,
        forall|i: int| 0 <= i < decimal(m).len() ==> is_digit(#[trigger] decimal(m)[i]),
    decreases m,
{
    if m < 10 {
        lemma_digit_value(m);
    } else {
        lemma_decimal_digits(m / 10);
        lemma_digit_value(m % 10);
        let d = decimal(m);
        let h = decimal(m / 10);
        assert forall|i: int| 0 <= i < d.len() implies is_digit(#[trigger] d[i]) by {
            if i < h.len() {
                assert(d[i] == h[i]);
            }
        }
    }
}

proof fn lemma_scan_decimal(m: nat, negative: bool)
    requires
        negative ==> m <= 2147483648,
        !negative ==> m <= 2147483647,
    ensures
        scan_digits(decimal(m), negative) == Ok::<int, IntFailure>(if negative { -m } else { m as int }),
    decreases m,
{
    let d = decimal(m);
    if m < 10 {
        lemma_digit_value(m);
        assert(d.drop_last() =~= Seq::<char>::empty());
        assert(d.last() == digit_char(m));
        assert(scan_digits(d.drop_last(), negative) == Ok::<int, IntFailure>(0));
        assert(fits_i32(if negative { -m } else { m as int }));
    } else {
        lemma_scan_decimal(m / 10, negative);
        lemma_digit_value(m % 10);
        assert(d.drop_last() =~= decimal(m / 10));
        assert(d.last() == digit_char(m % 10));
        let acc: int = if negative { -((m / 10) as int) } else { (m / 10) as int };
        let digit = (digit_char(m % 10) as int) - ('0' as int);
        assert(digit == m % 10);
        assert(m == (m / 10) * 10 + m % 10);
        if negative {
            assert(acc * 10 - digit == -m);
        } else {
            assert(acc * 10 + digit == m);
        }
        assert(scan_digits(d.drop_last(), negative) == Ok::<int, IntFailure>(acc));
        assert(fits_i32(if negative { -m } else { m as int }));
    }
}

/// A migration file name written as `<number>_<name>` reads back as that
/// number and that name, whatever the name holds.
pub proof fn lemma_filename_roundtrip(n: i32, name: Seq<char>)
    ensures
        parse_filename_spec(signed_decimal(n as int) + "_"@ + name) == Ok::<(int, Seq<char>), Seq<char>>(
            (n as int, name),
        ),
{
    reveal_strlit("_");
    let sd = signed_decimal(n as int);
    let s = sd + "_"@ + name;
    let m: nat = if n < 0 { (-n) as nat } else { n as nat };
    lemma_decimal_digits(m);
    assert forall|i: int| 0 <= i < sd.len() implies #[trigger] s[i] != '_' by {
        assert(s[i] == sd[i]);
        if n < 0 && i > 0 {
            assert(sd[i] == decimal(m)[i - 1]);
        } else if n >= 0 {
            assert(sd[i] == decimal(m)[i]);
        }
    }
    assert(s[sd.len() as int] == '_');
    let k = choose|i: int| 0 <= i < s.len() && s[i] == '_' && forall|j: int| 0 <= j < i ==> s[j] != '_';
    if k < sd.len() {
    } else if k > sd.len() {
        assert(s[sd.len() as int] != '_');
    }
    assert(first_underscore(s) == Some(sd.len() as int));
    assert(s.take(sd.len() as int) =~= sd);
    assert(s.skip(sd.len() + 1int) =~= name);
    if n < 0 {
        lemma_scan_decimal(m, true);
        assert(sd.drop_first() =~= decimal(m));
        assert(sd[0] == '-');
        assert(sd.len() >= 2);
    } else {
        lemma_scan_decimal(m, false);
        assert(is_digit(sd[0]));
    }
}

/// The SHA-512 hash of a migration file's contents.
pub fn calculate_hash(contents: &[u8]) -> (r: Vec<u8>)
    ensures
        r@ == sha512_digest(contents@),
        r@.len() == 64,
{
    sha512(contents)
}

/// A migration file: where it is, the number and name its file name
/// carries, and the hash of its contents.
#[derive(Clone)]
pub struct MigrationFile {
    pub path: std::path::PathBuf,
    pub number: i32,
    pub name: String,
    pub hash: Vec<u8>,
}

/// `PathBuf::clone`: a path equal to `p`.
pub assume_specification[ <std::path::PathBuf as std::clone::Clone>::clone ](p: &std::path::PathBuf) -> (r: std::path::PathBuf)
    ensures
        r == *p,
;

/// Whether two migration files agree field by field.
pub open spec fn same_file(a: MigrationFile, b: MigrationFile) -> bool {
    &&& a.path == b.path
    &&& a.number == b.number
    &&& a.name@ == b.name@
    &&& a.hash@ == b.hash@
}

impl MigrationFile {
    /// A copy of this migration file.
    pub fn duplicate(&self) -> (r: MigrationFile)
        ensures
            same_file(r, *self),
    {
        MigrationFile {
            path: self.path.clone(),
            number: self.number,
            name: copy_string(&self.name),
            hash: bytes_of(self.hash.as_slice()),
        }
    }

    /// The migration file at `path`, given the path's file stem, the path
    /// as displayed and as debug-formatted, and what reading the file gave.
    /// Without a stem the name is invalid; a stem that is not
    /// `<number>_<name>` is invalid with the reason; only then does a
    /// failed read count, and otherwise the contents are hashed.
    pub fn from_path(
        path: std::path::PathBuf,
        file_stem: Option<String>,
        display: &str,
        debug: &str,
        contents: Result<Vec<u8>, MigrationError>,
    ) -> (r: Result<MigrationFile, MigrationError>)
        ensures
            match file_stem {
                None => r matches Err(MigrationError::Misc(m)) && m@ == "Invalid filename: "@ + display@,
                Some(stem) => match parse_filename_spec(stem@) {
                    Err(msg) => r matches Err(MigrationError::Misc(m)) && m@ == "Invalid filename "@ + debug@
                        + ": "@ + msg,
                    Ok((n, name)) => match contents {
                        Err(e) => r == Err::<MigrationFile, MigrationError>(e),
                        Ok(bytes) => r matches Ok(f) && f.path == path && f.number == n && f.name@ == name
                            && f.hash@ == sha512_digest(bytes@),
                    },
                },
            },
    {
        match file_stem {
            None => {
                let mut m = string_of("Invalid filename: ");
                push_str(&mut m, display);
                Err(MigrationError::Misc(m))
            },
            Some(stem) => match parse_filename(stem) {
                Err(msg) => {
                    let mut m = string_of("Invalid filename ");
                    push_str(&mut m, debug);
                    push_str(&mut m, ": ");
                    push_str(&mut m, msg.as_str());
                    Err(MigrationError::Misc(m))
                },
                Ok((number, name)) => match contents {
                    Err(e) => Err(e),
                    Ok(bytes) => {
                        let hash = calculate_hash(bytes.as_slice());
                        Ok(MigrationFile { path, number, name, hash })
                    },
                },
            },
        }
    }
}

/// Whether some file of `files` has number `n`.
pub open spec fn has_number(files: Seq<MigrationFile>, n: i32) -> bool {
    exists|i: int| 0 <= i < files.len() && #[trigger] files[i].number == n
}

/// Adds a migration file to those of a directory; a second file with the
/// same number is refused with `Migration folder contains multiple files
/// for number <n>`.
pub fn add_migration_file(files: &mut Vec<MigrationFile>, file: MigrationFile) -> (r: Result<(), MigrationError>)
    ensures
        has_number(old(files)@, file.number) ==> {
            &&& r matches Err(MigrationError::Misc(m)) && m@ == "Migration folder contains multiple files for number "@
                + signed_decimal(file.number as int)
            &&& final(files)@ == old(files)@
        },
        !has_number(old(files)@, file.number) ==> r is Ok && final(files)@ == old(files)@.push(file),
{
    let mut i: usize = 0;
    while i < files.len()
        invariant
            i <= files@.len(),
            files@ == old(files)@,
            forall|j: int| 0 <= j < i ==> files@[j].number != file.number,
        decreases files.len() - i,
    {
        if files[i].number == file.number {
            let mut m = string_of("Migration folder contains multiple files for number ");
            push_str(&mut m, decimal_i32(file.number).as_str());
            return Err(MigrationError::Misc(m));
        }
        i = i + 1;
    }
    files.push(file);
    Ok(())
}

} // verus!
