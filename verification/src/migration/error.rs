//! Errors of loading migration files and of running migrations.
use vstd::prelude::*;
use crate::text::{copy_string, push_str, string_of};

verus! {

/// `std::io::Error`, carried through as it is.
#[verifier::external_type_specification]
#[verifier::external_body]
pub struct ExIoError(std::io::Error);

/// `tokio_postgres::Error`, carried through as it is.
#[verifier::external_type_specification]
#[verifier::external_body]
pub struct ExPgError(tokio_postgres::Error);

/// The errors of migration file loading, command execution, or
/// PostgreSQL access.
#[derive(Debug)]
pub enum MigrationError {
    /// I/O failure while reading migration files or directories.
    Io(String, std::io::Error),
    /// Generic user-facing migration error.
    Misc(String),
    /// PostgreSQL failure while querying or mutating migration state.
    Pg(String, tokio_postgres::Error),
    /// SQL text annotated with a database error location.
    Sql(String),
}

/// The text of an I/O error, from its `Display` impl. Nothing is stated of
/// it: it may hold a message of the operating system.
#[verifier::external_body]
fn io_error_text(e: &std::io::Error) -> String {
    e.to_string()
}

/// The text of a PostgreSQL client error, from its `Display` impl. Nothing
/// is stated of it: it holds what the server or the connection reported.
#[verifier::external_body]
fn pg_error_text(e: &tokio_postgres::Error) -> String {
    e.to_string()
}

impl MigrationError {
    /// The error's text: the message, and for `Io` and `Pg` errors a colon,
    /// a space and the text of the underlying error.
    pub fn message(&self) -> (r: String)
        ensures
            self is Misc ==> r@ == self->Misc_0@,
            self is Sql ==> r@ == self->Sql_0@,
            self is Io ==> r@.len() >= self->Io_0@.len() + 2 && r@.take(self->Io_0@.len() + 2int) == self->Io_0@ + ": "@,
            self is Pg ==> r@.len() >= self->Pg_0@.len() + 2 && r@.take(self->Pg_0@.len() + 2int) == self->Pg_0@ + ": "@,
    {
        match self {
            MigrationError::Io(m, e) => {
                let mut s = copy_string(m);
                push_str(&mut s, ": ");
                let t = io_error_text(e);
                let ghost head = s@;
                push_str(&mut s, t.as_str());
                proof {
                    reveal_strlit(": ");
                }
                assert(s@.take(head.len() as int) =~= head);
                s
            },
            MigrationError::Misc(m) => copy_string(m),
            MigrationError::Pg(m, e) => {
                let mut s = copy_string(m);
                push_str(&mut s, ": ");
                let t = pg_error_text(e);
                let ghost head = s@;
                push_str(&mut s, t.as_str());
                proof {
                    reveal_strlit(": ");
                }
                assert(s@.take(head.len() as int) =~= head);
                s
            },
            MigrationError::Sql(m) => copy_string(m),
        }
    }
}

/// An I/O error with the message `I/O error`.
pub fn io_error(error: std::io::Error) -> (e: MigrationError)
    ensures
        e matches MigrationError::Io(m, _) && m@ == "I/O error"@,
{
    MigrationError::Io(string_of("I/O error"), error)
}

} // verus!
