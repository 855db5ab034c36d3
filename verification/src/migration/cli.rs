//! The migration commands and their arguments.
use vstd::prelude::*;

verus! {

/// The migration command.
pub struct Command {
    pub subcommand: Subcommands,
}

/// Where the migration files lie.
pub struct MigrationArgs {
    /// Directory containing the migrations.
    pub migrations_dir: std::path::PathBuf,
}

/// The subcommands of the migration command.
pub enum Subcommands {
    /// List migrations and show their current status.
    Status(MigrationArgs),
    /// Show the migration log.
    Log,
    /// Run migrations on the database.
    Run(RunArgs),
    /// Fail unless every migration is cleanly applied.
    Check(MigrationArgs),
    /// Fix the log entry of one migration.
    Fix(FixArgs),
}

/// The arguments of `run`.
pub struct RunArgs {
    /// Directory containing the migrations.
    pub migrations_dir: std::path::PathBuf,
    /// Number of the migration to run; all outstanding ones without it.
    pub number: Option<i32>,
}

/// The arguments of `fix`.
pub struct FixArgs {
    /// Directory containing the migrations.
    pub migrations_dir: std::path::PathBuf,
    /// The number of the migration to fix.
    pub number: i32,
}

} // verus!
