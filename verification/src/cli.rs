//! The command line of the tool: its commands and their arguments.
use vstd::prelude::*;

verus! {

/// The command line.
pub struct Cli {
    pub command: Commands,
}

/// The commands of the tool.
pub enum Commands {
    /// Schema commands (diffing).
    Schema(SchemaCommand),
    /// Remove all temporary databases, schemas and tables.
    Clean(CleanArgs),
    /// Query commands.
    Query(QueryCommand),
    /// Configuration commands.
    Config(ConfigCommand),
    /// Migration commands.
    Migration(crate::migration::cli::Command),
    /// Alias for `schema diff`.
    Diff(DiffArgs),
    /// Alias for `schema check`.
    Check(CheckArgs),
    /// Alias for `migration run`.
    Migrate(crate::migration::cli::RunArgs),
}

/// The arguments of `clean`.
pub struct CleanArgs {
    /// Only show which queries would run.
    pub dry_run: bool,
}

/// The `config` command.
pub struct ConfigCommand {
    pub command: ConfigSubcommand,
}

/// What `config` shows.
pub enum ConfigSubcommand {
    Default,
    Template,
    Show,
}

/// The `query` command.
pub struct QueryCommand {
    pub command: QuerySubcommand,
}

/// The subcommands of `query`.
pub enum QuerySubcommand {
    /// Inspect one query file and print its metadata.
    Inspect(QueryInspectArgs),
    /// Sync the metadata files of the query files.
    Sync(QuerySyncArgs),
}

/// The arguments of `query inspect`.
pub struct QueryInspectArgs {
    /// The SQL file to inspect.
    pub filename: std::path::PathBuf,
}

/// The arguments of `query sync`.
pub struct QuerySyncArgs {
    /// Glob pattern of query files; the configured one without it.
    pub path: Option<String>,
}

/// The `schema` command.
pub struct SchemaCommand {
    pub command: SchemaSubcommand,
}

/// The subcommands of `schema`.
pub enum SchemaSubcommand {
    /// Show differences between two schemas.
    Diff(DiffArgs),
    /// Check for differences between schemas.
    Check(CheckArgs),
}

/// Where a schema is read from.
#[derive(Debug, Clone, Copy, PartialEq, Eq, Structural)]
pub enum Backend {
    Migrations,
    Schema,
    Database,
}

impl Backend {
    /// The name of the backend on the command line.
    pub fn name(&self) -> (r: &'static str)
        ensures
            r@ == match *self {
                Backend::Migrations => "migrations"@,
                Backend::Schema => "schema"@,
                Backend::Database => "database"@,
            },
    {
        match self {
            Backend::Migrations => "migrations",
            Backend::Schema => "schema",
            Backend::Database => "database",
        }
    }
}

/// The arguments of `schema diff`.
pub struct DiffArgs {
    /// The backend the difference starts from.
    pub from: Backend,
    /// The backend the difference leads to.
    pub to: Backend,
    /// Swap `from` and `to`.
    pub reverse: bool,
    /// Refuse drop statements.
    pub safe: bool,
    /// Allow drop statements.
    pub unsafe_drops: bool,
    /// Show privilege differences.
    pub with_privileges: bool,
    /// Hide privilege differences.
    pub without_privileges: bool,
}

impl DiffArgs {
    /// The backends to compare, in the order of the difference: swapped
    /// when `reverse` is set.
    pub fn backends(&self) -> (r: (Backend, Backend))
        ensures
            r == if self.reverse {
                (self.to, self.from)
            } else {
                (self.from, self.to)
            },
    {
        if self.reverse {
            (self.to, self.from)
        } else {
            (self.from, self.to)
        }
    }
}

/// The arguments of `schema check`.
pub struct CheckArgs {
    /// The backend the check starts from.
    pub from: Backend,
    /// The backend the check leads to.
    pub to: Backend,
    /// Swap `from` and `to`.
    pub reverse: bool,
    /// Check privilege differences.
    pub with_privileges: bool,
    /// Do not check privilege differences.
    pub without_privileges: bool,
}

} // verus!
