//! Running SQL migration files and keeping their log in the database: the
//! files, their state against the log, and what each command does with it.
pub mod cli;
pub mod error;
pub mod file;
pub mod models;
pub mod plan;
pub mod sql_error;
