//! PostgreSQL schema objects and the SQL that creates, alters and drops them.
pub mod catalog;
pub mod constraint;
pub mod domain;
pub mod enums;
pub mod equality;
pub mod extension;
pub mod index;
pub mod routine;
pub mod schema;
pub mod trigger;
pub mod view;
