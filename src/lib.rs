//! Versioned, checksum-verified schema migrations: resolving migration
//! scripts into a validated set, and planning how to apply or revert them
//! against the history of what a database has already run.

pub mod types;
pub mod text;
pub mod name;
pub mod resolve;
pub mod migrator;
pub mod run;
