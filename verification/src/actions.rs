//! The operations behind each launcher subcommand.

pub mod copy;
pub mod pulls;
pub mod repos;
pub mod search_issues;
