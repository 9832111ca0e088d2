//! Named prompt profiles: name validation, repository layout decisions,
//! the tri-state exposure policy and the placeholder template grammar.
pub mod cli;
pub mod config;
pub mod listing;
pub mod names;
pub mod server;
pub mod storage;
pub mod template;
