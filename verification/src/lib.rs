//! SetupVault core: detection parsing, snapshot diffing, staging queues and
//! the flat-file document store for reviewed system-change records.

pub mod codec;
pub mod columns;
pub mod detect;
pub mod domain;
mod ids;
pub mod search;
pub mod secrets;
pub mod staging;
pub mod state;
pub mod text;
pub mod vault;
