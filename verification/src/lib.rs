//! Storage schema of a food journal kept in one ordered key-value namespace.
//!
//! User profiles, journal entries and the recall index share a single flat
//! table; the textual prefix of a key tells the record families apart. This
//! crate holds the key grammar, the record codec and the entity operations
//! built on them. It performs no input or output: every operation takes what
//! was read from the table and returns what has to be written to it, so that
//! the caller can run it inside one transaction of the storage engine.

pub mod error;
pub mod text;

pub mod date;
pub mod token;
pub mod object;
pub mod record;
pub mod order;
pub mod keys;
pub mod store;
pub mod config;
pub mod users;
pub mod journal;
