//! The library's error type.

use vstd::prelude::*;

verus! {

/// The SQLite error type of the `rusqlite` crate, carried through unchanged.
#[verifier::external_type_specification]
#[verifier::external_body]
pub struct ExSqliteError(rusqlite::Error);

/// The standard I/O error type, carried through unchanged.
#[verifier::external_type_specification]
#[verifier::external_body]
pub struct ExIoError(std::io::Error);

/// Errors of the tokenizer, the dictionary backends and the index.
#[derive(Debug)]
pub enum TentokuError {
    /// Database error.
    Database(rusqlite::Error),
    /// Database not found at the given path.
    DatabaseNotFound { path: String },
    /// I/O error.
    Io(std::io::Error),
    /// Malformed key index.
    Index(String),
    /// Database build failure.
    Build(String),
}

} // verus!
