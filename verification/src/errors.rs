//! The error kinds that the store's operations report.
use vstd::prelude::*;

verus! {

/// Everything that can go wrong in the store.
///
/// - `ValidationError`: an `add` was given empty content; storage is untouched.
/// - `IOError`: the directory for the database file could not be created, or
///   the database file itself could not be opened.
/// - `StorageInitError`: the schema statement could not execute.
/// - `StorageReadError`: a query against the database failed.
/// - `StorageWriteError`: an insert or delete against the database failed.
/// - `TimestampDecodeError`: a stored timestamp string does not match the
///   canonical encoding.
#[derive(Clone, Copy, Debug, PartialEq, Eq, Structural)]
pub enum MemoError {
    ValidationError,
    IOError,
    StorageInitError,
    StorageReadError,
    StorageWriteError,
    TimestampDecodeError,
}

} // verus!
