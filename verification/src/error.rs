//! The errors that the library reports.

use vstd::prelude::*;

verus! {

/// What can go wrong with the data itself.
#[derive(Debug, PartialEq, Eq)]
pub enum DbError {
    /// No value is stored under the key. The key is the one that was looked up in the store.
    KeyNotExists(String),
}

/// An error of the library.
#[derive(Debug, PartialEq, Eq)]
pub enum Error {
    /// The data is not as the caller expects.
    DbError(DbError),
    /// A lease can no longer be kept alive.
    LeaseKeepAliveError(String),
    /// A failure that is described in words.
    Message(String),
}

} // verus!
