//! What the caller reports back of the work that it does on disk.

use crate::error::GridstoreError;
use crate::gridstore::Gridstore;
use crate::payload::Payload;
use vstd::prelude::*;

verus! {

/// What came of a piece of work on disk.
#[derive(Debug)]
pub enum Outcome {
    /// Whether a path was found.
    Found(bool),
    /// A file operation: done, or why it failed.
    File(Result<(), String>),
    /// An operation of the store: done, or why it failed.
    Store(Result<(), GridstoreError>),
    /// A store that was opened, or why that failed.
    Opened(Result<Gridstore<Payload>, GridstoreError>),
}

impl Outcome {
    /// The work was done.
    pub open spec fn is_success(self) -> bool {
        match self {
            Outcome::Found(_) => true,
            Outcome::File(done) => done is Ok,
            Outcome::Store(done) => done is Ok,
            Outcome::Opened(opened) => opened is Ok,
        }
    }
}

}
