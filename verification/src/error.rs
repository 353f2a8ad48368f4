//! The errors of the store and of the payload storage on top of it.

use vstd::prelude::*;

verus! {

/// Why the store could not do what it was asked for.
#[derive(Debug, PartialEq, Eq)]
pub enum GridstoreError {
    /// A pointer leads to bytes that no page holds.
    OutOfBounds,
    /// The value is too large for a record.
    ValueTooLarge,
    /// There is no room left, among the pages or among the offsets.
    OutOfSpace,
    /// The sizes of the pages and blocks do not fit together.
    InvalidConfig,
    /// Records that need a dictionary stand in a store without one.
    MissingDictionary,
    /// The stored bytes are not what the store writes.
    Corrupted,
    /// A file operation failed.
    Io(String),
}

impl GridstoreError {
    /// The text of the error.
    pub open spec fn message(self) -> Seq<char> {
        match self {
            GridstoreError::OutOfBounds => "pointer out of bounds"@,
            GridstoreError::ValueTooLarge => "value too large"@,
            GridstoreError::OutOfSpace => "out of space"@,
            GridstoreError::InvalidConfig => "invalid configuration"@,
            GridstoreError::MissingDictionary => "missing dictionary"@,
            GridstoreError::Corrupted => "corrupted storage"@,
            GridstoreError::Io(text) => text@,
        }
    }

    /// The text of the error.
    pub fn description(&self) -> (text: String)
        ensures
            text@ == self.message(),
    {
        match self {
            GridstoreError::OutOfBounds => "pointer out of bounds".to_string(),
            GridstoreError::ValueTooLarge => "value too large".to_string(),
            GridstoreError::OutOfSpace => "out of space".to_string(),
            GridstoreError::InvalidConfig => "invalid configuration".to_string(),
            GridstoreError::MissingDictionary => "missing dictionary".to_string(),
            GridstoreError::Corrupted => "corrupted storage".to_string(),
            GridstoreError::Io(text) => text.clone(),
        }
    }

    /// The same error once more.
    pub fn duplicate(&self) -> (error: GridstoreError)
        ensures
            error == *self,
    {
        match self {
            GridstoreError::OutOfBounds => GridstoreError::OutOfBounds,
            GridstoreError::ValueTooLarge => GridstoreError::ValueTooLarge,
            GridstoreError::OutOfSpace => GridstoreError::OutOfSpace,
            GridstoreError::InvalidConfig => GridstoreError::InvalidConfig,
            GridstoreError::MissingDictionary => GridstoreError::MissingDictionary,
            GridstoreError::Corrupted => GridstoreError::Corrupted,
            GridstoreError::Io(text) => GridstoreError::Io(text.clone()),
        }
    }
}

/// Why an operation on the payload storage failed.
#[derive(Debug, PartialEq, Eq)]
pub enum OperationError {
    /// A failure that is described to the user.
    ServiceError { description: String },
    /// A failure of the store, handed on.
    Gridstore(GridstoreError),
    /// A failure of a file operation, handed on.
    Io(String),
}

impl OperationError {
    /// A failure with a description.
    pub fn service_error(description: &str) -> (error: OperationError)
        ensures
            error matches OperationError::ServiceError { description: d } && d@ == description@,
    {
        OperationError::ServiceError { description: description.to_string() }
    }

    /// A failure of the store, described with what was being done.
    pub fn failed(doing: &str, error: &GridstoreError) -> (result: OperationError)
        ensures
            result matches OperationError::ServiceError { description } && description@ == doing@
                + error.message(),
    {
        let text = doing.to_string();
        let reason = error.description();
        OperationError::ServiceError { description: text.concat(reason.as_str()) }
    }
}

impl From<GridstoreError> for OperationError {
    fn from(error: GridstoreError) -> (result: OperationError) {
        OperationError::Gridstore(error)
    }
}

impl vstd::std_specs::convert::FromSpecImpl<GridstoreError> for OperationError {
    open spec fn obeys_from_spec() -> bool {
        true
    }

    open spec fn from_spec(error: GridstoreError) -> OperationError {
        OperationError::Gridstore(error)
    }
}

}
