//! Opening the storage of a segment, or creating it.
//!
//! What happens on disk is left to the caller, step by step.

use crate::config::StorageOptions;
use crate::error::{GridstoreError, OperationError};
use crate::gridstore::Gridstore;
use crate::mmap_payload_storage::MmapPayloadStorage;
use crate::payload::Payload;
use crate::steps::Outcome;
use vstd::prelude::*;

verus! {

/// What is to be done next to open or create a storage.
#[derive(Debug)]
pub enum OpenStep {
    /// Look for the directory of the storage.
    FindDirectory,
    /// Create the directory of the storage, and those above it.
    CreateDirectory,
    /// Open the store in the directory.
    OpenStorage,
    /// Create a store with the default options in the directory.
    CreateStorage,
    /// Populate the pages of the store.
    Populate { storage: MmapPayloadStorage },
    /// Nothing more, here is the storage.
    Opened { storage: MmapPayloadStorage },
    /// Nothing more, the storage could not be opened or created.
    Failed(OperationError),
}

impl OpenStep {
    /// The step is the one that the outcome can come of.
    pub open spec fn awaits(self, outcome: Outcome) -> bool {
        match self {
            OpenStep::FindDirectory => outcome is Found,
            OpenStep::CreateDirectory => outcome is File,
            OpenStep::OpenStorage => outcome is Opened,
            OpenStep::CreateStorage | OpenStep::Populate { .. } => outcome is Store,
            OpenStep::Opened { .. } | OpenStep::Failed(_) => false,
        }
    }

    /// How far the opening has come.
    pub open spec fn progress(self) -> nat {
        match self {
            OpenStep::FindDirectory => 0,
            OpenStep::CreateDirectory => 1,
            OpenStep::OpenStorage | OpenStep::CreateStorage => 2,
            OpenStep::Populate { .. } => 3,
            OpenStep::Opened { .. } | OpenStep::Failed(_) => 4,
        }
    }

    /// The step that follows on a store that is there: populate it if asked to, and be done.
    pub open spec fn follows(self, store: Gridstore<Payload>, populate: bool) -> bool {
        match self {
            OpenStep::Populate { storage } => populate && storage.store() == store
                && storage.populated(),
            OpenStep::Opened { storage } => !populate && storage.store() == store
                && !storage.populated(),
            _ => false,
        }
    }
}

/// The store is a new one, made with the default options.
pub open spec fn is_default_store(store: Gridstore<Payload>) -> bool {
    &&& store.configured() == default_options().resolved()
    &&& store.trained() is None
    &&& store.cells().len() == 0
    &&& store.used() == 0
    &&& store.page_bytes() == 0
}

/// The options with nothing asked for.
pub open spec fn default_options() -> StorageOptions {
    StorageOptions { page_size_bytes: None, block_size_bytes: None, compression: None }
}

impl MmapPayloadStorage {
    /// The step after the outcome of a step. A directory that is there is opened; where there is
    /// none, it is created, and an empty store in it.
    pub open spec fn is_open_step(
        step: OpenStep,
        outcome: Outcome,
        populate: bool,
        next: OpenStep,
    ) -> bool {
        match (step, outcome) {
            (OpenStep::FindDirectory, Outcome::Found(found)) => next == if found {
                OpenStep::OpenStorage
            } else {
                OpenStep::CreateDirectory
            },
            (OpenStep::CreateDirectory, Outcome::File(done)) => match done {
                Ok(_) => next == OpenStep::CreateStorage,
                Err(_) => next matches OpenStep::Failed(
                    OperationError::ServiceError { description },
                ) && description@ == "Failed to create mmap payload storage directory"@,
            },
            (OpenStep::OpenStorage, Outcome::Opened(opened)) => match opened {
                Ok(store) => next.follows(store, populate),
                Err(error) => next matches OpenStep::Failed(
                    OperationError::ServiceError { description },
                ) && description@ == "Failed to open mmap payload storage: "@ + error.message(),
            },
            (OpenStep::CreateStorage, Outcome::Store(created)) => match created {
                Ok(_) => exists|store: Gridstore<Payload>| #[trigger]
                    is_default_store(store) && next.follows(store, populate),
                Err(error) => next == OpenStep::Failed(OperationError::Gridstore(error)),
            },
            (OpenStep::Populate { storage }, Outcome::Store(done)) => match done {
                Ok(_) => next == OpenStep::Opened { storage },
                Err(error) => next == OpenStep::Failed(OperationError::Gridstore(error)),
            },
            _ => false,
        }
    }

    /// Opens the storage of a segment, or creates it: takes the outcome of a step and gives the
    /// next one.
    pub fn open_or_create(step: OpenStep, outcome: Outcome, populate: bool) -> (next: OpenStep)
        requires
            step.awaits(outcome),
        ensures
            Self::is_open_step(step, outcome, populate, next),
            next.progress() > step.progress(),
    {
        match (step, outcome) {
            (OpenStep::FindDirectory, Outcome::Found(found)) => if found {
                OpenStep::OpenStorage
            } else {
                OpenStep::CreateDirectory
            },
            (OpenStep::CreateDirectory, Outcome::File(done)) => match done {
                Ok(_) => OpenStep::CreateStorage,
                Err(_) => OpenStep::Failed(
                    OperationError::service_error(
                        "Failed to create mmap payload storage directory",
                    ),
                ),
            },
            (OpenStep::OpenStorage, Outcome::Opened(opened)) => Self::open(opened, populate),
            (OpenStep::CreateStorage, Outcome::Store(created)) => Self::new(created, populate),
            (OpenStep::Populate { storage }, Outcome::Store(done)) => match storage.populate(done) {
                Ok(_) => OpenStep::Opened { storage },
                Err(error) => OpenStep::Failed(error),
            },
            _ => {
                assert(false);
                OpenStep::FindDirectory
            },
        }
    }

    /// The step after a store was opened, or could not be.
    pub fn open(opened: Result<Gridstore<Payload>, GridstoreError>, populate: bool) -> (next:
        OpenStep)
        ensures
            Self::is_open_step(OpenStep::OpenStorage, Outcome::Opened(opened), populate, next),
    {
        match opened {
            Ok(storage) => Self::with_store(storage, populate),
            Err(error) => OpenStep::Failed(
                OperationError::failed("Failed to open mmap payload storage: ", &error),
            ),
        }
    }

    /// The step after a store was created on disk, or could not be: an empty store with the default
    /// options.
    pub fn new(created: Result<(), GridstoreError>, populate: bool) -> (next: OpenStep)
        ensures
            Self::is_open_step(OpenStep::CreateStorage, Outcome::Store(created), populate, next),
    {
        match created {
            Ok(_) => match Gridstore::new(StorageOptions::default(), None) {
                Ok(storage) => {
                    assert(is_default_store(storage));
                    Self::with_store(storage, populate)
                },
                Err(error) => {
                    assert(false);
                    OpenStep::Failed(OperationError::from(error))
                },
            },
            Err(error) => OpenStep::Failed(OperationError::from(error)),
        }
    }

    /// The step that follows on a store that is there.
    fn with_store(storage: Gridstore<Payload>, populate: bool) -> (next: OpenStep)
        ensures
            next.follows(storage, populate),
    {
        let storage = MmapPayloadStorage::from_store(storage, populate);
        if populate {
            OpenStep::Populate { storage }
        } else {
            OpenStep::Opened { storage }
        }
    }
}

}
