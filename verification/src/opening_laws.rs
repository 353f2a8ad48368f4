//! What opening and creating a storage comes to.

use crate::config::{Compression, StorageConfig};
use crate::error::{GridstoreError, OperationError};
use crate::gridstore::Gridstore;
use crate::layout::{Cell, Record};
use crate::mmap_payload_storage::MmapPayloadStorage;
use crate::open::OpenStep;
use crate::pages::Pages;
use crate::payload::Payload;
use crate::steps::Outcome;
use crate::tracker::Tracker;
use vstd::prelude::*;

verus! {

/// A step after which there is nothing more to be done, and a storage that holds a given store.
pub open spec fn is_opened_with(
    step: OpenStep,
    store: Gridstore<Payload>,
    populate: bool,
) -> bool {
    step matches OpenStep::Opened { storage } && storage.store() == store && storage.populated()
        == populate
}

/// A storage whose directory is found opens with the store that was opened there, whatever that
/// store is and holds. It is populated before that if and only if that was asked for.
pub proof fn law_found_storage_opens(
    store: Gridstore<Payload>,
    populate: bool,
    found: OpenStep,
    opened: OpenStep,
    populated: OpenStep,
)
    requires
        call_ensures(
            MmapPayloadStorage::open_or_create,
            (OpenStep::FindDirectory, Outcome::Found(true), populate),
            found,
        ),
        call_ensures(
            MmapPayloadStorage::open_or_create,
            (found, Outcome::Opened(Ok(store)), populate),
            opened,
        ),
        populate ==> call_ensures(
            MmapPayloadStorage::open_or_create,
            (opened, Outcome::Store(Ok(())), populate),
            populated,
        ),
    ensures
        found is OpenStorage,
        populate ==> opened is Populate && is_opened_with(populated, store, true),
        !populate ==> is_opened_with(opened, store, false),
{
}

/// A storage whose directory is not found is created: the directory, then an empty store in it,
/// with plain LZ4, pages of 32 MiB, blocks of 128 bytes and no dictionary. It is populated before
/// it is there if and only if that was asked for.
pub proof fn law_missing_storage_is_created(
    populate: bool,
    missing: OpenStep,
    directory: OpenStep,
    created: OpenStep,
    populated: OpenStep,
) -> (store: Gridstore<Payload>)
    requires
        call_ensures(
            MmapPayloadStorage::open_or_create,
            (OpenStep::FindDirectory, Outcome::Found(false), populate),
            missing,
        ),
        call_ensures(
            MmapPayloadStorage::open_or_create,
            (missing, Outcome::File(Ok(())), populate),
            directory,
        ),
        call_ensures(
            MmapPayloadStorage::open_or_create,
            (directory, Outcome::Store(Ok(())), populate),
            created,
        ),
        populate ==> call_ensures(
            MmapPayloadStorage::open_or_create,
            (created, Outcome::Store(Ok(())), populate),
            populated,
        ),
    ensures
        missing is CreateDirectory,
        directory is CreateStorage,
        populate ==> created is Populate && is_opened_with(populated, store, true),
        !populate ==> is_opened_with(created, store, false),
        store.cells() == Seq::<Cell>::empty(),
        forall|i: int| #[trigger] store.cell(i) == Ok::<Option<Record>, GridstoreError>(None),
        store.configured().compression == Compression::LZ4,
        store.configured().page_size_bytes == 33554432,
        store.configured().block_size_bytes == 128,
        store.trained() is None,
        store.used() == 0,
        store.page_bytes() == 0,
{
    match created {
        OpenStep::Populate { storage } => storage.store(),
        OpenStep::Opened { storage } => storage.store(),
        _ => arbitrary(),
    }
}

/// Every failure of the work on disk ends the opening, and is what it fails with.
pub proof fn law_failed_work_ends_opening(
    step: OpenStep,
    outcome: Outcome,
    populate: bool,
    next: OpenStep,
)
    requires
        call_ensures(MmapPayloadStorage::open_or_create, (step, outcome, populate), next),
    ensures
        outcome.is_success() <==> next !is Failed,
        outcome is File && !outcome.is_success() ==> (next matches OpenStep::Failed(
            OperationError::ServiceError { description },
        ) && description@ == "Failed to create mmap payload storage directory"@),
        outcome matches Outcome::Opened(Err(error)) ==> (next matches OpenStep::Failed(
            OperationError::ServiceError { description },
        ) && description@ == "Failed to open mmap payload storage: "@ + error.message()),
        outcome matches Outcome::Store(Err(error)) ==> next == OpenStep::Failed(
            OperationError::Gridstore(error),
        ),
{
}

/// `open` hands every store that was opened on, and `new` an empty one; neither fails of itself.
pub proof fn law_open_and_new(
    opened: Result<Gridstore<Payload>, GridstoreError>,
    created: Result<(), GridstoreError>,
    populate: bool,
    next: (OpenStep, OpenStep),
)
    requires
        call_ensures(MmapPayloadStorage::open, (opened, populate), next.0),
        call_ensures(MmapPayloadStorage::new, (created, populate), next.1),
    ensures
        next.0 is Failed <==> opened is Err,
        next.1 is Failed <==> created is Err,
        opened matches Ok(store) ==> match next.0 {
            OpenStep::Populate { storage } => populate && storage.populated() && storage.store()
                == store,
            OpenStep::Opened { storage } => !populate && !storage.populated() && storage.store()
                == store,
            _ => false,
        },
        created is Ok ==> match next.1 {
            OpenStep::Populate { storage } => populate && storage.populated()
                && storage.store().cells().len() == 0,
            OpenStep::Opened { storage } => !populate && !storage.populated()
                && storage.store().cells().len() == 0,
            _ => false,
        },
{
}

/// A run of the opening: each step follows from the one before and its outcome.
pub open spec fn is_opening(steps: Seq<OpenStep>, outcomes: Seq<Outcome>, populate: bool) -> bool {
    &&& steps.len() == outcomes.len() + 1
    &&& steps[0] is FindDirectory
    &&& forall|i: int|
        0 <= i < outcomes.len() ==> call_ensures(
            MmapPayloadStorage::open_or_create,
            (steps[i], #[trigger] outcomes[i], populate),
            steps[i + 1],
        )
}

/// Opening does not fail of itself: a run without a failure on disk has no failed step, and where
/// nothing more is to be done, the storage is there. Where the directory was found, it holds the
/// store that was opened; where it was not, it holds nothing. The steps come in their order, and
/// there are no others.
pub proof fn law_opening_runs(steps: Seq<OpenStep>, outcomes: Seq<Outcome>, populate: bool)
    requires
        is_opening(steps, outcomes, populate),
        forall|i: int| 0 <= i < outcomes.len() ==> (#[trigger] outcomes[i]).is_success(),
    ensures
        forall|i: int| 0 <= i < steps.len() ==> (#[trigger] steps[i]) !is Failed,
        outcomes.len() > 0 && outcomes[0] == Outcome::Found(true) ==> {
            &&& outcomes.len() <= if populate {
                3int
            } else {
                2int
            }
            &&& steps[1] is OpenStorage
            &&& outcomes.len() >= 2 ==> (outcomes[1] matches Outcome::Opened(Ok(store)) && {
                &&& populate ==> steps[2] is Populate
                &&& populate && outcomes.len() == 3 ==> is_opened_with(steps[3], store, true)
                &&& !populate ==> is_opened_with(steps[2], store, false)
            })
        },
        outcomes.len() > 0 && outcomes[0] != Outcome::Found(true) ==> {
            &&& outcomes.len() <= if populate {
                4int
            } else {
                3int
            }
            &&& steps[1] is CreateDirectory
            &&& outcomes.len() >= 2 ==> steps[2] is CreateStorage
            &&& outcomes.len() >= 3 ==> if populate {
                &&& steps[3] is Populate
                &&& outcomes.len() == 4 ==> (steps[4] matches OpenStep::Opened { storage }
                    && storage.store().cells().len() == 0 && storage.populated())
            } else {
                steps[3] matches OpenStep::Opened { storage } && storage.store().cells().len() == 0
                    && !storage.populated()
            }
        },
{
    if outcomes.len() > 0 {
        let first = outcomes[0];
        if outcomes.len() > 1 {
            let second = outcomes[1];
            if outcomes.len() > 2 {
                let third = outcomes[2];
                if outcomes.len() > 3 {
                    let fourth = outcomes[3];
                    if outcomes.len() > 4 {
                        let fifth = outcomes[4];
                    }
                }
            }
        }
    }
    assert forall|i: int| 0 <= i < steps.len() implies (#[trigger] steps[i]) !is Failed by {
        if i > 0 {
            let outcome = outcomes[i - 1];
            assert(outcome.is_success());
        }
    }
}

/// A storage that was flushed opens again with the same payloads, whatever it holds and however it
/// is compressed: the parts of its store, put together again, are a store, and a storage with that
/// store opens.
pub proof fn law_flushed_storage_is_opened(
    flushed: MmapPayloadStorage,
    parts: (StorageConfig, &Tracker, &Pages, Option<&[u8]>),
    read: (StorageConfig, Tracker, Pages, Option<Vec<u8>>),
    opened: Result<Gridstore<Payload>, GridstoreError>,
    populate: bool,
    steps: (OpenStep, OpenStep, OpenStep),
) -> (storage: MmapPayloadStorage)
    requires
        usize::MAX == 0xffff_ffff_ffff_ffff,
        call_ensures(Gridstore::<Payload>::parts, (&flushed.store(),), parts),
        read.0 == parts.0,
        read.1 == *parts.1,
        read.2 == *parts.2,
        match (read.3, parts.3) {
            (Some(there), Some(here)) => there@ == here@,
            (None, None) => true,
            _ => false,
        },
        call_ensures(Gridstore::<Payload>::from_parts, (read.0, read.1, read.2, read.3), opened),
        call_ensures(
            MmapPayloadStorage::open_or_create,
            (OpenStep::FindDirectory, Outcome::Found(true), populate),
            steps.0,
        ),
        call_ensures(
            MmapPayloadStorage::open_or_create,
            (steps.0, Outcome::Opened(opened), populate),
            steps.1,
        ),
        populate ==> call_ensures(
            MmapPayloadStorage::open_or_create,
            (steps.1, Outcome::Store(Ok(())), populate),
            steps.2,
        ),
    ensures
        (if populate {
            steps.2
        } else {
            steps.1
        }) == (OpenStep::Opened { storage }),
        storage.populated() == populate,
        storage.store().configured() == flushed.store().configured(),
        storage.store().trained() == flushed.store().trained(),
        storage.store().cells() == flushed.store().cells(),
        storage.store().page_bytes() == flushed.store().page_bytes(),
        forall|i: int| #[trigger] storage.payload(i) == flushed.payload(i),
{
    crate::layout::lemma_records_testable(
        read.0,
        read.1,
        read.2,
        crate::layout::owned_dictionary(read.3),
    );
    let last = if populate {
        steps.2
    } else {
        steps.1
    };
    let storage = last->Opened_storage;
    assert forall|i: int| #[trigger] storage.payload(i) == flushed.payload(i) by {
        assert(storage.store().cell(i) == flushed.store().cell(i));
    }
    storage
}

}
