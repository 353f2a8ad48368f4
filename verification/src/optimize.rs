//! Switching a storage from plain LZ4 to LZ4 with a trained dictionary.
//!
//! A dictionary is trained on a sample of the payloads, every payload is rewritten with it into a
//! second store, and the directories of the two stores are swapped. What happens on disk is left
//! to the caller, step by step.

use crate::blob::Blob;
use crate::config::{Compression, StorageOptions};
use crate::counter::HardwareCounterCell;
use crate::error::{GridstoreError, OperationError};
use crate::gridstore::Gridstore;
use crate::layout::Cell;
use crate::json::{Json, JsonObject, JsonValue};
use crate::mmap_payload_storage::MmapPayloadStorage;
use crate::payload::Payload;
use crate::steps::Outcome;
use crate::tracker::PointOffset;
use vstd::prelude::*;

verus! {

/// The largest number of payloads that are sampled to train a dictionary.
pub const DICT_SAMPLE_SIZE: usize = 1000;

/// The standard generator of `rand`.
#[verifier::external_type_specification]
#[verifier::external_body]
pub struct ExStdRng(rand::rngs::StdRng);

/// The numbers differ from each other, are so many, and lie below a length.
pub open spec fn is_sample(numbers: Seq<usize>, length: int, amount: int) -> bool {
    &&& numbers.len() == amount
    &&& forall|i: int| 0 <= i < numbers.len() ==> (#[trigger] numbers[i]) < length
    &&& forall|i: int, j: int|
        0 <= i < j < numbers.len() ==> #[trigger] numbers[i] != #[trigger] numbers[j]
}

/// `rand::seq::index::sample`: so many different numbers below a length. Which ones they are is
/// left to chance.
#[verifier::external_body]
fn sample_indices(rng: &mut rand::rngs::StdRng, length: usize, amount: usize) -> (numbers: Vec<
    usize,
>)
    requires
        amount <= length <= u32::MAX,
    ensures
        is_sample(numbers@, length as int, amount as int),
{
    rand::seq::index::sample(rng, length, amount).into_vec()
}

/// The schema of the payloads of some points, taken up in that order. Points without a payload,
/// and points that could not be read, add nothing.
pub open spec fn schema_of(store: Gridstore<Payload>, offsets: Seq<usize>) -> Json
    decreases offsets.len(),
{
    if offsets.len() == 0 {
        Json::Object(crate::json::no_entries())
    } else {
        let front = schema_of(store, offsets.drop_last());
        match store.cell(offsets.last() as int) {
            Ok(Some(record)) => front.merged(
                Json::Object(crate::text::parsed(record.bytes)->0),
            ),
            _ => front,
        }
    }
}

/// The dictionary that is trained on the payloads of some points: the text of their schema.
pub open spec fn dictionary_of(store: Gridstore<Payload>, offsets: Seq<usize>) -> Seq<u8> {
    crate::text::text_of(schema_of(store, offsets))
}

/// The payloads of the points from `from` on can be rewritten into a store: what is stored for each
/// point that is reached is a payload. None is reached beyond a point that could not be read, or
/// beyond a payload that could not be stored.
pub open spec fn rewritable(cells: Seq<Cell>, from: int, store: Gridstore<Payload>) -> bool
    decreases cells.len() - from,
{
    if from >= cells.len() {
        true
    } else {
        match cells[from] {
            Err(_) => true,
            Ok(None) => rewritable(cells, from + 1, store),
            Ok(Some(record)) => {
                &&& Payload::decodes(record.bytes)
                &&& forall|payload: Payload, after: Gridstore<Payload>|
                    {
                        &&& Payload::is_decoded(record.bytes, payload)
                        &&& #[trigger] store.is_put(after, from as PointOffset, payload, Ok(()))
                    } ==> rewritable(cells, from + 1, after)
            },
        }
    }
}

impl MmapPayloadStorage {
    /// The number of payloads to train a dictionary on. None is trained where the records are not
    /// plain LZ4 or there are none.
    pub open spec fn sample_size(self) -> int {
        if self.store().configured().compression != Compression::LZ4 {
            0
        } else if self.store().cells().len() < DICT_SAMPLE_SIZE {
            self.store().cells().len() as int
        } else {
            DICT_SAMPLE_SIZE as int
        }
    }

    /// Whether there is anything to optimize.
    pub fn is_optimizable(&self) -> (result: bool)
        ensures
            result == (self.sample_size() > 0),
    {
        self.storage().compression() == Compression::LZ4 && self.storage().max_point_offset() > 0
    }

    /// Draws the points to train a dictionary on. Where there is nothing to optimize, the generator
    /// is not drawn from.
    pub fn draw_sample(&self, rng: &mut rand::rngs::StdRng) -> (offsets: Vec<usize>)
        ensures
            is_sample(offsets@, self.store().cells().len() as int, self.sample_size()),
            offsets@.len() > 0 ==> self.store().cells().len() <= PointOffset::MAX,
            self.sample_size() == 0 ==> *final(rng) == *old(rng),
    {
        if !self.is_optimizable() {
            return Vec::new();
        }
        let max_offset = self.storage().max_point_offset() as usize;
        let sample_count: usize = if DICT_SAMPLE_SIZE < max_offset {
            DICT_SAMPLE_SIZE
        } else {
            max_offset
        };
        sample_indices(rng, max_offset, sample_count)
    }

    /// Trains a dictionary on the payloads of some points.
    pub fn train_dictionary(&self, offsets: &[usize]) -> (dictionary: Vec<u8>)
        requires
            forall|i: int| 0 <= i < offsets@.len() ==> (#[trigger] offsets@[i]) <= u32::MAX,
            forall|i: int|
                0 <= i < offsets@.len() ==> self.store().readable((#[trigger] offsets@[i]) as int),
        ensures
            dictionary@ == dictionary_of(self.store(), offsets@),
            schema_of(self.store(), offsets@) matches Json::Object(object)
                ==> crate::text::reads_back(object),
    {
        let mut hw_counter = HardwareCounterCell::new();
        let mut schema = JsonValue::Object(JsonObject::new());
        let mut i: usize = 0;
        assert(offsets@.take(0) =~= Seq::empty());
        while i < offsets.len()
            invariant
                i <= offsets@.len(),
                forall|j: int| 0 <= j < offsets@.len() ==> (#[trigger] offsets@[j]) <= u32::MAX,
                forall|j: int|
                    0 <= j < offsets@.len() ==> self.store().readable(
                        (#[trigger] offsets@[j]) as int,
                    ),
                schema@ == schema_of(self.store(), offsets@.take(i as int)),
            decreases offsets@.len() - i,
        {
            assert(offsets@.take(i + 1).drop_last() =~= offsets@.take(i as int));
            match self.storage().get_value::<false>(offsets[i] as u32, &mut hw_counter) {
                Ok(Some(payload)) => {
                    crate::schema::merge_into_schema(&mut schema, &JsonValue::Object(payload.0));
                },
                _ => {},
            }
            i += 1;
        }
        assert(offsets@.take(i as int) =~= offsets@);
        crate::text::write_tree(&schema)
    }

    /// Rewrites every payload, in the order of the points, into another store.
    pub fn rewrite_into(&self, storage: Gridstore<Payload>) -> (result: Result<
        Gridstore<Payload>,
        OperationError,
    >)
        requires
            rewritable(self.store().cells(), 0, storage),
        ensures
            rewritten(self.store().cells(), 0, storage, result),
    {
        proof {
            lemma_rewritable(self.store().cells(), 0, storage);
        }
        self.checked_rewrite_into(storage).unwrap()
    }
}

/// Where the payloads can be rewritten, no bytes of no payload are reached.
proof fn lemma_rewritable(cells: Seq<Cell>, from: int, store: Gridstore<Payload>)
    requires
        rewritable(cells, from, store),
    ensures
        !crate::checked::meets_no_payload(cells, from, store),
    decreases cells.len() - from,
{
    if from < cells.len() {
        match cells[from] {
            Err(_) => {},
            Ok(None) => {
                lemma_rewritable(cells, from + 1, store);
            },
            Ok(Some(record)) => {
                assert forall|payload: Payload, after: Gridstore<Payload>|
                    {
                        &&& Payload::is_decoded(record.bytes, payload)
                        &&& #[trigger] store.is_put(after, from as PointOffset, payload, Ok(()))
                    } implies !crate::checked::meets_no_payload(cells, from + 1, after) by {
                    lemma_rewritable(cells, from + 1, after);
                }
            },
        }
    }
}

/// What rewriting the payloads of the points from `from` on into a store returns: the store with
/// each of them stored, or the first failure to read or to store one.
pub open spec fn rewritten(
    cells: Seq<Cell>,
    from: int,
    store: Gridstore<Payload>,
    result: Result<Gridstore<Payload>, OperationError>,
) -> bool
    decreases cells.len() - from,
{
    if from >= cells.len() {
        result == Ok::<Gridstore<Payload>, OperationError>(store)
    } else {
        match cells[from] {
            Err(error) => result == Err::<Gridstore<Payload>, OperationError>(
                OperationError::Gridstore(error),
            ),
            Ok(None) => rewritten(cells, from + 1, store, result),
            Ok(Some(record)) => exists|
                payload: Payload,
                after: Gridstore<Payload>,
                outcome: Result<(), GridstoreError>,
            |
                {
                    &&& Payload::is_decoded(record.bytes, payload)
                    &&& payload.reads_back()
                    &&& #[trigger] store.is_put(after, from as PointOffset, payload, outcome)
                    &&& match outcome {
                        Ok(_) => rewritten(cells, from + 1, after, result),
                        Err(error) => result == Err::<Gridstore<Payload>, OperationError>(
                            OperationError::Gridstore(error),
                        ),
                    }
                },
        }
    }
}

/// What a point had in the one store, it has in the other: no payload, or one that can be read,
/// and the same one if no number in it is kept as a floating-point number.
pub open spec fn keeps_payload(cell: Cell, kept: Cell) -> bool {
    match cell {
        Err(_) => false,
        Ok(None) => kept == Ok::<Option<crate::layout::Record>, GridstoreError>(None),
        Ok(Some(record)) => {
            let object = crate::text::parsed(record.bytes)->0;
            kept matches Ok(Some(copy)) && {
                &&& copy.bytes == crate::text::text_of(Json::Object(object))
                &&& crate::text::parsed(copy.bytes) is Some
                &&& Json::Object(object).float_free() ==> crate::text::parsed(copy.bytes) == Some(
                    object,
                )
            }
        },
    }
}

/// The payloads of the points from `from` on are in the store that they were rewritten into.
proof fn lemma_rewritten(
    cells: Seq<Cell>,
    from: int,
    store: Gridstore<Payload>,
    rewritten_store: Gridstore<Payload>,
)
    requires
        0 <= from <= cells.len() <= PointOffset::MAX,
        store.cells().len() <= from,
        rewritten(cells, from, store, Ok(rewritten_store)),
        forall|i: int| 0 <= i < from ==> #[trigger] keeps_payload(cells[i], store.cell(i)),
    ensures
        rewritten_store.configured() == store.configured(),
        rewritten_store.trained() == store.trained(),
        rewritten_store.cells().len() <= cells.len(),
        forall|i: int|
            0 <= i < cells.len() ==> #[trigger] keeps_payload(cells[i], rewritten_store.cell(i)),
    decreases cells.len() - from,
{
    if from < cells.len() {
        match cells[from] {
            Err(_) => {},
            Ok(None) => {
                assert(keeps_payload(cells[from], store.cell(from)));
                lemma_rewritten(cells, from + 1, store, rewritten_store);
            },
            Ok(Some(record)) => {
                let result = Ok::<Gridstore<Payload>, OperationError>(rewritten_store);
                let (payload, after, outcome) = choose|
                    payload: Payload,
                    after: Gridstore<Payload>,
                    outcome: Result<(), GridstoreError>,
                |
                    {
                        &&& Payload::is_decoded(record.bytes, payload)
                        &&& payload.reads_back()
                        &&& #[trigger] store.is_put(after, from as PointOffset, payload, outcome)
                        &&& match outcome {
                            Ok(_) => rewritten(cells, from + 1, after, result),
                            Err(error) => result == Err::<Gridstore<Payload>, OperationError>(
                                OperationError::Gridstore(error),
                            ),
                        }
                    };
                assert forall|i: int| 0 <= i < from + 1 implies #[trigger] keeps_payload(
                    cells[i],
                    after.cell(i),
                ) by {
                    if i < from {
                        assert(keeps_payload(cells[i], store.cell(i)));
                        assert(after.cell(i) == store.cell(i));
                    }
                }
                lemma_rewritten(cells, from + 1, after, rewritten_store);
            },
        }
    }
}

/// Rewriting into an empty store keeps the payload of every point: each can be read from the new
/// store, and is the same there if no number in it is kept as a floating-point number. A point
/// without a payload has none there.
pub proof fn law_rewrite_keeps_payloads(
    cells: Seq<Cell>,
    empty: Gridstore<Payload>,
    rewritten_store: Gridstore<Payload>,
)
    requires
        cells.len() <= PointOffset::MAX,
        empty.cells().len() == 0,
        rewritten(cells, 0, empty, Ok(rewritten_store)),
    ensures
        rewritten_store.configured() == empty.configured(),
        rewritten_store.trained() == empty.trained(),
        rewritten_store.cells().len() <= cells.len(),
        forall|i: int|
            0 <= i < cells.len() ==> #[trigger] keeps_payload(cells[i], rewritten_store.cell(i)),
{
    lemma_rewritten(cells, 0, empty, rewritten_store);
}

/// What is to be done next to optimize a storage.
#[derive(Debug)]
pub enum OptimizeStep {
    /// Nothing more.
    Done,
    /// Nothing more, the optimization failed.
    Failed(OperationError),
    /// Make a temporary directory beside the one of the storage.
    CreateDirectory { dictionary: Vec<u8> },
    /// Write the dictionary into the temporary directory.
    WriteDictionary { dictionary: Vec<u8> },
    /// Create a store in the temporary directory.
    CreateStorage { dictionary: Vec<u8> },
    /// Write the new store to the temporary directory.
    Flush { storage: Gridstore<Payload> },
    /// Look for a directory that an earlier optimization moved aside.
    FindStale { storage: Gridstore<Payload> },
    /// Remove that directory.
    RemoveStale { storage: Gridstore<Payload> },
    /// Move the directory of the storage aside.
    MoveAside,
    /// Move the temporary directory to where that of the storage was.
    MoveIn,
    /// Remove the directory that was moved aside.
    RemoveOld,
    /// Open the store in the directory of the storage.
    Reopen,
    /// Populate the pages of the store.
    Populate,
}

impl OptimizeStep {
    /// The step is the one that the outcome can come of.
    pub open spec fn awaits(self, outcome: Outcome) -> bool {
        match self {
            OptimizeStep::Done | OptimizeStep::Failed(_) => false,
            OptimizeStep::CreateDirectory { .. }
            | OptimizeStep::RemoveStale { .. }
            | OptimizeStep::MoveAside
            | OptimizeStep::MoveIn
            | OptimizeStep::RemoveOld => outcome is File,
            OptimizeStep::WriteDictionary { .. }
            | OptimizeStep::CreateStorage { .. }
            | OptimizeStep::Flush { .. }
            | OptimizeStep::Populate => outcome is Store,
            OptimizeStep::FindStale { .. } => outcome is Found,
            OptimizeStep::Reopen => outcome is Opened,
        }
    }

    /// How far the optimization has come.
    pub open spec fn progress(self) -> nat {
        match self {
            OptimizeStep::CreateDirectory { .. } => 0,
            OptimizeStep::WriteDictionary { .. } => 1,
            OptimizeStep::CreateStorage { .. } => 2,
            OptimizeStep::Flush { .. } => 3,
            OptimizeStep::FindStale { .. } => 4,
            OptimizeStep::RemoveStale { .. } => 5,
            OptimizeStep::MoveAside => 6,
            OptimizeStep::MoveIn => 7,
            OptimizeStep::RemoveOld => 8,
            OptimizeStep::Reopen => 9,
            OptimizeStep::Populate => 10,
            OptimizeStep::Done | OptimizeStep::Failed(_) => 11,
        }
    }
}

/// The optimization failed on a file operation.
pub open spec fn failed_on_file(text: String, next: OptimizeStep) -> bool {
    next == OptimizeStep::Failed(OperationError::Io(text))
}

/// The optimization failed on an operation of the store, which is handed on.
pub open spec fn failed_on_store(error: GridstoreError, next: OptimizeStep) -> bool {
    next == OptimizeStep::Failed(OperationError::Gridstore(error))
}

/// The optimization failed, and what was being done is described.
pub open spec fn failed_at(doing: Seq<char>, error: GridstoreError, next: OptimizeStep) -> bool {
    next matches OptimizeStep::Failed(OperationError::ServiceError { description }) && description@
        == doing + error.message()
}

/// What a new store for optimized payloads is made with.
pub open spec fn optimized_options() -> StorageOptions {
    StorageOptions {
        page_size_bytes: None,
        block_size_bytes: None,
        compression: Some(Compression::LZ4Dict),
    }
}

/// The store is a new one for payloads that are compressed with a dictionary.
pub open spec fn is_new_store(store: Gridstore<Payload>, dictionary: Seq<u8>) -> bool {
    &&& store.configured() == optimized_options().resolved()
    &&& store.trained() == Some(dictionary)
    &&& store.cells().len() == 0
    &&& store.used() == 0
    &&& store.page_bytes() == 0
}

impl MmapPayloadStorage {
    /// The step is the first of an optimization with a sample: nothing is to be done without one,
    /// otherwise a dictionary was trained on it.
    pub open spec fn is_started(self, offsets: Seq<usize>, step: OptimizeStep) -> bool {
        if offsets.len() == 0 {
            step == OptimizeStep::Done
        } else {
            step matches OptimizeStep::CreateDirectory { dictionary } && dictionary@
                == dictionary_of(self.store(), offsets)
        }
    }

    /// The first step of an optimization, with the points that were drawn to train a dictionary on.
    pub fn start_optimize(&self, offsets: &[usize]) -> (step: OptimizeStep)
        requires
            is_sample(offsets@, self.store().cells().len() as int, self.sample_size()),
            offsets@.len() > 0 ==> self.store().cells().len() <= PointOffset::MAX,
            forall|i: int|
                0 <= i < offsets@.len() ==> self.store().readable((#[trigger] offsets@[i]) as int),
        ensures
            self.is_started(offsets@, step),
    {
        if offsets.len() == 0 {
            return OptimizeStep::Done;
        }
        let dictionary = self.train_dictionary(offsets);
        OptimizeStep::CreateDirectory { dictionary }
    }

    /// The storage and the next step after the outcome of a step. Every failure ends the
    /// optimization. The new store takes the place of the old one once it was written to disk and
    /// no directory is in the way of moving the old one aside; the store that is opened in the end
    /// takes its place in turn.
    pub open spec fn is_stepped(
        self,
        step: OptimizeStep,
        outcome: Outcome,
        after: Self,
        next: OptimizeStep,
    ) -> bool {
        match (step, outcome) {
            (OptimizeStep::CreateDirectory { dictionary }, Outcome::File(done)) => {
                &&& after.store() == self.store()
                &&& match done {
                    Ok(_) => next == OptimizeStep::WriteDictionary { dictionary },
                    Err(text) => failed_on_file(text, next),
                }
            },
            (OptimizeStep::WriteDictionary { dictionary }, Outcome::Store(done)) => {
                &&& after.store() == self.store()
                &&& match done {
                    Ok(_) => next == OptimizeStep::CreateStorage { dictionary },
                    Err(error) => failed_on_store(error, next),
                }
            },
            (OptimizeStep::CreateStorage { dictionary }, Outcome::Store(done)) => {
                &&& after.store() == self.store()
                &&& match done {
                    Ok(_) => exists|empty: Gridstore<Payload>| #[trigger]
                        is_new_store(empty, dictionary@) && is_rewrite_step(
                            self.store().cells(),
                            empty,
                            next,
                        ),
                    Err(error) => failed_on_store(error, next),
                }
            },
            (OptimizeStep::Flush { storage }, Outcome::Store(done)) => {
                &&& after.store() == self.store()
                &&& match done {
                    Ok(_) => next == OptimizeStep::FindStale { storage },
                    Err(error) => failed_at("Failed to flush new storage: "@, error, next),
                }
            },
            (OptimizeStep::FindStale { storage }, Outcome::Found(found)) => if found {
                &&& after.store() == self.store()
                &&& next == OptimizeStep::RemoveStale { storage }
            } else {
                &&& after.store() == storage
                &&& next == OptimizeStep::MoveAside
            },
            (OptimizeStep::RemoveStale { storage }, Outcome::File(done)) => match done {
                Ok(_) => {
                    &&& after.store() == storage
                    &&& next == OptimizeStep::MoveAside
                },
                Err(text) => {
                    &&& after.store() == self.store()
                    &&& failed_on_file(text, next)
                },
            },
            (OptimizeStep::MoveAside, Outcome::File(done)) => {
                &&& after.store() == self.store()
                &&& match done {
                    Ok(_) => next == OptimizeStep::MoveIn,
                    Err(text) => failed_on_file(text, next),
                }
            },
            (OptimizeStep::MoveIn, Outcome::File(done)) => {
                &&& after.store() == self.store()
                &&& match done {
                    Ok(_) => next == OptimizeStep::RemoveOld,
                    Err(text) => failed_on_file(text, next),
                }
            },
            (OptimizeStep::RemoveOld, Outcome::File(done)) => {
                &&& after.store() == self.store()
                &&& match done {
                    Ok(_) => next == OptimizeStep::Reopen,
                    Err(text) => failed_on_file(text, next),
                }
            },
            (OptimizeStep::Reopen, Outcome::Opened(opened)) => match opened {
                Ok(storage) => {
                    &&& after.store() == storage
                    &&& next == if self.populated() {
                        OptimizeStep::Populate
                    } else {
                        OptimizeStep::Done
                    }
                },
                Err(error) => {
                    &&& after.store() == self.store()
                    &&& failed_at(
                        "Failed to reopen optimized payload storage: "@,
                        error,
                        next,
                    )
                },
            },
            (OptimizeStep::Populate, Outcome::Store(done)) => {
                &&& after.store() == self.store()
                &&& match done {
                    Ok(_) => next == OptimizeStep::Done,
                    Err(error) => failed_on_store(error, next),
                }
            },
            _ => false,
        }
    }

    /// The payloads can be rewritten into a new store with a dictionary.
    pub open spec fn is_rewritable_with(self, dictionary: Seq<u8>) -> bool {
        forall|empty: Gridstore<Payload>| #[trigger]
            is_new_store(empty, dictionary) ==> rewritable(self.store().cells(), 0, empty)
    }

    /// Optimizes the storage: takes the outcome of a step and gives the next one.
    pub fn optimize(&mut self, step: OptimizeStep, outcome: Outcome) -> (next: OptimizeStep)
        requires
            step.awaits(outcome),
            step matches OptimizeStep::CreateStorage { dictionary } ==> (
            outcome matches Outcome::Store(Ok(_)) ==> old(self).is_rewritable_with(dictionary@)),
        ensures
            old(self).is_stepped(step, outcome, *final(self), next),
            final(self).populated() == old(self).populated(),
            next.progress() > step.progress(),
    {
        match (step, outcome) {
            (OptimizeStep::CreateDirectory { dictionary }, Outcome::File(done)) => match done {
                Ok(_) => OptimizeStep::WriteDictionary { dictionary },
                Err(text) => OptimizeStep::Failed(OperationError::Io(text)),
            },
            (OptimizeStep::WriteDictionary { dictionary }, Outcome::Store(done)) => match done {
                Ok(_) => OptimizeStep::CreateStorage { dictionary },
                Err(error) => OptimizeStep::Failed(OperationError::from(error)),
            },
            (OptimizeStep::CreateStorage { dictionary }, Outcome::Store(done)) => match done {
                Ok(_) => self.rewrite(dictionary),
                Err(error) => OptimizeStep::Failed(OperationError::from(error)),
            },
            (OptimizeStep::Flush { storage }, Outcome::Store(done)) => match done {
                Ok(_) => OptimizeStep::FindStale { storage },
                Err(error) => OptimizeStep::Failed(
                    OperationError::failed("Failed to flush new storage: ", &error),
                ),
            },
            (OptimizeStep::FindStale { storage }, Outcome::Found(found)) => if found {
                OptimizeStep::RemoveStale { storage }
            } else {
                self.replace_store(storage);
                OptimizeStep::MoveAside
            },
            (OptimizeStep::RemoveStale { storage }, Outcome::File(done)) => match done {
                Ok(_) => {
                    self.replace_store(storage);
                    OptimizeStep::MoveAside
                },
                Err(text) => OptimizeStep::Failed(OperationError::Io(text)),
            },
            (OptimizeStep::MoveAside, Outcome::File(done)) => match done {
                Ok(_) => OptimizeStep::MoveIn,
                Err(text) => OptimizeStep::Failed(OperationError::Io(text)),
            },
            (OptimizeStep::MoveIn, Outcome::File(done)) => match done {
                Ok(_) => OptimizeStep::RemoveOld,
                Err(text) => OptimizeStep::Failed(OperationError::Io(text)),
            },
            (OptimizeStep::RemoveOld, Outcome::File(done)) => match done {
                Ok(_) => OptimizeStep::Reopen,
                Err(text) => OptimizeStep::Failed(OperationError::Io(text)),
            },
            (OptimizeStep::Reopen, Outcome::Opened(opened)) => match opened {
                Ok(storage) => {
                    self.replace_store(storage);
                    if self.is_on_disk() {
                        OptimizeStep::Done
                    } else {
                        OptimizeStep::Populate
                    }
                },
                Err(error) => OptimizeStep::Failed(
                    OperationError::failed("Failed to reopen optimized payload storage: ", &error),
                ),
            },
            (OptimizeStep::Populate, Outcome::Store(done)) => match done {
                Ok(_) => OptimizeStep::Done,
                Err(error) => OptimizeStep::Failed(OperationError::from(error)),
            },
            _ => {
                assert(false);
                OptimizeStep::Done
            },
        }
    }

    /// Rewrites every payload into a new store with a dictionary.
    fn rewrite(&self, dictionary: Vec<u8>) -> (next: OptimizeStep)
        requires
            self.is_rewritable_with(dictionary@),
        ensures
            exists|empty: Gridstore<Payload>| #[trigger]
                is_new_store(empty, dictionary@) && is_rewrite_step(
                    self.store().cells(),
                    empty,
                    next,
                ),
    {
        let storage = new_store(dictionary);
        match self.rewrite_into(storage) {
            Ok(storage) => OptimizeStep::Flush { storage },
            Err(error) => OptimizeStep::Failed(error),
        }
    }
}

/// The step after the payloads were rewritten into a new store, or could not be.
pub open spec fn is_rewrite_step(
    cells: Seq<Cell>,
    empty: Gridstore<Payload>,
    next: OptimizeStep,
) -> bool {
    match next {
        OptimizeStep::Flush { storage } => rewritten(cells, 0, empty, Ok(storage)),
        OptimizeStep::Failed(error) => rewritten(cells, 0, empty, Err(error)),
        _ => false,
    }
}

/// What the new store is asked to be made with: the defaults, and compression with a dictionary.
pub fn new_options() -> (options: StorageOptions)
    ensures
        options.page_size_bytes is None,
        options.block_size_bytes is None,
        options.compression == Some(Compression::LZ4Dict),
{
    StorageOptions {
        page_size_bytes: None,
        block_size_bytes: None,
        compression: Some(Compression::LZ4Dict),
    }
}

/// A new store for payloads that are compressed with a dictionary.
pub(crate) fn new_store(dictionary: Vec<u8>) -> (store: Gridstore<Payload>)
    ensures
        is_new_store(store, dictionary@),
{
    let options = new_options();
    let result = Gridstore::new(options, Some(dictionary));
    assert(result is Ok);
    result.unwrap()
}

/// Until the new store takes its place, no outcome of a step changes the store.
pub proof fn law_failure_keeps_store(
    before: MmapPayloadStorage,
    step: OptimizeStep,
    outcome: Outcome,
    after: MmapPayloadStorage,
    next: OptimizeStep,
)
    requires
        before.is_stepped(step, outcome, after, next),
        next is Failed || next.progress() < OptimizeStep::MoveAside.progress(),
    ensures
        after.store() == before.store(),
{
}

/// The store that is written to disk holds the payload of every point, compressed with the
/// dictionary.
pub proof fn law_flushed_store_keeps_payloads(
    before: MmapPayloadStorage,
    dictionary: Vec<u8>,
    outcome: Outcome,
    after: MmapPayloadStorage,
    storage: Gridstore<Payload>,
)
    requires
        before.store().cells().len() <= PointOffset::MAX,
        before.is_stepped(
            OptimizeStep::CreateStorage { dictionary },
            outcome,
            after,
            OptimizeStep::Flush { storage },
        ),
    ensures
        storage.configured().compression == Compression::LZ4Dict,
        storage.trained() == Some(dictionary@),
        storage.cells().len() <= before.store().cells().len(),
        forall|i: int|
            0 <= i < before.store().cells().len() ==> #[trigger] keeps_payload(
                before.store().cells()[i],
                storage.cell(i),
            ),
{
    let empty = choose|empty: Gridstore<Payload>| #[trigger]
        is_new_store(empty, dictionary@) && rewritten(
            before.store().cells(),
            0,
            empty,
            Ok(storage),
        );
    law_rewrite_keeps_payloads(before.store().cells(), empty, storage);
}

/// The store holds the payload of every point of another one and of no other point, compressed
/// with a dictionary.
pub open spec fn is_optimized(
    store: Gridstore<Payload>,
    original: Gridstore<Payload>,
    dictionary: Seq<u8>,
) -> bool {
    &&& store.configured().compression == Compression::LZ4Dict
    &&& store.trained() == Some(dictionary)
    &&& store.cells().len() <= original.cells().len()
    &&& forall|i: int|
        0 <= i < original.cells().len() ==> #[trigger] keeps_payload(
            original.cells()[i],
            store.cell(i),
        )
}

/// Where a store was opened, it is the one that was written.
pub open spec fn reopens(written: Gridstore<Payload>, outcome: Outcome) -> bool {
    outcome matches Outcome::Opened(Ok(opened)) ==> {
        &&& opened.configured() == written.configured()
        &&& opened.trained() == written.trained()
        &&& opened.cells() == written.cells()
    }
}

/// A run of the optimization: the storages and the steps, one after the other.
pub open spec fn is_run(
    storages: Seq<MmapPayloadStorage>,
    steps: Seq<OptimizeStep>,
    outcomes: Seq<Outcome>,
) -> bool {
    &&& storages.len() == outcomes.len() + 1
    &&& steps.len() == outcomes.len() + 1
    &&& forall|i: int|
        0 <= i < outcomes.len() ==> {
            &&& #[trigger] storages[i].is_stepped(
                steps[i],
                outcomes[i],
                storages[i + 1],
                steps[i + 1],
            )
            &&& storages[i + 1].populated() == storages[i].populated()
            &&& reopens(storages[i].store(), outcomes[i])
        }
}

/// What holds of the storage and the step while the optimization runs.
spec fn on_the_way(
    original: Gridstore<Payload>,
    trained: Seq<u8>,
    storage: MmapPayloadStorage,
    step: OptimizeStep,
) -> bool {
    match step {
        OptimizeStep::CreateDirectory { dictionary }
        | OptimizeStep::WriteDictionary { dictionary }
        | OptimizeStep::CreateStorage { dictionary } => {
            &&& storage.store() == original
            &&& dictionary@ == trained
        },
        OptimizeStep::Flush { storage: new }
        | OptimizeStep::FindStale { storage: new }
        | OptimizeStep::RemoveStale { storage: new } => {
            &&& storage.store() == original
            &&& is_optimized(new, original, trained)
        },
        OptimizeStep::Failed(_) => true,
        _ => is_optimized(storage.store(), original, trained),
    }
}

/// Each step keeps to what holds while the optimization runs.
proof fn lemma_on_the_way(
    original: Gridstore<Payload>,
    trained: Seq<u8>,
    before: MmapPayloadStorage,
    step: OptimizeStep,
    outcome: Outcome,
    after: MmapPayloadStorage,
    next: OptimizeStep,
)
    requires
        original.cells().len() <= PointOffset::MAX,
        on_the_way(original, trained, before, step),
        before.is_stepped(step, outcome, after, next),
        reopens(before.store(), outcome),
    ensures
        on_the_way(original, trained, after, next),
{
    match step {
        OptimizeStep::CreateStorage { dictionary } => {
            if let OptimizeStep::Flush { storage } = next {
                law_flushed_store_keeps_payloads(before, dictionary, outcome, after, storage);
            }
        },
        OptimizeStep::Reopen => {
            if let Outcome::Opened(Ok(opened)) = outcome {
                assert forall|i: int| 0 <= i < original.cells().len() implies #[trigger]
                keeps_payload(original.cells()[i], opened.cell(i)) by {
                    assert(keeps_payload(original.cells()[i], before.store().cell(i)));
                }
            }
        },
        _ => {},
    }
}

/// An optimization that runs from its first step to its end leaves a storage that is compressed
/// with the trained dictionary and keeps the payload of every point, where the store that was
/// opened in the end is the one that was written. Each payload can be read, and is the same if no
/// number in it is kept as a floating-point number; no point is added. Whether the storage is
/// populated stays as it was.
pub proof fn law_optimize_keeps_payloads(
    storages: Seq<MmapPayloadStorage>,
    steps: Seq<OptimizeStep>,
    outcomes: Seq<Outcome>,
    dictionary: Vec<u8>,
)
    requires
        is_run(storages, steps, outcomes),
        steps[0] == (OptimizeStep::CreateDirectory { dictionary }),
        steps.last() is Done,
        storages[0].store().cells().len() <= PointOffset::MAX,
    ensures
        is_optimized(storages.last().store(), storages[0].store(), dictionary@),
        storages.last().populated() == storages[0].populated(),
        storages.last().sample_size() == 0,
{
    lemma_run(storages, steps, outcomes, dictionary, outcomes.len() as int);
}

/// What holds while the optimization runs holds after each of its steps.
proof fn lemma_run(
    storages: Seq<MmapPayloadStorage>,
    steps: Seq<OptimizeStep>,
    outcomes: Seq<Outcome>,
    dictionary: Vec<u8>,
    n: int,
)
    requires
        is_run(storages, steps, outcomes),
        steps[0] == (OptimizeStep::CreateDirectory { dictionary }),
        storages[0].store().cells().len() <= PointOffset::MAX,
        0 <= n <= outcomes.len(),
    ensures
        on_the_way(storages[0].store(), dictionary@, storages[n], steps[n]),
        storages[n].populated() == storages[0].populated(),
    decreases n,
{
    if n > 0 {
        lemma_run(storages, steps, outcomes, dictionary, n - 1);
        assert(storages[n - 1].is_stepped(
            steps[n - 1],
            outcomes[n - 1],
            storages[n - 1 + 1],
            steps[n - 1 + 1],
        ));
        lemma_on_the_way(
            storages[0].store(),
            dictionary@,
            storages[n - 1],
            steps[n - 1],
            outcomes[n - 1],
            storages[n],
            steps[n],
        );
    }
}

/// An optimization from its start, with the points that were drawn.
pub open spec fn is_optimization(
    offsets: Seq<usize>,
    storages: Seq<MmapPayloadStorage>,
    steps: Seq<OptimizeStep>,
    outcomes: Seq<Outcome>,
) -> bool {
    &&& is_run(storages, steps, outcomes)
    &&& is_sample(
        offsets,
        storages[0].store().cells().len() as int,
        storages[0].sample_size(),
    )
    &&& storages[0].is_started(offsets, steps[0])
}

/// A storage that was optimized is not optimized again: the second optimization draws no points, is
/// done at once, and leaves the storage as it is.
pub proof fn law_optimized_storage_stays(
    offsets: (Seq<usize>, Seq<usize>),
    storages: (Seq<MmapPayloadStorage>, Seq<MmapPayloadStorage>),
    steps: (Seq<OptimizeStep>, Seq<OptimizeStep>),
    outcomes: (Seq<Outcome>, Seq<Outcome>),
)
    requires
        is_optimization(offsets.0, storages.0, steps.0, outcomes.0),
        steps.0.last() is Done,
        storages.0[0].store().cells().len() <= PointOffset::MAX,
        is_optimization(offsets.1, storages.1, steps.1, outcomes.1),
        storages.1[0] == storages.0.last(),
    ensures
        storages.1[0].sample_size() == 0,
        offsets.1.len() == 0,
        steps.1 == seq![OptimizeStep::Done],
        outcomes.1.len() == 0,
        storages.1.last() == storages.0.last(),
{
    if offsets.0.len() == 0 {
        lemma_done_stays(storages.0, steps.0, outcomes.0);
    } else {
        law_optimize_keeps_payloads(
            storages.0,
            steps.0,
            outcomes.0,
            steps.0[0]->CreateDirectory_dictionary,
        );
    }
    lemma_done_stays(storages.1, steps.1, outcomes.1);
    assert(steps.1 =~= seq![OptimizeStep::Done]);
}

/// Nothing follows where nothing is to be done.
proof fn lemma_done_stays(
    storages: Seq<MmapPayloadStorage>,
    steps: Seq<OptimizeStep>,
    outcomes: Seq<Outcome>,
)
    requires
        is_run(storages, steps, outcomes),
        steps[0] is Done,
    ensures
        outcomes.len() == 0,
{
    if outcomes.len() > 0 {
        let first: int = 0;
        assert(storages[first].is_stepped(
            steps[first],
            outcomes[first],
            storages[first + 1],
            steps[first + 1],
        ));
    }
}

}
