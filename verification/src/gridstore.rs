//! A store of values under the numbers of points.
//!
//! Each value is turned into bytes, compressed to a record, and written behind the last record, at
//! the start of a block. The tracker says which record belongs to which point.

use crate::blob::Blob;
use crate::callback::Callback;
use crate::config::{Compression, StorageConfig, StorageOptions};
use crate::counter::HardwareCounterCell;
use crate::error::GridstoreError;
use crate::layout::{Cell, Record};
use crate::pages::Pages;
use crate::tracker::{PointOffset, Tracker, ValuePointer};
use crate::view::GridstoreView;
use std::marker::PhantomData;
use std::ops::ControlFlow;
use vstd::prelude::*;

verus! {

/// A store of values under the numbers of points.
#[derive(Debug)]
pub struct Gridstore<V> {
    config: StorageConfig,
    tracker: Tracker,
    pages: Pages,
    /// The address behind the last record, at the start of a block.
    next: u64,
    dictionary: Option<Vec<u8>>,
    value_type: PhantomData<V>,
}

impl<V> Gridstore<V> {
    #[verifier::type_invariant]
    closed spec fn wf(self) -> bool {
        &&& crate::layout::intact(self.config, self.tracker, self.pages, self.trained())
        &&& crate::layout::records_intact(
            self.config,
            self.tracker,
            self.pages,
            self.trained(),
            self.next as int,
        )
        &&& self.next % (self.config.block_size_bytes as u64) == 0
        &&& self.next <= self.pages.pages@.len() * self.config.page_size_bytes
    }

    /// What the store was made with.
    pub closed spec fn configured(self) -> StorageConfig {
        self.config
    }

    /// The dictionary of the store.
    pub closed spec fn trained(self) -> Option<Seq<u8>> {
        crate::layout::owned_dictionary(self.dictionary)
    }

    /// What is stored for each point.
    pub closed spec fn cells(self) -> Seq<Cell> {
        crate::layout::cells_of(self.config, self.tracker, self.pages, self.trained())
    }

    /// What is stored for a point.
    pub open spec fn cell(self, offset: int) -> Cell {
        if 0 <= offset < self.cells().len() {
            self.cells()[offset]
        } else {
            Ok(None)
        }
    }

    /// The number of bytes up to the end of the last record.
    pub closed spec fn used(self) -> int {
        self.next as int
    }

    /// The number of bytes that the pages hold.
    pub closed spec fn page_bytes(self) -> int {
        self.pages.pages@.len() * self.config.page_size_bytes
    }

    /// A record of so many bytes finds room behind the last one.
    pub open spec fn has_room(self, record_len: int) -> bool {
        self.used() + record_len <= crate::layout::capacity(self.configured())
    }

    /// The other store was made with the same configuration and dictionary and holds the same.
    pub open spec fn same(self, other: Self) -> bool {
        &&& other.configured() == self.configured()
        &&& other.trained() == self.trained()
        &&& other.cells() == self.cells()
        &&& other.used() == self.used()
        &&& other.page_bytes() == self.page_bytes()
    }

    /// Whether a value of so many bytes, with a record of so many, can be stored for a point, or
    /// why not.
    pub open spec fn put_outcome(self, offset: PointOffset, len: int, record_len: int) -> Result<
        (),
        GridstoreError,
    > {
        if !crate::layout::storable(self.configured().compression, len) || record_len > u32::MAX {
            Err(GridstoreError::ValueTooLarge)
        } else if offset == PointOffset::MAX || !self.has_room(record_len) {
            Err(GridstoreError::OutOfSpace)
        } else {
            Ok(())
        }
    }

    /// An empty store.
    pub fn new(options: StorageOptions, dictionary: Option<Vec<u8>>) -> (result: Result<
        Self,
        GridstoreError,
    >)
        ensures
            match result {
                Ok(store) => {
                    &&& options.resolved().valid()
                    &&& store.configured() == options.resolved()
                    &&& store.trained() == crate::layout::owned_dictionary(dictionary)
                    &&& store.cells() == Seq::<Cell>::empty()
                    &&& store.used() == 0
                    &&& store.page_bytes() == 0
                },
                Err(GridstoreError::InvalidConfig) => !options.resolved().valid(),
                Err(error) => {
                    &&& error == GridstoreError::MissingDictionary
                    &&& options.resolved().valid()
                    &&& options.resolved().compression == Compression::LZ4Dict
                    &&& dictionary is None
                },
            },
            options.resolved().compression == Compression::LZ4Dict && dictionary is None
                ==> result is Err,
    {
        let config = match options.into_config() {
            Ok(config) => config,
            Err(error) => {
                return Err(error);
            },
        };
        if config.compression == Compression::LZ4Dict && dictionary.is_none() {
            return Err(GridstoreError::MissingDictionary);
        }
        let tracker = Tracker::new();
        let pages = Pages::new();
        proof {
            assert(0 <= crate::layout::max_pages(config)) by {
                vstd::arithmetic::div_mod::lemma_div_pos_is_pos(
                    usize::MAX as int,
                    config.page_size_bytes as int,
                );
            }
        }
        let store = Gridstore {
            config,
            tracker,
            pages,
            next: 0,
            dictionary,
            value_type: PhantomData,
        };
        assert(store.cells() =~= Seq::<Cell>::empty());
        Ok(store)
    }
}

impl<V: Blob> Gridstore<V> {
    /// The records of the store, to be read from.
    fn view<'a>(&'a self) -> (view: GridstoreView<'a, V>)
        ensures
            *view.config == self.config,
            *view.tracker == self.tracker,
            *view.pages == self.pages,
            crate::view::dictionary_bytes(view.dictionary) == self.trained(),
    {
        let dictionary: Option<&'a [u8]> = match &self.dictionary {
            Some(dictionary) => Some(dictionary.as_slice()),
            None => None,
        };
        GridstoreView::new(&self.config, &self.tracker, &self.pages, dictionary)
    }

    /// Stores a value for a point, in place of what was stored for it.
    pub fn put_value(
        &mut self,
        point_offset: PointOffset,
        value: &V,
        hw_counter: &mut HardwareCounterCell,
    ) -> (result: Result<(), GridstoreError>)
        ensures
            final(hw_counter).payload_io_read == old(hw_counter).payload_io_read,
            value.reads_back(),
            old(self).is_put(*final(self), point_offset, *value, result),
            final(hw_counter).payload_io_write == final(self).counted_put(
                point_offset,
                result,
                old(hw_counter).payload_io_write,
            ),
    {
        proof {
            use_type_invariant(&*self);
        }
        let data = value.to_bytes();
        if !crate::layout::is_storable(self.config.compression, data.len()) {
            return Err(GridstoreError::ValueTooLarge);
        }
        let ghost config = self.config;
        let ghost dictionary = self.trained();
        let ghost tracker_before = self.tracker;
        let ghost pages_before = self.pages;
        let start = self.next;
        let record = self.view().compress(data);
        assert(crate::view::is_record_of(
            config.compression,
            dictionary,
            value.encoding(),
            record@,
        ));
        if record.len() as u64 > u32::MAX as u64 {
            return Err(GridstoreError::ValueTooLarge);
        }
        let len = record.len() as u64;
        let capacity: u64 = crate::layout::capacity_of(&self.config);
        if point_offset == u32::MAX || len > capacity || start > capacity - len {
            return Err(GridstoreError::OutOfSpace);
        }
        proof {
            crate::layout::lemma_room(config, start as int, record@.len() as int);
        }
        let page_size = self.config.page_size_bytes as u64;
        let block_size = self.config.block_size_bytes as u64;
        let mut tracker = Tracker::new();
        std::mem::swap(&mut self.tracker, &mut tracker);
        self.next = 0;
        let mut pages = Pages::new();
        std::mem::swap(&mut self.pages, &mut pages);
        pages.write(start, record.as_slice(), &self.config);
        let pointer = ValuePointer {
            page_id: (start / page_size) as u32,
            block_offset: (start % page_size / block_size) as u32,
            length: record.len() as u32,
        };
        let end: u64 = start + len;
        let next: u64 = if end % block_size == 0 {
            end
        } else {
            end + (block_size - end % block_size)
        };
        tracker.set(point_offset, Ok(Some(pointer)));
        proof {
            crate::layout::lemma_put(
                config,
                dictionary,
                (tracker_before, pages_before),
                (tracker, pages),
                point_offset as int,
                pointer,
                start as int,
                Record { raw: record@, bytes: value.encoding() },
            );
        }
        self.pages = pages;
        self.next = next;
        self.tracker = tracker;
        hw_counter.incr_payload_io_write(record.len());
        Ok(())
    }

    /// Whether a value was stored for a point, or why not, and the store after it. A value that
    /// cannot be made a record is too large; otherwise it depends on one of its records. Where it
    /// was not stored, the store stays as it was. Where it was, the record is written behind the
    /// last one, at the start of a block, and takes the place of what was stored for the point. No
    /// other point changes.
    pub open spec fn is_put(
        self,
        after: Self,
        offset: PointOffset,
        value: V,
        outcome: Result<(), GridstoreError>,
    ) -> bool {
        let bytes = value.encoding();
        if !crate::layout::storable(self.configured().compression, bytes.len() as int) {
            &&& outcome == Err::<(), GridstoreError>(GridstoreError::ValueTooLarge)
            &&& self.same(after)
        } else {
            exists|raw: Seq<u8>|
                {
                    &&& #[trigger] crate::view::is_record_of(
                        self.configured().compression,
                        self.trained(),
                        bytes,
                        raw,
                    )
                    &&& outcome == self.put_outcome(offset, bytes.len() as int, raw.len() as int)
                    &&& if outcome is Err {
                        self.same(after)
                    } else {
                        self.has_put(after, offset, Record { raw, bytes })
                    }
                }
        }
    }

    /// The store after a record was stored for a point.
    pub open spec fn has_put(self, after: Self, offset: PointOffset, record: Record) -> bool {
        &&& after.configured() == self.configured()
        &&& after.trained() == self.trained()
        &&& after.cells() == crate::layout::with_cell(
            self.cells(),
            offset as int,
            Ok(Some(record)),
        )
        &&& after.used() == crate::layout::block_end(
            self.used() + record.raw.len(),
            self.configured().block_size_bytes as int,
        )
        &&& after.page_bytes() == crate::layout::later(
            self.page_bytes(),
            crate::layout::block_end(
                self.used() + record.raw.len(),
                self.configured().page_size_bytes as int,
            ),
        )
    }

    /// The count of bytes written after a value was stored for a point, or was not.
    pub open spec fn counted_put(
        self,
        offset: PointOffset,
        outcome: Result<(), GridstoreError>,
        count: u64,
    ) -> u64 {
        match self.cell(offset as int) {
            Ok(Some(record)) if outcome is Ok => crate::counter::counted(count, record.raw.len()),
            _ => count,
        }
    }

    /// What is stored for a point, if anything is, are the bytes of a value.
    pub open spec fn readable(self, offset: int) -> bool {
        self.cell(offset) matches Ok(Some(record)) ==> V::decodes(record.bytes)
    }

    /// Whether what is stored for a point, if anything is, are the bytes of a value.
    pub fn is_readable(&self, point_offset: PointOffset) -> (result: bool)
        ensures
            result == self.readable(point_offset as int),
    {
        proof {
            use_type_invariant(self);
        }
        let view = self.view();
        match view.get_pointer(point_offset) {
            Ok(Some(pointer)) => {
                assert(self.tracker.slots@[point_offset as int] == Ok::<
                    Option<ValuePointer>,
                    GridstoreError,
                >(Some(pointer)));
                match view.read_from_pages::<false>(pointer) {
                    Ok(raw) => {
                        let data = view.decompress(raw);
                        V::is_encoding(data.as_slice())
                    },
                    Err(_) => {
                        assert(false);
                        false
                    },
                }
            },
            _ => true,
        }
    }

    /// The value that is stored for a point.
    pub fn get_value<const READ_SEQUENTIAL: bool>(
        &self,
        point_offset: PointOffset,
        hw_counter: &mut HardwareCounterCell,
    ) -> (result: Result<Option<V>, GridstoreError>)
        requires
            self.readable(point_offset as int),
        ensures
            is_value_of(
                self.cell(point_offset as int),
                old(hw_counter).payload_io_read,
                result,
                final(hw_counter).payload_io_read,
            ),
            final(hw_counter).payload_io_write == old(hw_counter).payload_io_write,
    {
        proof {
            use_type_invariant(self);
            lemma_cell(*self, point_offset as int);
        }
        self.view().get_value::<READ_SEQUENTIAL>(point_offset, hw_counter)
    }

    /// Takes away what is stored for a point and returns it.
    pub fn delete_value(&mut self, point_offset: PointOffset) -> (result: Result<
        Option<V>,
        GridstoreError,
    >)
        requires
            old(self).readable(point_offset as int),
        ensures
            final(self).configured() == old(self).configured(),
            final(self).trained() == old(self).trained(),
            final(self).used() == old(self).used(),
            final(self).page_bytes() == old(self).page_bytes(),
            match old(self).cell(point_offset as int) {
                Err(error) => {
                    &&& result == Err::<Option<V>, GridstoreError>(error)
                    &&& final(self).cells() == old(self).cells()
                },
                Ok(None) => {
                    &&& result == Ok::<Option<V>, GridstoreError>(None)
                    &&& final(self).cells() == old(self).cells()
                },
                Ok(Some(record)) => {
                    &&& result matches Ok(Some(value)) && V::is_decoded(record.bytes, value)
                    &&& final(self).cells() == old(self).cells().update(
                        point_offset as int,
                        Ok(None),
                    )
                },
            },
    {
        proof {
            use_type_invariant(&*self);
            lemma_cell(*self, point_offset as int);
        }
        let ghost before = *self;
        let mut hw_counter = HardwareCounterCell::new();
        let result = self.get_value::<false>(point_offset, &mut hw_counter);
        match &result {
            Ok(Some(_)) => {
                let mut tracker = Tracker::new();
                std::mem::swap(&mut self.tracker, &mut tracker);
                tracker.set(point_offset, Ok(None));
                proof {
                    assert forall|i: int| 0 <= i < tracker.slots@.len() implies ((
                    #[trigger] tracker.slots@[i]) matches Ok(Some(pointer))
                        ==> crate::layout::record_intact(
                        before.config,
                        before.pages,
                        before.trained(),
                        pointer,
                        before.next as int,
                    )) by {
                        assert(tracker.slot(i) == tracker.slots@[i]);
                        assert(before.tracker.slot(i) == before.tracker.slots@[i]);
                    }
                    assert(crate::layout::cells_of(
                        before.config,
                        tracker,
                        before.pages,
                        before.trained(),
                    ) =~= before.cells().update(point_offset as int, Ok(None))) by {
                        assert forall|i: int| 0 <= i < tracker.slots@.len() implies tracker.slot(i)
                            == #[trigger] tracker.slots@[i] by {}
                    }
                }
                self.tracker = tracker;
            },
            _ => {},
        }
        result
    }
}

impl<V: Blob> Gridstore<V> {
    /// Hands the values of all the points to the callback, in order, until it returns `Ok(false)`.
    ///
    /// This is `scan` with a callback that was not called yet.
    pub fn iter<F, E>(&self, callback: F, hw_counter: &mut HardwareCounterCell) -> (result: Result<
        (),
        E,
    >) where F: FnMut(PointOffset, V) -> Result<bool, E>, E: From<GridstoreError>
        requires
            crate::walk::walkable::<V, F, E>(self.cells(), callback, 0),
        ensures
            crate::walk::is_walk::<V, F, E>(
                self.cells(),
                callback,
                old(hw_counter).payload_io_read,
                result,
                final(hw_counter).payload_io_read,
            ),
            final(hw_counter).payload_io_write == old(hw_counter).payload_io_write,
    {
        let mut visitor = Callback::new(callback);
        self.scan(&mut visitor, hw_counter)
    }

    /// Hands the values of all the points to a callback, in order, until it returns `Ok(false)`:
    /// each in one call, and none after that.
    pub fn scan<F, E>(
        &self,
        visitor: &mut Callback<F, V, E>,
        hw_counter: &mut HardwareCounterCell,
    ) -> (result: Result<(), E>) where
        F: FnMut(PointOffset, V) -> Result<bool, E>,
        E: From<GridstoreError>,

        requires
            crate::walk::walkable::<V, F, E>(self.cells(), old(visitor).inner(), 0),
        ensures
            final(visitor).follows(*old(visitor)),
            crate::callback::answered(
                old(visitor).inner(),
                final(visitor).since(*old(visitor)),
            ),
            crate::walk::walked(
                self.cells(),
                0,
                old(hw_counter).payload_io_read,
                final(visitor).since(*old(visitor)),
                result,
                final(hw_counter).payload_io_read,
            ),
            final(hw_counter).payload_io_write == old(hw_counter).payload_io_write,
    {
        let ghost count = hw_counter.payload_io_read;
        let ghost begin = *visitor;
        proof {
            use_type_invariant(self);
            crate::walk::lemma_walkable_all::<V, F, E>(
                self.cells(),
                begin.inner(),
                0,
                usize::MAX as int,
            );
        }
        let result = self.scan_some(usize::MAX, visitor, hw_counter);
        proof {
            crate::walk::lemma_walked_all(
                self.cells(),
                0,
                usize::MAX as int,
                count,
                visitor.since(begin),
                result,
                hw_counter.payload_io_read,
            );
        }
        match result {
            Ok(_) => Ok(()),
            Err(error) => Err(error),
        }
    }

    /// Hands the values of the points to a callback, in order, until it returns `Ok(false)` or
    /// `max_iters` values were handed over: each in one call, and none after that.
    pub fn scan_some<F, E>(
        &self,
        max_iters: usize,
        visitor: &mut Callback<F, V, E>,
        hw_counter: &mut HardwareCounterCell,
    ) -> (result: Result<ControlFlow<(), PointOffset>, E>) where
        F: FnMut(PointOffset, V) -> Result<bool, E>,
        E: From<GridstoreError>,

        requires
            crate::walk::walkable_some::<V, F, E>(
                self.cells(),
                old(visitor).inner(),
                0,
                max_iters as int,
            ),
        ensures
            final(visitor).follows(*old(visitor)),
            crate::callback::answered(
                old(visitor).inner(),
                final(visitor).since(*old(visitor)),
            ),
            crate::walk::walked_some(
                self.cells(),
                0,
                max_iters as int,
                old(hw_counter).payload_io_read,
                final(visitor).since(*old(visitor)),
                result,
                final(hw_counter).payload_io_read,
            ),
            final(hw_counter).payload_io_write == old(hw_counter).payload_io_write,
    {
        proof {
            use_type_invariant(self);
        }
        let view = self.view();
        let ghost count = hw_counter.payload_io_read;
        let ghost begin = *visitor;
        proof {
            assert(crate::walk::shows(view, self.cells())) by {
                assert forall|i: int| 0 <= i < self.cells().len() implies ((
                #[trigger] view.tracker.slot(i)) matches Ok(Some(pointer))
                    ==> crate::layout::record_intact(
                    *view.config,
                    *view.pages,
                    crate::view::dictionary_bytes(view.dictionary),
                    pointer,
                    view.pages.pages@.len() * view.config.page_size_bytes,
                )) by {
                    assert(view.tracker.slot(i) == self.tracker.slots@[i]);
                }
            }
            crate::walk::lemma_scannable::<V, F, E>(
                view,
                self.cells(),
                begin.inner(),
                0,
                max_iters as int,
            );
        }
        let max_id = view.max_point_offset();
        let result = view.scan(0, max_id, max_iters, visitor, hw_counter);
        proof {
            crate::walk::lemma_handed(
                view,
                self.cells(),
                0,
                max_iters as int,
                count,
                visitor.since(begin),
                result,
                hw_counter.payload_io_read,
            );
        }
        result
    }

    /// The number of records in front of the first whose bytes are not those of a value, if there
    /// is such a record in front of the first point that could not be read.
    pub fn first_unreadable(&self) -> (records: Option<usize>)
        ensures
            match crate::walk::unreadable_after::<V>(self.cells(), 0) {
                Some(n) => records matches Some(r) && r == n,
                None => records is None,
            },
    {
        let max_offset = self.max_point_offset();
        let mut records: usize = 0;
        let mut point_offset: PointOffset = 0;
        while point_offset < max_offset
            invariant
                max_offset == self.cells().len(),
                records <= point_offset,
                crate::walk::unreadable_after::<V>(self.cells(), 0) == match
                crate::walk::unreadable_after::<V>(self.cells(), point_offset as int) {
                    Some(n) => Some(n + records),
                    None => None,
                },
            decreases max_offset - point_offset,
        {
            if self.is_unread(point_offset) {
                return None;
            }
            if !self.is_readable(point_offset) {
                return Some(records);
            }
            if self.is_stored(point_offset) {
                records += 1;
            }
            point_offset += 1;
        }
        None
    }
}

impl<V: Blob> Gridstore<V> {
    /// A store of given parts, if they are those of a store.
    pub fn from_parts(
        config: StorageConfig,
        tracker: Tracker,
        pages: Pages,
        dictionary: Option<Vec<u8>>,
    ) -> (result: Result<Self, GridstoreError>)
        ensures
            Self::is_assembled(
                config,
                tracker,
                pages,
                crate::layout::owned_dictionary(dictionary),
                result,
            ),
    {
        if !config.is_valid() {
            return Err(GridstoreError::InvalidConfig);
        }
        if config.compression == Compression::LZ4Dict && dictionary.is_none() {
            return Err(GridstoreError::MissingDictionary);
        }
        if tracker.slots.len() as u64 > u32::MAX as u64 {
            return Err(GridstoreError::Corrupted);
        }
        if !crate::layout::pages_full(&pages, &config) {
            return Err(GridstoreError::Corrupted);
        }
        let page_size = config.page_size_bytes as u128;
        let block_size = config.block_size_bytes as u128;
        let held: u128 = pages.pages.len() as u128;
        let countable: u128 = usize::MAX as u128 / page_size;
        if held > countable || held > u32::MAX as u128 {
            return Err(GridstoreError::Corrupted);
        }
        let ghost known = crate::layout::owned_dictionary(dictionary);
        let ghost end_of_pages = pages.pages@.len() * config.page_size_bytes;
        proof {
            crate::layout::lemma_countable(config, pages.pages@.len() as int);
        }
        let mut next: u128 = 0;
        {
            let borrowed: Option<&[u8]> = match &dictionary {
                Some(dictionary) => Some(dictionary.as_slice()),
                None => None,
            };
            let view: GridstoreView<'_, V> = GridstoreView::new(
                &config,
                &tracker,
                &pages,
                borrowed,
            );
            let mut i: usize = 0;
            while i < tracker.slots.len()
                invariant
                    i <= tracker.slots@.len(),
                    config.valid(),
                    config.compression == Compression::LZ4Dict ==> dictionary is Some,
                    known == crate::layout::owned_dictionary(dictionary),
                    tracker.wf(),
                    page_size == config.page_size_bytes,
                    block_size == config.block_size_bytes,
                    held == pages.pages@.len(),
                    end_of_pages == held * page_size,
                    end_of_pages <= usize::MAX,
                    *view.config == config,
                    *view.pages == pages,
                    *view.tracker == tracker,
                    crate::view::dictionary_bytes(view.dictionary) == known,
                    next == crate::layout::records_end(config, tracker, i as int),
                    next <= end_of_pages,
                    next % block_size == 0,
                    forall|j: int|
                        0 <= j < i ==> ((#[trigger] tracker.slots@[j]) matches Ok(Some(pointer))
                            ==> crate::layout::record_intact(
                            config,
                            pages,
                            known,
                            pointer,
                            next as int,
                        )),
                    forall|j: int|
                        0 <= j < i ==> ((#[trigger] tracker.slots@[j]) matches Ok(Some(pointer))
                            ==> crate::view::testable(
                            config.compression,
                            pages.record(pointer, config)->0,
                        )),
                decreases tracker.slots@.len() - i,
            {
                match &tracker.slots[i] {
                    Ok(Some(pointer)) => {
                        assert(tracker.slots@[i as int] == Ok::<
                            Option<ValuePointer>,
                            GridstoreError,
                        >(Some(*pointer)));
                        assert(pointer.page_id * page_size <= 0xffff_ffff * 0xffff_ffff_ffff_ffff)
                            by (nonlinear_arith)
                            requires
                                pointer.page_id <= 0xffff_ffff,
                                page_size <= 0xffff_ffff_ffff_ffff,
                        ;
                        assert(pointer.block_offset * block_size <= 0xffff_ffff
                            * 0xffff_ffff_ffff_ffff) by (nonlinear_arith)
                            requires
                                pointer.block_offset <= 0xffff_ffff,
                                block_size <= 0xffff_ffff_ffff_ffff,
                        ;
                        let end: u128 = pointer.page_id as u128 * page_size
                            + pointer.block_offset as u128 * block_size + pointer.length as u128;
                        if end > held * page_size {
                            return Err(GridstoreError::Corrupted);
                        }
                        let raw = match view.read_from_pages::<true>(*pointer) {
                            Ok(raw) => raw,
                            Err(_) => {
                                return Err(GridstoreError::Corrupted);
                            },
                        };
                        match view.checked_decompress(raw) {
                            Some(_) => {},
                            None => {
                                return Err(GridstoreError::Corrupted);
                            },
                        }
                        proof {
                            crate::layout::lemma_record_end(config, held as int, *pointer);
                        }
                        let blocks_end: u128 = (end + block_size - 1) / block_size * block_size;
                        if next < blocks_end {
                            next = blocks_end;
                        }
                    },
                    _ => {},
                }
                i += 1;
            }
        }
        Ok(
            Gridstore {
                config,
                tracker,
                pages,
                next: next as u64,
                dictionary,
                value_type: PhantomData,
            },
        )
    }

    /// What putting given parts together to a store returns: the store, if they are those of one
    /// and can be tested for that on this machine.
    pub open spec fn is_assembled(
        config: StorageConfig,
        tracker: Tracker,
        pages: Pages,
        dictionary: Option<Seq<u8>>,
        result: Result<Self, GridstoreError>,
    ) -> bool {
        &&& result is Ok <==> crate::layout::intact(config, tracker, pages, dictionary)
            && crate::layout::records_testable(config, tracker, pages)
        &&& match result {
            Ok(store) => {
                &&& store.configured() == config
                &&& store.trained() == dictionary
                &&& store.cells() == crate::layout::cells_of(config, tracker, pages, dictionary)
                &&& store.used() == crate::layout::records_end(
                    config,
                    tracker,
                    tracker.slots@.len() as int,
                )
                &&& store.page_bytes() == pages.pages@.len() * config.page_size_bytes
            },
            Err(error) => error == if !config.valid() {
                GridstoreError::InvalidConfig
            } else if config.compression == Compression::LZ4Dict && dictionary is None {
                GridstoreError::MissingDictionary
            } else {
                GridstoreError::Corrupted
            },
        }
    }

    /// The parts are those of the store.
    pub open spec fn is_made_of(
        self,
        config: StorageConfig,
        tracker: Tracker,
        pages: Pages,
        dictionary: Option<Seq<u8>>,
    ) -> bool {
        &&& crate::layout::intact(config, tracker, pages, dictionary)
        &&& self.configured() == config
        &&& self.trained() == dictionary
        &&& self.cells() == crate::layout::cells_of(config, tracker, pages, dictionary)
        &&& self.page_bytes() == pages.pages@.len() * config.page_size_bytes
    }

    /// The parts of the store.
    pub fn parts<'a>(&'a self) -> (parts: (
        StorageConfig,
        &'a Tracker,
        &'a Pages,
        Option<&'a [u8]>,
    ))
        ensures
            self.is_made_of(
                parts.0,
                *parts.1,
                *parts.2,
                crate::view::dictionary_bytes(parts.3),
            ),
    {
        proof {
            use_type_invariant(self);
        }
        let dictionary: Option<&'a [u8]> = match &self.dictionary {
            Some(dictionary) => Some(dictionary.as_slice()),
            None => None,
        };
        (self.config, &self.tracker, &self.pages, dictionary)
    }
}

impl<V> Gridstore<V> {
    /// Takes away all that is stored.
    pub fn clear(&mut self)
        ensures
            final(self).configured() == old(self).configured(),
            final(self).trained() == old(self).trained(),
            final(self).cells() == Seq::<Cell>::empty(),
            final(self).used() == 0,
            final(self).page_bytes() == 0,
    {
        proof {
            use_type_invariant(&*self);
        }
        self.tracker = Tracker::new();
        self.next = 0;
        self.pages = Pages::new();
        assert(self.cells() =~= Seq::<Cell>::empty());
    }

    /// Whether anything is stored for a point.
    pub fn is_stored(&self, point_offset: PointOffset) -> (result: bool)
        ensures
            result == (self.cell(point_offset as int) matches Ok(Some(_))),
    {
        proof {
            use_type_invariant(self);
            lemma_cell(*self, point_offset as int);
        }
        match self.tracker.get(point_offset) {
            Ok(Some(_)) => true,
            _ => false,
        }
    }

    /// Whether what is stored for a point could not be read.
    pub fn is_unread(&self, point_offset: PointOffset) -> (result: bool)
        ensures
            result == self.cell(point_offset as int) is Err,
    {
        proof {
            use_type_invariant(self);
            lemma_cell(*self, point_offset as int);
        }
        self.tracker.get(point_offset).is_err()
    }

    /// One more than the last point that something was stored for.
    pub fn max_point_offset(&self) -> (offset: PointOffset)
        ensures
            offset == self.cells().len(),
    {
        proof {
            use_type_invariant(self);
        }
        self.tracker.pointer_count()
    }

    /// How the records are compressed.
    pub fn compression(&self) -> (compression: Compression)
        ensures
            compression == self.configured().compression,
    {
        self.config.compression
    }

    /// The storage size in bytes: what all the pages can hold.
    pub fn get_storage_size_bytes(&self) -> (size: usize)
        ensures
            size == self.page_bytes(),
    {
        proof {
            use_type_invariant(self);
            crate::layout::lemma_countable(self.config, self.pages.pages@.len() as int);
        }
        self.pages.num_pages() * self.config.page_size_bytes
    }
}

/// What reading a point returns, and the count of bytes read after it.
pub open spec fn is_value_of<V: Blob>(
    cell: Cell,
    count: u64,
    result: Result<Option<V>, GridstoreError>,
    count_after: u64,
) -> bool {
    match cell {
        Err(error) => result == Err::<Option<V>, GridstoreError>(error) && count_after == count,
        Ok(None) => result == Ok::<Option<V>, GridstoreError>(None) && count_after == count,
        Ok(Some(record)) => {
            &&& result matches Ok(Some(value)) && V::is_decoded(record.bytes, value)
            &&& count_after == crate::counter::counted(count, record.raw.len())
        },
    }
}

/// What a cell says of the parts of the store.
proof fn lemma_cell<V>(store: Gridstore<V>, offset: int)
    requires
        store.wf(),
        0 <= offset,
    ensures
        store.cell(offset) == crate::layout::cell_of(
            store.config,
            store.tracker.slot(offset),
            store.pages,
            store.trained(),
        ),
        store.tracker.slot(offset) matches Ok(Some(pointer)) ==> crate::layout::record_intact(
            store.config,
            store.pages,
            store.trained(),
            pointer,
            store.next as int,
        ),
{
}


/// The parts of a store can be put together again, and the store then holds the same. On a machine
/// of 32 bits its records have to be such that they can be tested.
pub proof fn law_parts_reassemble<V: Blob>(
    store: Gridstore<V>,
    config: StorageConfig,
    tracker: Tracker,
    pages: Pages,
    dictionary: Option<Seq<u8>>,
    result: Result<Gridstore<V>, GridstoreError>,
)
    requires
        usize::MAX == 0xffff_ffff_ffff_ffff || crate::layout::records_testable(
            config,
            tracker,
            pages,
        ),
        store.is_made_of(config, tracker, pages, dictionary),
        Gridstore::<V>::is_assembled(config, tracker, pages, dictionary, result),
    ensures
        result matches Ok(again) && again.configured() == store.configured() && again.trained()
            == store.trained() && again.cells() == store.cells() && again.page_bytes()
            == store.page_bytes(),
{
    if usize::MAX == 0xffff_ffff_ffff_ffff {
        crate::layout::lemma_records_testable(config, tracker, pages, dictionary);
    }
}

/// A value is stored for a point if its largest record finds room and fits a pointer.
pub proof fn law_put_succeeds<V: Blob>(
    before: Gridstore<V>,
    after: Gridstore<V>,
    offset: PointOffset,
    value: V,
    outcome: Result<(), GridstoreError>,
)
    requires
        before.is_put(after, offset, value, outcome),
        offset < PointOffset::MAX,
        ({
            let len = value.encoding().len() as int;
            &&& crate::layout::storable(before.configured().compression, len)
            &&& crate::layout::max_record_size(len) <= u32::MAX
            &&& before.has_room(crate::layout::max_record_size(len))
        }),
    ensures
        outcome == Ok::<(), GridstoreError>(()),
        after.cell(offset as int) matches Ok(Some(record)) && record.bytes == value.encoding(),
{
    assert forall|raw: Seq<u8>| #[trigger]
        crate::view::is_record_of(
            before.configured().compression,
            before.trained(),
            value.encoding(),
            raw,
        ) implies raw.len() <= crate::layout::max_record_size(value.encoding().len() as int) by {
        crate::layout::lemma_record_size(
            before.configured().compression,
            before.trained(),
            value.encoding(),
            raw,
        );
    }
}

}
