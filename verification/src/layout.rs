//! Where the records stand, and what the parts of a store hold.

use crate::config::{Compression, StorageConfig};
use crate::error::GridstoreError;
use crate::pages::Pages;
use crate::tracker::{Tracker, ValuePointer};
use vstd::prelude::*;

verus! {

/// What is stored for a point: the record, and the bytes of the value that it decompresses to.
pub struct Record {
    pub raw: Seq<u8>,
    pub bytes: Seq<u8>,
}

/// What is known of a point: what is stored for it, that nothing is, or why that could not be
/// read.
pub type Cell = Result<Option<Record>, GridstoreError>;

/// The largest number of pages. The number of a page fits 32 bits, and the bytes of all the pages
/// can be counted.
pub open spec fn max_pages(config: StorageConfig) -> int {
    let countable = usize::MAX as int / config.page_size_bytes as int;
    if countable < u32::MAX {
        countable
    } else {
        u32::MAX as int
    }
}

/// The number of bytes that all the records can take.
pub open spec fn capacity(config: StorageConfig) -> int {
    max_pages(config) * config.page_size_bytes
}

/// The largest size of the record of a value of so many bytes.
pub open spec fn max_record_size(len: int) -> int {
    crate::lz4::SIZE_PREFIX + crate::lz4::max_block_size(len)
}

/// A value of so many bytes can be made a record: its size fits 32 bits, and it can be compressed
/// on this machine if it is to be.
pub open spec fn storable(compression: Compression, len: int) -> bool {
    &&& len <= u32::MAX
    &&& compression != Compression::Uncompressed ==> crate::lz4::compressible(len)
}

/// The next address at which a block starts.
pub open spec fn block_end(at: int, block_size: int) -> int {
    (at + block_size - 1) / block_size * block_size
}

/// The later of two addresses.
pub open spec fn later(a: int, b: int) -> int {
    if a < b {
        b
    } else {
        a
    }
}

/// What a slot of the tracker stands for.
pub open spec fn cell_of(
    config: StorageConfig,
    slot: Result<Option<ValuePointer>, GridstoreError>,
    pages: Pages,
    dictionary: Option<Seq<u8>>,
) -> Cell {
    match slot {
        Err(error) => Err(error),
        Ok(None) => Ok(None),
        Ok(Some(pointer)) => {
            let raw = pages.record(pointer, config)->0;
            let bytes = crate::view::decompressed(config.compression, dictionary, raw)->0;
            Ok(Some(Record { raw, bytes }))
        },
    }
}

/// What the parts of a store hold for each point.
pub open spec fn cells_of(
    config: StorageConfig,
    tracker: Tracker,
    pages: Pages,
    dictionary: Option<Seq<u8>>,
) -> Seq<Cell> {
    Seq::new(
        tracker.slots@.len(),
        |i: int| cell_of(config, tracker.slots@[i], pages, dictionary),
    )
}

/// The record stands in front of an address and decompresses.
pub open spec fn record_intact(
    config: StorageConfig,
    pages: Pages,
    dictionary: Option<Seq<u8>>,
    pointer: ValuePointer,
    end: int,
) -> bool {
    &&& crate::pages::address(pointer, config) + pointer.length <= end
    &&& pages.record(pointer, config) is Some
    &&& crate::view::decompressed(
        config.compression,
        dictionary,
        pages.record(pointer, config)->0,
    ) is Some
}

/// The records of all the points can be tested on this machine for being records.
pub open spec fn records_testable(config: StorageConfig, tracker: Tracker, pages: Pages) -> bool {
    forall|i: int|
        0 <= i < tracker.slots@.len() ==> ((#[trigger] tracker.slots@[i]) matches Ok(Some(pointer))
            ==> crate::view::testable(config.compression, pages.record(pointer, config)->0))
}

/// On a machine of 64 bits every record can be tested.
pub proof fn lemma_records_testable(
    config: StorageConfig,
    tracker: Tracker,
    pages: Pages,
    dictionary: Option<Seq<u8>>,
)
    requires
        usize::MAX == 0xffff_ffff_ffff_ffff,
        intact(config, tracker, pages, dictionary),
    ensures
        records_testable(config, tracker, pages),
{
}

/// The records of all the points stand in front of an address and decompress.
pub open spec fn records_intact(
    config: StorageConfig,
    tracker: Tracker,
    pages: Pages,
    dictionary: Option<Seq<u8>>,
    end: int,
) -> bool {
    forall|i: int|
        0 <= i < tracker.slots@.len() ==> ((#[trigger] tracker.slots@[i]) matches Ok(Some(pointer))
            ==> record_intact(config, pages, dictionary, pointer, end))
}

/// The parts are those of a store.
pub open spec fn intact(
    config: StorageConfig,
    tracker: Tracker,
    pages: Pages,
    dictionary: Option<Seq<u8>>,
) -> bool {
    &&& config.valid()
    &&& config.compression == Compression::LZ4Dict ==> dictionary is Some
    &&& tracker.wf()
    &&& pages.full(config)
    &&& pages.pages@.len() <= max_pages(config)
    &&& records_intact(
        config,
        tracker,
        pages,
        dictionary,
        pages.pages@.len() * config.page_size_bytes,
    )
}

/// A dictionary, as bytes.
pub open spec fn owned_dictionary(dictionary: Option<Vec<u8>>) -> Option<Seq<u8>> {
    match dictionary {
        Some(dictionary) => Some(dictionary@),
        None => None,
    }
}

/// A record is no larger than the largest record of a value of so many bytes.
pub proof fn lemma_record_size(
    compression: Compression,
    dictionary: Option<Seq<u8>>,
    value: Seq<u8>,
    record: Seq<u8>,
)
    requires
        crate::view::is_record_of(compression, dictionary, value, record),
    ensures
        record.len() <= max_record_size(value.len() as int),
{
}

/// The next start of a block lies less than a block away, and not beyond another one.
pub(crate) proof fn lemma_block_end(at: int, block_size: int, limit: int)
    requires
        0 <= at <= limit,
        block_size > 0,
        limit % block_size == 0,
    ensures
        at <= block_end(at, block_size) <= limit,
        block_end(at, block_size) < at + block_size,
        block_end(at, block_size) % block_size == 0,
{
    let raised = at + block_size - 1;
    let blocks = raised / block_size;
    let limit_blocks = limit / block_size;
    vstd::arithmetic::div_mod::lemma_fundamental_div_mod(raised, block_size);
    vstd::arithmetic::div_mod::lemma_fundamental_div_mod(limit, block_size);
    vstd::arithmetic::div_mod::lemma_mod_bound(raised, block_size);
    assert(block_size * blocks == blocks * block_size) by (nonlinear_arith);
    assert(blocks <= limit_blocks) by (nonlinear_arith)
        requires
            block_size * blocks <= raised,
            raised < block_size * limit_blocks + block_size,
            block_size > 0,
    ;
    assert(blocks * block_size <= limit_blocks * block_size) by (nonlinear_arith)
        requires
            blocks <= limit_blocks,
            block_size > 0,
    ;
    assert(block_size * limit_blocks == limit_blocks * block_size) by (nonlinear_arith);
    vstd::arithmetic::div_mod::lemma_mod_multiples_basic(blocks, block_size);
}

/// The pointer that is made from the address of a block leads back to that address.
pub(crate) proof fn lemma_address(start: int, page_size: int, block_size: int)
    requires
        0 <= start,
        block_size > 0,
        page_size > 0,
        page_size % block_size == 0,
        start % block_size == 0,
    ensures
        start / page_size * page_size + start % page_size / block_size * block_size == start,
{
    let page = start / page_size;
    let offset = start % page_size;
    vstd::arithmetic::div_mod::lemma_fundamental_div_mod(start, page_size);
    vstd::arithmetic::div_mod::lemma_fundamental_div_mod(start, block_size);
    vstd::arithmetic::div_mod::lemma_fundamental_div_mod(page_size, block_size);
    let k = start / block_size;
    let m = page_size / block_size;
    assert(offset == (k - m * page) * block_size) by (nonlinear_arith)
        requires
            start == page_size * page + offset,
            start == block_size * k,
            page_size == block_size * m,
    ;
    vstd::arithmetic::div_mod::lemma_mod_bound(start, page_size);
    assert(k - m * page >= 0) by (nonlinear_arith)
        requires
            (k - m * page) * block_size >= 0,
            block_size > 0,
    ;
    vstd::arithmetic::div_mod::lemma_div_by_multiple(k - m * page, block_size);
    assert(page * page_size == page_size * page) by (nonlinear_arith);
}

/// Whether a value of so many bytes can be made a record.
pub(crate) fn is_storable(compression: Compression, len: usize) -> (result: bool)
    ensures
        result == storable(compression, len as int),
{
    if len as u64 > u32::MAX as u64 {
        return false;
    }
    match compression {
        Compression::Uncompressed => true,
        _ => 24 + len as u64 * 110 / 100 <= isize::MAX as u64,
    }
}

/// The number of bytes that all the records can take.
pub(crate) fn capacity_of(config: &StorageConfig) -> (result: u64)
    requires
        config.valid(),
    ensures
        result == capacity(*config),
{
    let countable: u64 = usize::MAX as u64 / config.page_size_bytes as u64;
    let max_pages: u64 = if countable < u32::MAX as u64 {
        countable
    } else {
        u32::MAX as u64
    };
    proof {
        lemma_countable(*config, max_pages as int);
    }
    max_pages * config.page_size_bytes as u64
}

/// The cells after what is stored for one point was changed.
pub open spec fn with_cell(cells: Seq<Cell>, offset: int, cell: Cell) -> Seq<Cell> {
    Seq::new(
        if offset < cells.len() {
            cells.len()
        } else {
            (offset + 1) as nat
        },
        |i: int|
            if i == offset {
                cell
            } else if i < cells.len() {
                cells[i]
            } else {
                Ok(None)
            },
    )
}

/// A record is not touched by what is written behind it.
pub(crate) proof fn lemma_record_kept(
    before: Pages,
    after: Pages,
    config: StorageConfig,
    pointer: ValuePointer,
    start: int,
)
    requires
        crate::pages::address(pointer, config) + pointer.length <= start,
        forall|at: int|
            0 <= at < start ==> #[trigger] after.byte_at(config, at) == before.byte_at(config, at),
    ensures
        after.record(pointer, config) == before.record(pointer, config),
{
    let address = crate::pages::address(pointer, config);
    assert(0 <= address) by (nonlinear_arith)
        requires
            address == pointer.page_id * config.page_size_bytes + pointer.block_offset
                * config.block_size_bytes,
    ;
    assert forall|i: int| 0 <= i < pointer.length implies #[trigger] after.byte_at(
        config,
        address + i,
    ) == before.byte_at(config, address + i) by {}
    if before.holds(pointer, config) {
        assert(after.holds(pointer, config));
        assert(after.record(pointer, config)->0 =~= before.record(pointer, config)->0);
    } else {
        let i = choose|i: int|
            0 <= i < pointer.length && !(#[trigger] before.byte_at(config, address + i) is Some);
        assert(!(after.byte_at(config, address + i) is Some));
    }
}

/// Where a record finds room, its pointer and the end of its last block can be written down.
pub(crate) proof fn lemma_room(config: StorageConfig, start: int, len: int)
    requires
        config.valid(),
        0 <= start,
        0 <= len,
        start + len <= capacity(config),
        start % (config.block_size_bytes as int) == 0,
    ensures
        capacity(config) <= usize::MAX,
        capacity(config) <= usize::MAX * config.page_size_bytes,
        0 <= start / (config.page_size_bytes as int) <= u32::MAX,
        0 <= start % (config.page_size_bytes as int) / (config.block_size_bytes as int) <= u32::MAX,
        start / (config.page_size_bytes as int) * config.page_size_bytes + start % (
        config.page_size_bytes as int) / (config.block_size_bytes as int) * config.block_size_bytes
            == start,
        block_end(start + len, config.block_size_bytes as int) <= capacity(config),
        block_end(start + len, config.block_size_bytes as int) == start + len + if (start + len) % (
        config.block_size_bytes as int) == 0 {
            0
        } else {
            config.block_size_bytes - (start + len) % (config.block_size_bytes as int)
        },
{
    let page_size = config.page_size_bytes as int;
    let block_size = config.block_size_bytes as int;
    let pages = max_pages(config);
    let page = start / page_size;
    let offset = start % page_size;
    vstd::arithmetic::div_mod::lemma_fundamental_div_mod(start, page_size);
    vstd::arithmetic::div_mod::lemma_mod_bound(start, page_size);
    vstd::arithmetic::div_mod::lemma_div_pos_is_pos(start, page_size);
    vstd::arithmetic::div_mod::lemma_div_pos_is_pos(offset, block_size);
    vstd::arithmetic::div_mod::lemma_div_is_ordered(offset, page_size, block_size);
    vstd::arithmetic::div_mod::lemma_div_is_ordered_by_denominator(
        usize::MAX as int,
        1,
        page_size,
    );
    vstd::arithmetic::div_mod::lemma_div_pos_is_pos(usize::MAX as int, page_size);
    lemma_countable(config, pages);
    assert(pages * page_size <= usize::MAX * page_size) by (nonlinear_arith)
        requires
            pages <= usize::MAX,
            page_size > 0,
    ;
    assert(page <= pages) by (nonlinear_arith)
        requires
            start == page_size * page + offset,
            offset >= 0,
            start <= pages * page_size,
            page_size > 0,
    ;
    lemma_address(start, page_size, block_size);
    let end = start + len;
    lemma_whole_pages(pages, page_size, block_size);
    lemma_block_end(end, block_size, pages * page_size);
    lemma_block_rest(end, block_size);
}

/// A number of pages is a number of blocks.
pub(crate) proof fn lemma_whole_pages(pages: int, page_size: int, block_size: int)
    requires
        block_size > 0,
        page_size % block_size == 0,
    ensures
        (pages * page_size) % block_size == 0,
{
    vstd::arithmetic::div_mod::lemma_fundamental_div_mod(page_size, block_size);
    let m = page_size / block_size;
    assert(pages * page_size == (pages * m) * block_size) by (nonlinear_arith)
        requires
            page_size == block_size * m,
    ;
    vstd::arithmetic::div_mod::lemma_mod_multiples_basic(pages * m, block_size);
}

/// How far it is to the next start of a block.
proof fn lemma_block_rest(at: int, block_size: int)
    requires
        0 <= at,
        block_size > 0,
    ensures
        block_end(at, block_size) == at + if at % block_size == 0 {
            0
        } else {
            block_size - at % block_size
        },
{
    let rest = at % block_size;
    let blocks = at / block_size;
    vstd::arithmetic::div_mod::lemma_fundamental_div_mod(at, block_size);
    vstd::arithmetic::div_mod::lemma_mod_bound(at, block_size);
    assert(blocks * block_size == block_size * blocks) by (nonlinear_arith);
    let raised = at + block_size - 1;
    if rest == 0 {
        vstd::arithmetic::div_mod::lemma_fundamental_div_mod_converse(
            raised,
            block_size,
            blocks,
            block_size - 1,
        );
    } else {
        assert((blocks + 1) * block_size == blocks * block_size + block_size) by (nonlinear_arith);
        vstd::arithmetic::div_mod::lemma_fundamental_div_mod_converse(
            raised,
            block_size,
            blocks + 1,
            rest - 1,
        );
    }
}

/// The parts of a store after a record was written and a slot was set to it.
pub(crate) proof fn lemma_put(
    config: StorageConfig,
    dictionary: Option<Seq<u8>>,
    before: (Tracker, Pages),
    after: (Tracker, Pages),
    offset: int,
    pointer: ValuePointer,
    start: int,
    record: Record,
)
    requires
        intact(config, before.0, before.1, dictionary),
        records_intact(config, before.0, before.1, dictionary, start),
        start % (config.block_size_bytes as int) == 0,
        0 <= start,
        start + record.raw.len() <= capacity(config),
        crate::pages::address(pointer, config) == start,
        pointer.length == record.raw.len(),
        crate::view::decompressed(config.compression, dictionary, record.raw) == Some(record.bytes),
        0 <= offset,
        after.0.wf(),
        after.0.slots@.len() == if before.0.slots@.len() > offset {
            before.0.slots@.len() as int
        } else {
            offset + 1
        },
        forall|i: int| #[trigger]
            after.0.slot(i) == if i == offset {
                Ok(Some(pointer))
            } else {
                before.0.slot(i)
            },
        after.1.full(config),
        before.1.pages@.len() <= after.1.pages@.len(),
        start + record.raw.len() <= after.1.pages@.len() * config.page_size_bytes,
        after.1.pages@.len() == before.1.pages@.len() || (after.1.pages@.len() - 1)
            * config.page_size_bytes < start + record.raw.len(),
        forall|i: int|
            0 <= i < record.raw.len() ==> #[trigger] after.1.byte_at(config, start + i) == Some(
                record.raw[i],
            ),
        forall|at: int|
            0 <= at < start ==> #[trigger] after.1.byte_at(config, at) == before.1.byte_at(
                config,
                at,
            ),
    ensures
        ({
            let next = block_end(start + record.raw.len(), config.block_size_bytes as int);
            &&& next <= after.1.pages@.len() * config.page_size_bytes
            &&& after.1.pages@.len() * config.page_size_bytes == later(
                before.1.pages@.len() * config.page_size_bytes,
                block_end(start + record.raw.len(), config.page_size_bytes as int),
            )
            &&& next % (config.block_size_bytes as int) == 0
            &&& intact(config, after.0, after.1, dictionary)
            &&& records_intact(config, after.0, after.1, dictionary, next)
            &&& cells_of(config, after.0, after.1, dictionary) == with_cell(
                cells_of(config, before.0, before.1, dictionary),
                offset,
                Ok(Some(record)),
            )
        }),
{
    let page_size = config.page_size_bytes as int;
    let block_size = config.block_size_bytes as int;
    let pages = after.1.pages@.len() as int;
    let next = block_end(start + record.raw.len(), block_size);
    assert(pages <= max_pages(config)) by {
        if pages != before.1.pages@.len() {
            assert(pages - 1 < max_pages(config)) by (nonlinear_arith)
                requires
                    (pages - 1) * page_size < max_pages(config) * page_size,
                    page_size > 0,
            ;
        }
    }
    lemma_whole_pages(pages, page_size, block_size);
    lemma_block_end(start + record.raw.len(), block_size, pages * page_size);
    assert(pages * page_size == later(
        before.1.pages@.len() * page_size,
        block_end(start + record.raw.len(), page_size),
    )) by {
        let end = start + record.raw.len();
        let raised = end + page_size - 1;
        let reached = raised / page_size;
        vstd::arithmetic::div_mod::lemma_fundamental_div_mod(raised, page_size);
        vstd::arithmetic::div_mod::lemma_mod_bound(raised, page_size);
        assert(reached * page_size == page_size * reached) by (nonlinear_arith);
        assert(reached <= pages) by (nonlinear_arith)
            requires
                page_size * reached <= raised,
                raised < pages * page_size + page_size,
                page_size > 0,
        ;
        assert(reached * page_size <= pages * page_size) by (nonlinear_arith)
            requires
                reached <= pages,
                page_size > 0,
        ;
        if pages != before.1.pages@.len() {
            assert(pages <= reached) by (nonlinear_arith)
                requires
                    (pages - 1) * page_size < end,
                    end + page_size - 1 < page_size * reached + page_size,
                    page_size > 0,
            ;
            assert(before.1.pages@.len() * page_size <= pages * page_size) by (nonlinear_arith)
                requires
                    before.1.pages@.len() <= pages,
                    page_size > 0,
            ;
        }
    }
    assert(after.1.record(pointer, config) == Some(record.raw)) by {
        assert(after.1.holds(pointer, config));
        assert(after.1.record(pointer, config)->0 =~= record.raw);
    }
    assert forall|i: int| 0 <= i < after.0.slots@.len() implies ((
    #[trigger] after.0.slots@[i]) matches Ok(Some(p)) ==> record_intact(
        config,
        after.1,
        dictionary,
        p,
        next,
    )) by {
        assert(after.0.slot(i) == after.0.slots@[i]);
        if i != offset {
            if let Ok(Some(p)) = after.0.slots@[i] {
                assert(before.0.slots@[i] == Ok::<Option<ValuePointer>, GridstoreError>(Some(p)));
                lemma_record_kept(before.1, after.1, config, p, start);
            }
        }
    }
    assert(records_intact(config, after.0, after.1, dictionary, next));
    assert(records_intact(config, after.0, after.1, dictionary, pages * page_size));
    let cells = cells_of(config, before.0, before.1, dictionary);
    assert(cells_of(config, after.0, after.1, dictionary) =~= with_cell(
        cells,
        offset,
        Ok(Some(record)),
    )) by {
        assert forall|i: int| 0 <= i < after.0.slots@.len() implies #[trigger] cells_of(
            config,
            after.0,
            after.1,
            dictionary,
        )[i] == with_cell(cells, offset, Ok(Some(record)))[i] by {
            assert(after.0.slot(i) == after.0.slots@[i]);
            if i != offset && i < before.0.slots@.len() {
                assert(before.0.slot(i) == before.0.slots@[i]);
                if let Ok(Some(p)) = before.0.slots@[i] {
                    lemma_record_kept(before.1, after.1, config, p, start);
                }
            }
        }
    }
}

/// The address behind the blocks of a record.
pub open spec fn record_end(config: StorageConfig, pointer: ValuePointer) -> int {
    block_end(
        crate::pages::address(pointer, config) + pointer.length,
        config.block_size_bytes as int,
    )
}

/// The address behind the blocks of the records that the first `n` slots lead to.
pub open spec fn records_end(config: StorageConfig, tracker: Tracker, n: int) -> int
    decreases n,
{
    if n <= 0 {
        0
    } else {
        let front = records_end(config, tracker, n - 1);
        match tracker.slots@[n - 1] {
            Ok(Some(pointer)) => later(front, record_end(config, pointer)),
            _ => front,
        }
    }
}

/// Blocks fill the pages: the end of a record's blocks is no further than the end of its page.
pub(crate) proof fn lemma_record_end(config: StorageConfig, pages: int, pointer: ValuePointer)
    requires
        config.valid(),
        0 <= pages,
        crate::pages::address(pointer, config) + pointer.length <= pages * config.page_size_bytes,
    ensures
        0 <= crate::pages::address(pointer, config),
        crate::pages::address(pointer, config) + pointer.length <= record_end(config, pointer),
        record_end(config, pointer) <= pages * config.page_size_bytes,
        record_end(config, pointer) % (config.block_size_bytes as int) == 0,
{
    let page_size = config.page_size_bytes as int;
    let block_size = config.block_size_bytes as int;
    let address = crate::pages::address(pointer, config);
    assert(0 <= address) by (nonlinear_arith)
        requires
            address == pointer.page_id * page_size + pointer.block_offset * block_size,
            page_size > 0,
            block_size > 0,
    ;
    lemma_whole_pages(pages, page_size, block_size);
    lemma_block_end(address + pointer.length, block_size, pages * page_size);
}

/// Whether every page has the size of a page.
pub(crate) fn pages_full(pages: &Pages, config: &StorageConfig) -> (result: bool)
    ensures
        result == pages.full(*config),
{
    let mut i: usize = 0;
    while i < pages.pages.len()
        invariant
            i <= pages.pages@.len(),
            forall|j: int|
                0 <= j < i ==> (#[trigger] pages.pages@[j])@.len() == config.page_size_bytes,
        decreases pages.pages@.len() - i,
    {
        if pages.pages[i].len() != config.page_size_bytes {
            assert(pages.pages@[i as int]@.len() != config.page_size_bytes);
            return false;
        }
        i += 1;
    }
    true
}

/// The bytes of all the pages can be counted.
pub(crate) proof fn lemma_countable(config: StorageConfig, pages: int)
    requires
        config.valid(),
        0 <= pages <= max_pages(config),
    ensures
        pages * config.page_size_bytes <= usize::MAX,
{
    let page_size = config.page_size_bytes as int;
    let countable = usize::MAX as int / page_size;
    vstd::arithmetic::div_mod::lemma_fundamental_div_mod(usize::MAX as int, page_size);
    vstd::arithmetic::div_mod::lemma_mod_bound(usize::MAX as int, page_size);
    assert(pages * page_size <= page_size * countable) by (nonlinear_arith)
        requires
            pages <= countable,
            page_size > 0,
    ;
}

}
