//! The pages that hold the records.
//!
//! The bytes of the pages are numbered through: byte `offset` of page `page` has the address
//! `page * page_size + offset`. A record may reach over the end of a page into the next one.

use crate::config::StorageConfig;
use crate::error::GridstoreError;
use crate::tracker::ValuePointer;
use vstd::prelude::*;

verus! {

/// Pages of bytes.
#[derive(Debug)]
pub struct Pages {
    pub pages: Vec<Vec<u8>>,
}

/// The address at which a record starts.
pub open spec fn address(pointer: ValuePointer, config: StorageConfig) -> int {
    pointer.page_id * config.page_size_bytes + pointer.block_offset * config.block_size_bytes
}

impl Pages {
    /// Every page has the size of a page.
    pub open spec fn full(self, config: StorageConfig) -> bool {
        forall|i: int|
            0 <= i < self.pages@.len() ==> (#[trigger] self.pages@[i])@.len()
                == config.page_size_bytes
    }

    /// The byte at an address, if a page holds it.
    pub open spec fn byte_at(self, config: StorageConfig, at: int) -> Option<u8> {
        let page = at / config.page_size_bytes as int;
        let offset = at % config.page_size_bytes as int;
        if 0 <= page < self.pages@.len() && offset < self.pages@[page]@.len() {
            Some(self.pages@[page]@[offset])
        } else {
            None
        }
    }

    /// The pages hold every byte of a record.
    pub open spec fn holds(self, pointer: ValuePointer, config: StorageConfig) -> bool {
        forall|i: int|
            0 <= i < pointer.length ==> #[trigger] self.byte_at(
                config,
                address(pointer, config) + i,
            ) is Some
    }

    /// The bytes of a record, if the pages hold them all.
    pub open spec fn record(self, pointer: ValuePointer, config: StorageConfig) -> Option<
        Seq<u8>,
    > {
        if self.holds(pointer, config) {
            Some(
                Seq::new(
                    pointer.length as nat,
                    |i: int| self.byte_at(config, address(pointer, config) + i)->0,
                ),
            )
        } else {
            None
        }
    }

    /// No pages.
    pub fn new() -> (pages: Pages)
        ensures
            pages.pages@.len() == 0,
    {
        Pages { pages: Vec::new() }
    }

    /// The number of pages.
    pub fn num_pages(&self) -> (count: usize)
        ensures
            count == self.pages@.len(),
    {
        self.pages.len()
    }

    /// Reads the bytes of a record, which can span more than one page.
    pub fn read_from_pages<const READ_SEQUENTIAL: bool>(
        &self,
        pointer: ValuePointer,
        config: &StorageConfig,
    ) -> (result: Result<Vec<u8>, GridstoreError>)
        requires
            config.valid(),
        ensures
            match self.record(pointer, *config) {
                Some(bytes) => result matches Ok(read) && read@ == bytes,
                None => result == Err::<Vec<u8>, GridstoreError>(GridstoreError::OutOfBounds),
            },
    {
        let page_size = config.page_size_bytes as u128;
        assert(pointer.block_offset * config.block_size_bytes <= 0xffff_ffff
            * 0xffff_ffff_ffff_ffff) by (nonlinear_arith)
            requires
                pointer.block_offset <= 0xffff_ffff,
                config.block_size_bytes <= 0xffff_ffff_ffff_ffff,
        ;
        let in_page: u128 = pointer.block_offset as u128 * config.block_size_bytes as u128;
        let ghost start = address(pointer, *config);
        proof {
            vstd::arithmetic::div_mod::lemma_fundamental_div_mod(in_page as int, page_size as int);
            assert(in_page / page_size <= in_page) by (nonlinear_arith)
                requires
                    page_size > 0,
            ;
            assert(pointer.page_id * page_size + page_size * (in_page / page_size) == (
            pointer.page_id + in_page / page_size) * page_size) by (nonlinear_arith);
        }
        let mut page: u128 = pointer.page_id as u128 + in_page / page_size;
        let mut offset: u128 = in_page % page_size;
        let mut bytes: Vec<u8> = Vec::new();
        let mut i: u32 = 0;
        while i < pointer.length
            invariant
                config.valid(),
                page_size == config.page_size_bytes,
                i <= pointer.length,
                page <= 0xffff_ffff + 0xffff_ffff * 0xffff_ffff_ffff_ffff + i,
                offset < page_size,
                start == address(pointer, *config),
                page * page_size + offset == start + i,
                bytes@.len() == i,
                forall|j: int|
                    0 <= j < i ==> #[trigger] self.byte_at(*config, start + j) == Some(bytes@[j]),
            decreases pointer.length - i,
        {
            proof {
                vstd::arithmetic::div_mod::lemma_fundamental_div_mod_converse(
                    start + i,
                    page_size as int,
                    page as int,
                    offset as int,
                );
            }
            if page >= self.pages.len() as u128 || offset >= self.pages[page as usize].len() as u128
            {
                assert(self.byte_at(*config, start + i) is None);
                return Err(GridstoreError::OutOfBounds);
            }
            let byte: u8 = self.pages[page as usize][offset as usize];
            assert(self.byte_at(*config, start + i) == Some(byte));
            bytes.push(byte);
            offset += 1;
            if offset == page_size {
                assert((page + 1) * page_size == page * page_size + page_size)
                    by (nonlinear_arith);
                page += 1;
                offset = 0;
            }
            i += 1;
        }
        assert(self.record(pointer, *config) == Some(bytes@));
        Ok(bytes)
    }

    /// Writes bytes from an address on. Pages are added as far as the bytes reach.
    pub fn write(&mut self, start: u64, bytes: &[u8], config: &StorageConfig)
        requires
            config.valid(),
            old(self).full(*config),
            start <= old(self).pages@.len() * config.page_size_bytes,
            start + bytes@.len() <= u64::MAX,
            start + bytes@.len() <= usize::MAX * config.page_size_bytes,
        ensures
            final(self).full(*config),
            old(self).pages@.len() <= final(self).pages@.len(),
            start + bytes@.len() <= final(self).pages@.len() * config.page_size_bytes,
            final(self).pages@.len() == old(self).pages@.len() || (final(self).pages@.len() - 1)
                * config.page_size_bytes < start + bytes@.len(),
            forall|i: int|
                0 <= i < bytes@.len() ==> #[trigger] final(self).byte_at(*config, start + i)
                    == Some(bytes@[i]),
            forall|at: int|
                0 <= at < start ==> #[trigger] final(self).byte_at(*config, at) == old(
                    self,
                ).byte_at(*config, at),
    {
        let page_size = config.page_size_bytes;
        let mut i: usize = 0;
        while i < bytes.len()
            invariant
                config.valid(),
                page_size == config.page_size_bytes,
                i <= bytes@.len(),
                start + bytes@.len() <= u64::MAX,
                start + bytes@.len() <= usize::MAX * page_size,
                self.full(*config),
                old(self).pages@.len() <= self.pages@.len(),
                start + i <= self.pages@.len() * page_size,
                self.pages@.len() == old(self).pages@.len() || (self.pages@.len() - 1) * page_size
                    < start + i,
                forall|j: int|
                    0 <= j < i ==> #[trigger] self.byte_at(*config, start + j) == Some(bytes@[j]),
                forall|at: int|
                    0 <= at < start ==> #[trigger] self.byte_at(*config, at) == old(self).byte_at(
                        *config,
                        at,
                    ),
            decreases bytes@.len() - i,
        {
            let ghost before = *self;
            let at: u64 = start + i as u64;
            let page: u64 = at / page_size as u64;
            let offset: u64 = at % page_size as u64;
            proof {
                vstd::arithmetic::div_mod::lemma_fundamental_div_mod(at as int, page_size as int);
                assert(page < usize::MAX) by (nonlinear_arith)
                    requires
                        at == page_size * page + offset,
                        at < usize::MAX * page_size,
                        page_size > 0,
                        offset >= 0,
                ;
                assert(page <= self.pages@.len()) by (nonlinear_arith)
                    requires
                        at == page_size * page + offset,
                        at <= self.pages@.len() * page_size,
                        page_size > 0,
                        offset >= 0,
                ;
            }
            if page as usize == self.pages.len() {
                self.pages.push(vec![0u8; page_size]);
            }
            let ghost grown = *self;
            self.pages[page as usize].set(offset as usize, bytes[i]);
            proof {
                assert(self.full(*config)) by {
                    assert forall|k: int| 0 <= k < self.pages@.len() implies (
                    #[trigger] self.pages@[k])@.len() == config.page_size_bytes by {
                        if k < before.pages@.len() {
                            assert(before.pages@[k]@.len() == config.page_size_bytes);
                        }
                    }
                }
                assert(at + 1 <= self.pages@.len() * page_size) by (nonlinear_arith)
                    requires
                        at == page_size * page + offset,
                        offset < page_size,
                        page < self.pages@.len(),
                ;
                assert((grown.pages@.len() - 1) * page_size < at + 1 || grown.pages@.len()
                    == before.pages@.len()) by {
                    if grown.pages@.len() != before.pages@.len() {
                        assert(page * page_size == page_size * page) by (nonlinear_arith);
                    }
                }
                assert forall|other: int| 0 <= other < at implies #[trigger] self.byte_at(
                    *config,
                    other,
                ) == before.byte_at(*config, other) by {
                    lemma_other_byte(other, at as int, page_size as int);
                    let other_page = other / page_size as int;
                    assert(other_page < before.pages@.len()) by {
                        assert(other_page < before.pages@.len()) by (nonlinear_arith)
                            requires
                                other == page_size * other_page + other % (page_size as int),
                                other < before.pages@.len() * page_size,
                                page_size > 0,
                                0 <= other % (page_size as int),
                        ;
                    }
                    if other_page == page {
                        assert(self.pages@[other_page]@ == grown.pages@[other_page]@.update(
                            offset as int,
                            bytes@[i as int],
                        ));
                    }
                }
                assert(self.byte_at(*config, at as int) == Some(bytes@[i as int]));
            }
            i += 1;
        }
    }
}

/// Two addresses differ in their page or in their place in the page.
proof fn lemma_other_byte(other: int, at: int, page_size: int)
    requires
        0 <= other < at,
        page_size > 0,
    ensures
        0 <= other / page_size <= at / page_size,
        other / page_size != at / page_size || other % page_size != at % page_size,
        other == page_size * (other / page_size) + other % page_size,
        0 <= other % page_size < page_size,
{
    vstd::arithmetic::div_mod::lemma_fundamental_div_mod(other, page_size);
    vstd::arithmetic::div_mod::lemma_fundamental_div_mod(at, page_size);
    vstd::arithmetic::div_mod::lemma_div_is_ordered(other, at, page_size);
    vstd::arithmetic::div_mod::lemma_div_pos_is_pos(other, page_size);
    vstd::arithmetic::div_mod::lemma_mod_bound(other, page_size);
}

}
