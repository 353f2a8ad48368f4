//! How a store lays out and compresses its records.

use crate::error::GridstoreError;
use vstd::prelude::*;

verus! {

/// The size of a page where none is asked for.
pub const DEFAULT_PAGE_SIZE_BYTES: usize = 33554432;

/// The size of a block where none is asked for.
pub const DEFAULT_BLOCK_SIZE_BYTES: usize = 128;

/// How the records of a store are compressed.
#[derive(Clone, Copy, Debug, PartialEq, Eq, Structural)]
pub enum Compression {
    /// Records hold the bytes of the value.
    Uncompressed,
    /// Records are LZ4 blocks.
    LZ4,
    /// Records are LZ4 blocks that lean on the dictionary of the store.
    LZ4Dict,
}

/// What a store is asked to be made with.
#[derive(Clone, Copy, Debug)]
pub struct StorageOptions {
    pub page_size_bytes: Option<usize>,
    pub block_size_bytes: Option<usize>,
    pub compression: Option<Compression>,
}

impl Default for StorageOptions {
    fn default() -> (options: StorageOptions)
        ensures
            options.page_size_bytes is None,
            options.block_size_bytes is None,
            options.compression is None,
    {
        StorageOptions { page_size_bytes: None, block_size_bytes: None, compression: None }
    }
}

/// What a store is made with.
#[derive(Clone, Copy, Debug)]
pub struct StorageConfig {
    pub page_size_bytes: usize,
    pub block_size_bytes: usize,
    pub compression: Compression,
}

impl StorageConfig {
    /// Blocks fill the pages, and the number of a block in its page fits 32 bits.
    pub open spec fn valid(self) -> bool {
        &&& 0 < self.block_size_bytes <= self.page_size_bytes
        &&& self.page_size_bytes % self.block_size_bytes == 0
        &&& self.page_size_bytes / self.block_size_bytes <= u32::MAX
    }

    /// Whether blocks fill the pages, and the number of a block in its page fits 32 bits.
    pub fn is_valid(&self) -> (result: bool)
        ensures
            result == self.valid(),
    {
        0 < self.block_size_bytes && self.block_size_bytes <= self.page_size_bytes
            && self.page_size_bytes % self.block_size_bytes == 0 && (self.page_size_bytes
            / self.block_size_bytes) as u64 <= u32::MAX as u64
    }
}

impl StorageOptions {
    /// What was asked for, and the defaults for the rest.
    pub open spec fn resolved(self) -> StorageConfig {
        StorageConfig {
            page_size_bytes: if self.page_size_bytes is Some {
                self.page_size_bytes->0
            } else {
                DEFAULT_PAGE_SIZE_BYTES
            },
            block_size_bytes: if self.block_size_bytes is Some {
                self.block_size_bytes->0
            } else {
                DEFAULT_BLOCK_SIZE_BYTES
            },
            compression: if self.compression is Some {
                self.compression->0
            } else {
                Compression::LZ4
            },
        }
    }

    /// The configuration that was asked for, if its sizes fit together.
    pub fn into_config(self) -> (result: Result<StorageConfig, GridstoreError>)
        ensures
            result is Ok <==> self.resolved().valid(),
            result matches Ok(config) ==> config == self.resolved(),
            result matches Err(error) ==> error == GridstoreError::InvalidConfig,
    {
        let page_size_bytes: usize = match self.page_size_bytes {
            Some(size) => size,
            None => DEFAULT_PAGE_SIZE_BYTES,
        };
        let block_size_bytes: usize = match self.block_size_bytes {
            Some(size) => size,
            None => DEFAULT_BLOCK_SIZE_BYTES,
        };
        let compression = match self.compression {
            Some(compression) => compression,
            None => Compression::LZ4,
        };
        let config = StorageConfig { page_size_bytes, block_size_bytes, compression };
        if !config.is_valid() {
            return Err(GridstoreError::InvalidConfig);
        }
        Ok(config)
    }
}

}
