//! LZ4 blocks with their uncompressed size in front.

use lz4_flex::block::{
    compress_into_with_table, compress_prepend_size_with_dict, decompress_size_prepended,
    decompress_size_prepended_with_dict, get_maximum_output_size, CompressTable,
};
use vstd::prelude::*;

verus! {

/// The reusable hash table of the `lz4_flex` compressor.
#[verifier::external_type_specification]
#[verifier::external_body]
pub struct ExCompressTable(lz4_flex::block::CompressTable);

/// The error of the `lz4_flex` compressor.
#[verifier::external_type_specification]
#[verifier::external_body]
pub struct ExCompressError(lz4_flex::block::CompressError);

/// The error of the `lz4_flex` decompressor.
#[verifier::external_type_specification]
#[verifier::external_body]
pub struct ExDecompressError(lz4_flex::block::DecompressError);

/// The number of bytes in front of a block that hold its uncompressed size.
pub const SIZE_PREFIX: usize = 4;

/// The largest size of an LZ4 block of so many bytes.
pub open spec fn max_block_size(len: int) -> int {
    20 + len * 110 / 100
}

/// So many bytes can be compressed on this machine: the sizes that come up fit their types.
pub open spec fn compressible(len: int) -> bool {
    &&& len * 110 <= u64::MAX
    &&& SIZE_PREFIX + max_block_size(len) <= isize::MAX
}

/// The size in front of a block, as four bytes, the least significant first.
pub open spec fn size_prefix(len: int) -> Seq<u8> {
    vstd::bytes::spec_u32_to_le_bytes(len as u32)
}

/// The size that stands in front of a block.
pub open spec fn announced_size(bytes: Seq<u8>) -> u32 {
    vstd::bytes::spec_u32_from_le_bytes(bytes.take(SIZE_PREFIX as int))
}

/// A buffer of the size in front of the bytes can be made on this machine.
pub open spec fn allocatable(bytes: Seq<u8>) -> bool {
    bytes.len() >= SIZE_PREFIX ==> announced_size(bytes) <= isize::MAX
}

/// The bytes can be handed to the decompressor on this machine, whether they are a block or not:
/// none of the sizes that it may add up on the way overflows.
pub open spec fn decompressible(bytes: Seq<u8>) -> bool {
    &&& allocatable(bytes)
    &&& bytes.len() >= SIZE_PREFIX ==> announced_size(bytes) + 255 * bytes.len() + 64 <= usize::MAX
}

/// What a block with its size in front decompresses to, or `None` where it is no such block.
pub uninterp spec fn decompressed(bytes: Seq<u8>) -> Option<Seq<u8>>;

/// What a block with its size in front decompresses to with a dictionary, or `None` where it is
/// no such block.
pub uninterp spec fn dict_decompressed(bytes: Seq<u8>, dictionary: Seq<u8>) -> Option<Seq<u8>>;

/// `lz4_flex::block::get_maximum_output_size`: the formula of its source, for lengths on which
/// its arithmetic does not overflow.
pub assume_specification[ get_maximum_output_size ](input_len: usize) -> (size: usize)
    requires
        compressible(input_len as int),
    ensures
        size == max_block_size(input_len as int),
;

/// `<lz4_flex::block::CompressTable as Default>::default`: a table; nothing is said of it.
pub assume_specification[ <CompressTable as Default>::default ]() -> (table: CompressTable)
;

/// `lz4_flex::block::compress_into_with_table`: fails if and only if the buffer is smaller than
/// the largest block of such an input. Otherwise it writes a block to the front of the buffer and
/// returns its length, which is not zero. With the size of the input in front, the block
/// decompresses to the input, whatever the table was used for before. Which block it writes depends
/// on the machine and is left unsaid.
pub assume_specification[ compress_into_with_table ](
    input: &[u8],
    output: &mut [u8],
    table: &mut CompressTable,
) -> (result: Result<usize, lz4_flex::block::CompressError>)
    requires
        compressible(input@.len() as int),
    ensures
        final(output)@.len() == old(output)@.len(),
        result is Ok <==> old(output)@.len() >= max_block_size(input@.len() as int),
        result matches Ok(n) ==> {
            &&& 1 <= n <= old(output)@.len()
            &&& input@.len() <= u32::MAX ==> decompressed(
                size_prefix(input@.len() as int) + final(output)@.take(n as int),
            ) == Some(input@)
        },
;

/// `lz4_flex::block::decompress_size_prepended`: a function of the bytes alone. On bytes that it
/// decompresses it adds up no size beyond those of its input and output.
pub assume_specification[ decompress_size_prepended ](input: &[u8]) -> (result: Result<
    Vec<u8>,
    lz4_flex::block::DecompressError,
>)
    requires
        allocatable(input@),
        decompressible(input@) || decompressed(input@) is Some,
    ensures
        result is Ok <==> decompressed(input@) is Some,
        result matches Ok(bytes) ==> decompressed(input@) == Some(bytes@),
;

/// `lz4_flex::block::compress_prepend_size_with_dict`: the size of the input, as the four bytes
/// that are least significant, and a block that is not empty and no larger than the largest of
/// such an input.
/// With the same dictionary the result decompresses to the input. Which block it is depends on
/// the machine and is left unsaid.
pub assume_specification[ compress_prepend_size_with_dict ](
    input: &[u8],
    ext_dict: &[u8],
) -> (result: Vec<u8>)
    requires
        compressible(input@.len() as int),
    ensures
        SIZE_PREFIX < result@.len() <= SIZE_PREFIX + max_block_size(input@.len() as int),
        result@.take(SIZE_PREFIX as int) == size_prefix(input@.len() as int),
        input@.len() <= u32::MAX ==> dict_decompressed(result@, ext_dict@) == Some(input@),
;

/// `lz4_flex::block::decompress_size_prepended_with_dict`: a function of the bytes and the
/// dictionary alone. On bytes that it decompresses it adds up no size beyond those of its input
/// and output.
pub assume_specification[ decompress_size_prepended_with_dict ](
    input: &[u8],
    ext_dict: &[u8],
) -> (result: Result<Vec<u8>, lz4_flex::block::DecompressError>)
    requires
        allocatable(input@),
        decompressible(input@) || dict_decompressed(input@, ext_dict@) is Some,
    ensures
        result is Ok <==> dict_decompressed(input@, ext_dict@) is Some,
        result matches Ok(bytes) ==> dict_decompressed(input@, ext_dict@) == Some(bytes@),
;

/// The size in front of a block of at most `u32::MAX` bytes is their number.
pub proof fn lemma_announced_size(len: int, bytes: Seq<u8>)
    requires
        0 <= len <= u32::MAX,
        bytes.len() >= SIZE_PREFIX,
        bytes.take(SIZE_PREFIX as int) == size_prefix(len),
    ensures
        announced_size(bytes) == len,
{
    vstd::bytes::lemma_auto_spec_u32_to_from_le_bytes();
    assert(vstd::bytes::spec_u32_to_le_bytes(len as u32).len() == SIZE_PREFIX);
}

/// Compresses bytes to a block with their size in front.
pub fn compress_lz4(value: &[u8]) -> (result: Vec<u8>)
    requires
        compressible(value@.len() as int),
    ensures
        is_block_of(value@, result@),
{
    let max_compressed: usize = get_maximum_output_size(value.len());
    let mut block: Vec<u8> = vec![0u8; max_compressed];
    let mut table = CompressTable::default();
    let mut output = vstd::bytes::u32_to_le_bytes(
        #[verifier::truncate]
        (value.len() as u32),
    );
    let ghost prefix = output@;
    match compress_into_with_table(value, block.as_mut_slice(), &mut table) {
        Ok(compressed_len) => {
            block.truncate(compressed_len);
        },
        Err(_) => {
            assert(false);
        },
    }
    let ghost compressed = block@;
    output.append(&mut block);
    assert(output@ =~= prefix + compressed);
    assert(output@.take(SIZE_PREFIX as int) =~= prefix);
    proof {
        if value@.len() <= u32::MAX {
            lemma_announced_size(value@.len() as int, output@);
        }
    }
    output
}


/// Decompresses a block with its size in front.
pub fn decompress_lz4(value: &[u8]) -> (result: Vec<u8>)
    requires
        allocatable(value@),
        decompressed(value@) is Some,
    ensures
        decompressed(value@) == Some(result@),
{
    match decompress_size_prepended(value) {
        Ok(bytes) => bytes,
        Err(_) => {
            assert(false);
            Vec::new()
        },
    }
}

/// Decompresses a block that leans on a dictionary, with its size in front.
pub fn decompress_lz4_dict(value: &[u8], dictionary: &[u8]) -> (result: Vec<u8>)
    requires
        allocatable(value@),
        dict_decompressed(value@, dictionary@) is Some,
    ensures
        dict_decompressed(value@, dictionary@) == Some(result@),
{
    match decompress_size_prepended_with_dict(value, dictionary) {
        Ok(bytes) => bytes,
        Err(_) => {
            assert(false);
            Vec::new()
        },
    }
}


/// The bytes are a block of a value, with its size in front.
pub open spec fn is_block_of(value: Seq<u8>, block: Seq<u8>) -> bool {
    &&& SIZE_PREFIX < block.len() <= SIZE_PREFIX + max_block_size(value.len() as int)
    &&& block.take(SIZE_PREFIX as int) == size_prefix(value.len() as int)
    &&& value.len() <= u32::MAX ==> allocatable(block) && decompressed(block) == Some(value)
}

/// What `compress_lz4` wrote for at most `u32::MAX` bytes can be decompressed by `decompress_lz4`,
/// which gives the bytes back, whatever was compressed before.
pub proof fn law_decompress_lz4_undoes_compress_lz4(value: Seq<u8>, block: Seq<u8>, bytes: Seq<u8>)
    requires
        value.len() <= u32::MAX,
        is_block_of(value, block),
        decompressed(block) is Some ==> decompressed(block) == Some(bytes),
    ensures
        allocatable(block),
        decompressed(block) is Some,
        bytes == value,
{
}

/// Whether bytes can be handed to the decompressor on this machine.
pub fn is_decompressible(value: &[u8]) -> (result: bool)
    ensures
        result == decompressible(value@),
{
    if value.len() < SIZE_PREFIX {
        return true;
    }
    let prefix = vstd::slice::slice_subrange(value, 0, SIZE_PREFIX);
    assert(prefix@ =~= value@.take(SIZE_PREFIX as int));
    let size = vstd::bytes::u32_from_le_bytes(prefix);
    let needed: u128 = size as u128 + 255 * (value.len() as u128) + 64;
    size as u128 <= isize::MAX as u128 && needed <= usize::MAX as u128
}

/// Whether bytes are a block with its size in front.
pub fn is_block(value: &[u8]) -> (result: bool)
    ensures
        result == (decompressible(value@) && decompressed(value@) is Some),
{
    if !is_decompressible(value) {
        return false;
    }
    match decompress_size_prepended(value) {
        Ok(_) => true,
        Err(_) => false,
    }
}

/// Whether bytes are a block that leans on a dictionary, with its size in front.
pub fn is_dict_block(value: &[u8], dictionary: &[u8]) -> (result: bool)
    ensures
        result == (decompressible(value@) && dict_decompressed(value@, dictionary@) is Some),
{
    if !is_decompressible(value) {
        return false;
    }
    match decompress_size_prepended_with_dict(value, dictionary) {
        Ok(_) => true,
        Err(_) => false,
    }
}

}
