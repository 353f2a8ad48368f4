//! Values that a store can hold.

use vstd::prelude::*;

verus! {

/// A value that can be turned into bytes and back.
pub trait Blob: Sized {
    /// The bytes of the value.
    spec fn encoding(&self) -> Seq<u8>;

    /// The bytes are those of a value.
    spec fn decodes(data: Seq<u8>) -> bool;

    /// The value is the one that the bytes are read as.
    spec fn is_decoded(data: Seq<u8>, value: Self) -> bool;

    /// What is promised of reading the bytes of the value back.
    spec fn reads_back(&self) -> bool;

    /// The bytes of the value.
    fn to_bytes(&self) -> (data: Vec<u8>)
        ensures
            data@ == self.encoding(),
            self.reads_back(),
    ;

    /// Whether the bytes are those of a value.
    fn is_encoding(data: &[u8]) -> (result: bool)
        ensures
            result == Self::decodes(data@),
    ;

    /// The value that the bytes are read as.
    fn from_bytes(data: &[u8]) -> (value: Self)
        requires
            Self::decodes(data@),
        ensures
            Self::is_decoded(data@, value),
    ;
}

}
