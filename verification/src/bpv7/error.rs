//! Errors of BPv7 processing.

use vstd::prelude::*;

use crate::cbor::Error as CborError;

use super::filter::FilterRejection;

verus! {

/// A BPv7 decoding, validation or streaming failure.
#[derive(Debug, Clone, PartialEq, Eq)]
pub enum Error {
    /// The CBOR layer failed.
    Cbor(CborError),
    /// A block array or a nested array has the wrong number of items.
    InvalidBlockLength { expected: &'static str, actual: usize },
    /// An integer does not fit the field it is read into.
    IntegerOverflow,
    /// A CRC type code other than 0, 1 or 2.
    InvalidCrcType(u64),
    /// A CRC value of the wrong size.
    InvalidCrcLength { expected: usize, actual: usize },
    /// The CRC field lies outside the block bytes.
    CrcOutOfBounds,
    /// The CRC does not match the block contents.
    CrcMismatch,
    /// A primary block version other than 7.
    UnsupportedVersion(u8),
    /// Bundle processing control flags that contradict each other or the bundle.
    InvalidFlags,
    /// An endpoint ID that is not well formed.
    InvalidEid,
    /// Two blocks share a block number.
    DuplicateBlockNumber(u64),
    /// A bundle does not have exactly one payload block.
    InvalidPayloadCount(usize),
    /// The block's data is held in retention, not in memory.
    PayloadNotInline,
    /// The block is not of the extension's type.
    BlockTypeMismatch { expected: u64, actual: u64 },
    /// The bundle ended, or an operation came, before the bundle was complete.
    IncompleteRead,
    /// The payload must be consumed (or not yet be started) for this operation.
    PayloadNotConsumed,
    /// More payload data was written than announced.
    PayloadOverflow,
    /// A retention holds no data.
    EmptyRetention,
    /// A filter rejected the bundle.
    FilterRejected(FilterRejection),
}

} // verus!
