//! Extension blocks: parse and encode block-type-specific data.

pub mod bundle_age;
pub mod hop_count;
pub mod previous_node;

pub use bundle_age::BundleAge;
pub use hop_count::HopCount;
pub use previous_node::PreviousNode;

use vstd::prelude::*;

use super::error::Error;

verus! {

/// Extension block: parse and encode block-type-specific data.
///
/// The `parse` method receives the already-extracted block-type-specific
/// data bytes (CBOR). The `encode_data` method produces those bytes.
/// Both are stated over the extension's model (its view): `spec_parse`
/// says what a parse gives for given bytes, `spec_encode` which bytes
/// encode a given value.
pub trait Extension: Sized + View {
    /// Block type code for this extension.
    const BLOCK_TYPE: u64;

    /// The outcome of parsing `data`.
    spec fn spec_parse(data: Seq<u8>) -> Result<Self::V, Error>;

    /// The block-type-specific data that encodes `v`.
    spec fn spec_encode(v: Self::V) -> Seq<u8>;

    /// Parse block-type-specific data from raw bytes.
    fn parse(data: &[u8]) -> (r: Result<Self, Error>)
        ensures
            match r {
                Ok(e) => Self::spec_parse(data@) == Ok::<Self::V, Error>(e@),
                Err(e) => Self::spec_parse(data@) == Err::<Self::V, Error>(e),
            },
    ;

    /// Encode block-type-specific data to raw bytes.
    fn encode_data(&self) -> (r: Vec<u8>)
        ensures
            r@ == Self::spec_encode(self@),
    ;
}

} // verus!
