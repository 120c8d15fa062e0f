//! Minimal CBOR codec for the BPv7 subset.
//!
//! Buffer-based ([`Decoder`]/[`Encoder`]) for in-memory bundles.
//! Streaming ([`StreamDecoder`]/[`StreamEncoder`]) for any I/O source.

pub mod error;
pub mod spec;
pub mod stream;
pub mod decode;
pub mod encode;

pub use decode::{Decoder, UintOrTstr};
pub use encode::Encoder;
pub use error::Error;
pub use stream::{StreamDecoder, StreamEncoder, UintOrString};

use vstd::prelude::*;

verus! {

/// Decode a value from a CBOR [`Decoder`].
pub trait FromCbor<'a>: Sized {
    type Error;

    fn decode(dec: &mut Decoder<'a>) -> Result<Self, Self::Error>;
}

/// Encode a value to a CBOR [`Encoder`].
pub trait ToCbor {
    /// The bytes that encoding `self` appends.
    spec fn spec_cbor(&self) -> Seq<u8>;

    fn encode(&self, enc: &mut Encoder)
        ensures
            final(enc)@ == old(enc)@ + self.spec_cbor(),
    ;
}

} // verus!
