//! Bundle Age Block (RFC 9171 §4.4.2).

use vstd::prelude::*;

use crate::cbor::spec::{encode_head, MAJOR_UINT};
use crate::cbor::{Decoder, Encoder};

use crate::bpv7::error::Error;
use crate::bpv7::parse::{buf_uint, lemma_p_uint_roundtrip, p_uint};

use super::Extension;

verus! {

/// Bundle Age Block (RFC 9171 §4.4.2), block type 7: the time elapsed
/// since the bundle's creation, in milliseconds.
#[derive(Debug, Clone, Copy, PartialEq, Eq, Structural)]
pub struct BundleAge {
    pub millis: u64,
}

impl View for BundleAge {
    type V = BundleAge;

    open spec fn view(&self) -> BundleAge {
        *self
    }
}

/// Parsing bundle age data: one unsigned integer. Bytes after it are ignored.
pub open spec fn spec_parse_bundle_age(s: Seq<u8>) -> Result<BundleAge, Error> {
    match p_uint(s) {
        Ok((millis, _)) => Ok(BundleAge { millis }),
        Err(e) => Err(e),
    }
}

impl Extension for BundleAge {
    const BLOCK_TYPE: u64 = 7;

    open spec fn spec_parse(data: Seq<u8>) -> Result<BundleAge, Error> {
        spec_parse_bundle_age(data)
    }

    open spec fn spec_encode(v: BundleAge) -> Seq<u8> {
        encode_head(MAJOR_UINT, v.millis)
    }

    fn parse(data: &[u8]) -> (r: Result<Self, Error>) {
        let mut dec = Decoder::new(data);
        proof {
            assert(dec.rest() =~= data@);
        }
        let millis = buf_uint(&mut dec)?;
        Ok(BundleAge { millis })
    }

    fn encode_data(&self) -> (r: Vec<u8>) {
        let mut enc = Encoder::new();
        enc.write_uint(self.millis);
        proof {
            assert(enc@ =~= encode_head(MAJOR_UINT, self.millis));
        }
        enc.into_bytes()
    }
}

/// Parsing the data of a bundle age block gives back the age encoded,
/// whatever follows it.
pub proof fn lemma_bundle_age_roundtrip(a: BundleAge, rest: Seq<u8>)
    ensures
        spec_parse_bundle_age(encode_head(MAJOR_UINT, a.millis) + rest) == Ok::<BundleAge, Error>(a),
{
    lemma_p_uint_roundtrip(a.millis, rest);
}

} // verus!
