//! Hop Count Block (RFC 9171 §4.4.3).

use vstd::prelude::*;

use crate::cbor::spec::{encode_head, lemma_skip_concat, MAJOR_ARRAY, MAJOR_UINT};
use crate::cbor::{Decoder, Encoder};

use crate::bpv7::error::Error;
use crate::bpv7::parse::{
    buf_array_len, buf_uint, lemma_p_array_len_roundtrip, lemma_p_uint_roundtrip, lemma_p_within,
    lemma_rest_skip, p_array_len, p_uint,
};

use super::Extension;

verus! {

/// Hop Count Block (RFC 9171 §4.4.3), block type 10.
#[derive(Debug, Clone, Copy, PartialEq, Eq, Structural)]
pub struct HopCount {
    pub limit: u8,
    pub count: u8,
}

impl View for HopCount {
    type V = HopCount;

    open spec fn view(&self) -> HopCount {
        *self
    }
}

impl HopCount {
    /// Whether the bundle has travelled more hops than its limit allows.
    #[inline]
    pub fn exceeded(&self) -> (r: bool)
        ensures
            r == (self.count > self.limit),
    {
        self.count > self.limit
    }
}

/// The block-type-specific data of a hop count block: `[limit, count]`.
pub open spec fn spec_encode_hop_count(h: HopCount) -> Seq<u8> {
    encode_head(MAJOR_ARRAY, 2) + encode_head(MAJOR_UINT, h.limit as u64) + encode_head(
        MAJOR_UINT,
        h.count as u64,
    )
}

/// Parsing hop count data: a two-item array of integers that each fit a byte.
/// Bytes after the array are ignored.
pub open spec fn spec_parse_hop_count(s: Seq<u8>) -> Result<HopCount, Error> {
    match p_array_len(s) {
        Err(e) => Err(e),
        Ok((len, n0)) => if len != 2 {
            Err(Error::InvalidBlockLength { expected: "2", actual: len })
        } else {
            match p_uint(s.skip(n0 as int)) {
                Err(e) => Err(e),
                Ok((limit, n1)) => if limit > 255 {
                    Err(Error::IntegerOverflow)
                } else {
                    match p_uint(s.skip((n0 + n1) as int)) {
                        Err(e) => Err(e),
                        Ok((count, _)) => if count > 255 {
                            Err(Error::IntegerOverflow)
                        } else {
                            Ok(HopCount { limit: limit as u8, count: count as u8 })
                        },
                    }
                },
            }
        },
    }
}

impl Extension for HopCount {
    const BLOCK_TYPE: u64 = 10;

    open spec fn spec_parse(data: Seq<u8>) -> Result<HopCount, Error> {
        spec_parse_hop_count(data)
    }

    open spec fn spec_encode(v: HopCount) -> Seq<u8> {
        spec_encode_hop_count(v)
    }

    fn parse(data: &[u8]) -> (r: Result<Self, Error>) {
        let mut dec = Decoder::new(data);
        let ghost d0 = dec;
        proof {
            assert(d0.rest() =~= data@);
        }
        let len = buf_array_len(&mut dec)?;
        if len != 2 {
            return Err(Error::InvalidBlockLength { expected: "2", actual: len });
        }
        let ghost d1 = dec;
        proof {
            lemma_p_within(data@);
            lemma_rest_skip(d0, d1, (d1.pos() - d0.pos()) as nat);
        }
        let limit = buf_uint(&mut dec)?;
        if limit > 255 {
            return Err(Error::IntegerOverflow);
        }
        let ghost d2 = dec;
        proof {
            lemma_p_within(d1.rest());
            lemma_rest_skip(d1, d2, (d2.pos() - d1.pos()) as nat);
            assert(d2.rest() =~= data@.skip(d2.pos() as int));
        }
        let count = buf_uint(&mut dec)?;
        if count > 255 {
            return Err(Error::IntegerOverflow);
        }
        Ok(HopCount { limit: limit as u8, count: count as u8 })
    }

    fn encode_data(&self) -> (r: Vec<u8>) {
        let mut enc = Encoder::new();
        enc.write_array(2);
        enc.write_uint(self.limit as u64);
        enc.write_uint(self.count as u64);
        enc.into_bytes()
    }
}

/// Parsing the data of a hop count block gives back the hop count encoded,
/// whatever follows it.
pub proof fn lemma_hop_count_roundtrip(h: HopCount, rest: Seq<u8>)
    ensures
        spec_parse_hop_count(spec_encode_hop_count(h) + rest) == Ok::<HopCount, Error>(h),
{
    let a = encode_head(MAJOR_ARRAY, 2);
    let l = encode_head(MAJOR_UINT, h.limit as u64);
    let c = encode_head(MAJOR_UINT, h.count as u64);
    assert(spec_encode_hop_count(h) + rest == a + (l + (c + rest)));
    lemma_p_array_len_roundtrip(2, l + (c + rest));
    lemma_skip_concat(a, l + (c + rest));
    lemma_p_uint_roundtrip(h.limit as u64, c + rest);
    lemma_skip_concat(l, c + rest);
    assert((a + (l + (c + rest))).skip((a.len() + l.len()) as int) =~= c + rest);
    lemma_p_uint_roundtrip(h.count as u64, rest);
}

} // verus!
