//! Endpoint IDs (RFC 9171 §4.2.5.1).
//!
//! An EID is encoded as a two-item array: the URI scheme code and the
//! scheme-specific part. `dtn` (code 1) has a text SSP, or the integer 0
//! for the null endpoint `dtn:none`. `ipn` (code 2) has an array of node
//! and service numbers, led by the allocator ID when it is not 0.

use vstd::prelude::*;
use vstd::string::StringSliceAdditionalSpecFns;
use vstd::utf8::{encode_utf8, valid_utf8};

use crate::cbor::spec::{
    encode_head, lemma_skip_concat, UintOrTstrSpec, MAJOR_ARRAY, MAJOR_TSTR, MAJOR_UINT,
};
use crate::cbor::stream::lemma_consumed_trans;
use crate::cbor::{Decoder, Encoder, FromCbor, StreamDecoder, ToCbor, UintOrString, UintOrTstr};
use crate::io::Read;

use super::error::Error;
use super::parse::{
    buf_array_len, buf_step, buf_uint, buf_uint_or_tstr, lemma_p_array_len_roundtrip,
    lemma_p_uint_or_tstr_roundtrip, lemma_p_uint_roundtrip, lemma_p_within, lemma_rest_skip,
    p_array_len, p_uint, p_uint_or_tstr, stream_array_len, stream_step, stream_uint,
    stream_uint_or_tstr,
};

verus! {

/// URI scheme code of `dtn` endpoints.
pub const SCHEME_DTN: u64 = 1;
/// URI scheme code of `ipn` endpoints.
pub const SCHEME_IPN: u64 = 2;

/// A bundle endpoint ID.
#[derive(Debug, Clone, PartialEq, Eq)]
pub enum Eid {
    /// The null endpoint `dtn:none`.
    Null,
    /// A `dtn` endpoint; the text is the scheme-specific part, e.g. `//node1/svc`.
    Dtn(String),
    /// An `ipn` endpoint.
    Ipn { allocator_id: u64, node_number: u64, service_number: u64 },
}

/// Model of an endpoint ID; a `dtn` SSP is taken by its UTF-8 bytes.
pub enum EidView {
    Null,
    Dtn(Seq<u8>),
    Ipn { allocator_id: u64, node_number: u64, service_number: u64 },
}

impl View for Eid {
    type V = EidView;

    open spec fn view(&self) -> EidView {
        match self {
            Eid::Null => EidView::Null,
            Eid::Dtn(s) => EidView::Dtn(encode_utf8(s@)),
            Eid::Ipn { allocator_id, node_number, service_number } => EidView::Ipn {
                allocator_id: *allocator_id,
                node_number: *node_number,
                service_number: *service_number,
            },
        }
    }
}

/// The CBOR encoding of an endpoint ID.
pub open spec fn spec_encode_eid(e: EidView) -> Seq<u8> {
    encode_head(MAJOR_ARRAY, 2) + match e {
        EidView::Null => encode_head(MAJOR_UINT, SCHEME_DTN) + encode_head(MAJOR_UINT, 0),
        EidView::Dtn(b) => encode_head(MAJOR_UINT, SCHEME_DTN) + encode_head(
            MAJOR_TSTR,
            b.len() as u64,
        ) + b,
        EidView::Ipn { allocator_id, node_number, service_number } => encode_head(
            MAJOR_UINT,
            SCHEME_IPN,
        ) + if allocator_id == 0 {
            encode_head(MAJOR_ARRAY, 2) + encode_head(MAJOR_UINT, node_number) + encode_head(
                MAJOR_UINT,
                service_number,
            )
        } else {
            encode_head(MAJOR_ARRAY, 3) + encode_head(MAJOR_UINT, allocator_id) + encode_head(
                MAJOR_UINT,
                node_number,
            ) + encode_head(MAJOR_UINT, service_number)
        },
    }
}

/// Parsing the SSP of an `ipn` endpoint.
pub open spec fn spec_parse_ipn_ssp(s: Seq<u8>) -> Result<(EidView, nat), Error> {
    match p_array_len(s) {
        Err(e) => Err(e),
        Ok((len, n0)) => if len != 2 && len != 3 {
            Err(Error::InvalidEid)
        } else {
            let s1 = s.skip(n0 as int);
            match p_uint(s1) {
                Err(e) => Err(e),
                Ok((a, n1)) => {
                    let s2 = s1.skip(n1 as int);
                    match p_uint(s2) {
                        Err(e) => Err(e),
                        Ok((b, n2)) => if len == 2 {
                            Ok(
                                (
                                    EidView::Ipn { allocator_id: 0, node_number: a, service_number: b },
                                    n0 + n1 + n2,
                                ),
                            )
                        } else {
                            match p_uint(s2.skip(n2 as int)) {
                                Err(e) => Err(e),
                                Ok((c, n3)) => Ok(
                                    (
                                        EidView::Ipn {
                                            allocator_id: a,
                                            node_number: b,
                                            service_number: c,
                                        },
                                        n0 + n1 + n2 + n3,
                                    ),
                                ),
                            }
                        },
                    }
                },
            }
        },
    }
}

/// Parsing an endpoint ID: the endpoint and the bytes consumed.
pub open spec fn spec_parse_eid(s: Seq<u8>) -> Result<(EidView, nat), Error> {
    match p_array_len(s) {
        Err(e) => Err(e),
        Ok((len, n0)) => if len != 2 {
            Err(Error::InvalidEid)
        } else {
            let s1 = s.skip(n0 as int);
            match p_uint(s1) {
                Err(e) => Err(e),
                Ok((scheme, n1)) => {
                    let s2 = s1.skip(n1 as int);
                    if scheme == SCHEME_DTN {
                        match p_uint_or_tstr(s2) {
                            Err(e) => Err(e),
                            Ok((UintOrTstrSpec::Uint(v), n2)) => if v == 0 {
                                Ok((EidView::Null, n0 + n1 + n2))
                            } else {
                                Err(Error::InvalidEid)
                            },
                            Ok((UintOrTstrSpec::Tstr(b), n2)) => Ok((EidView::Dtn(b), n0 + n1 + n2)),
                        }
                    } else if scheme == SCHEME_IPN {
                        match spec_parse_ipn_ssp(s2) {
                            Err(e) => Err(e),
                            Ok((v, n2)) => Ok((v, n0 + n1 + n2)),
                        }
                    } else {
                        Err(Error::InvalidEid)
                    }
                },
            }
        },
    }
}

impl Eid {
    /// Whether this is the null endpoint `dtn:none`.
    pub fn is_null(&self) -> (r: bool)
        ensures
            r == (self@ == EidView::Null),
    {
        match self {
            Eid::Null => true,
            _ => false,
        }
    }

    /// Whether two endpoint IDs denote the same endpoint.
    pub fn same_as(&self, other: &Eid) -> (r: bool)
        ensures
            r == (self@ == other@),
    {
        match (self, other) {
            (Eid::Null, Eid::Null) => true,
            (Eid::Dtn(a), Eid::Dtn(b)) => bytes_equal(a.as_str().as_bytes(), b.as_str().as_bytes()),
            (
                Eid::Ipn { allocator_id: a1, node_number: n1, service_number: s1 },
                Eid::Ipn { allocator_id: a2, node_number: n2, service_number: s2 },
            ) => *a1 == *a2 && *n1 == *n2 && *s1 == *s2,
            _ => false,
        }
    }

    /// A copy of this endpoint ID.
    pub fn duplicate(&self) -> (r: Eid)
        ensures
            r@ == self@,
    {
        match self {
            Eid::Null => Eid::Null,
            Eid::Dtn(s) => Eid::Dtn(s.clone()),
            Eid::Ipn { allocator_id, node_number, service_number } => Eid::Ipn {
                allocator_id: *allocator_id,
                node_number: *node_number,
                service_number: *service_number,
            },
        }
    }

    fn decode_ipn_ssp_buf(dec: &mut Decoder<'_>) -> (r: Result<Eid, Error>)
        ensures
            buf_step(
                *final(dec),
                *old(dec),
                match r {
                    Ok(e) => Ok::<EidView, Error>(e@),
                    Err(e) => Err::<EidView, Error>(e),
                },
                spec_parse_ipn_ssp(old(dec).rest()),
            ),
    {
        let ghost s = old(dec).rest();
        let len = buf_array_len(dec)?;
        if len != 2 && len != 3 {
            return Err(Error::InvalidEid);
        }
        let ghost d1 = *dec;
        let ghost n0 = (*dec).pos() - old(dec).pos();
        proof {
            lemma_p_within(s);
            lemma_rest_skip(*old(dec), d1, n0 as nat);
        }
        let a = buf_uint(dec)?;
        let ghost d2 = *dec;
        proof {
            let s1 = s.skip(n0 as int);
            lemma_p_within(s1);
            lemma_rest_skip(d1, d2, (d2.pos() - d1.pos()) as nat);
        }
        let b = buf_uint(dec)?;
        if len == 2 {
            return Ok(Eid::Ipn { allocator_id: 0, node_number: a, service_number: b });
        }
        let ghost d3 = *dec;
        proof {
            lemma_p_within(d2.rest());
            lemma_rest_skip(d2, d3, (d3.pos() - d2.pos()) as nat);
        }
        let c = buf_uint(dec)?;
        Ok(Eid::Ipn { allocator_id: a, node_number: b, service_number: c })
    }

    /// Decode from a buffer-based CBOR decoder.
    pub fn decode_buf(dec: &mut Decoder<'_>) -> (r: Result<Eid, Error>)
        ensures
            buf_step(
                *final(dec),
                *old(dec),
                match r {
                    Ok(e) => Ok::<EidView, Error>(e@),
                    Err(e) => Err::<EidView, Error>(e),
                },
                spec_parse_eid(old(dec).rest()),
            ),
    {
        let ghost s = old(dec).rest();
        let len = buf_array_len(dec)?;
        if len != 2 {
            return Err(Error::InvalidEid);
        }
        let ghost d1 = *dec;
        proof {
            lemma_p_within(s);
            lemma_rest_skip(*old(dec), d1, (d1.pos() - old(dec).pos()) as nat);
        }
        let scheme = buf_uint(dec)?;
        let ghost d2 = *dec;
        proof {
            lemma_p_within(d1.rest());
            lemma_rest_skip(d1, d2, (d2.pos() - d1.pos()) as nat);
        }
        if scheme == SCHEME_DTN {
            match buf_uint_or_tstr(dec)? {
                UintOrTstr::Uint(v) => {
                    if v == 0 {
                        Ok(Eid::Null)
                    } else {
                        Err(Error::InvalidEid)
                    }
                },
                UintOrTstr::Tstr(t) => Ok(Eid::Dtn(t.to_owned())),
            }
        } else if scheme == SCHEME_IPN {
            Self::decode_ipn_ssp_buf(dec)
        } else {
            Err(Error::InvalidEid)
        }
    }

    fn decode_ipn_ssp_stream<R: Read>(dec: &mut StreamDecoder<R>) -> (r: Result<Eid, Error>)
        ensures
            stream_step(
                *final(dec),
                *old(dec),
                match r {
                    Ok(e) => Ok::<EidView, Error>(e@),
                    Err(e) => Err::<EidView, Error>(e),
                },
                spec_parse_ipn_ssp(old(dec).stream()),
            ),
    {
        let ghost s = old(dec).stream();
        let len = stream_array_len(dec)?;
        if len != 2 && len != 3 {
            return Err(Error::InvalidEid);
        }
        let ghost d1 = *dec;
        let a = stream_uint(dec)?;
        let ghost d2 = *dec;
        proof {
            lemma_p_within(s);
            lemma_p_within(d1.stream());
        }
        let b = stream_uint(dec)?;
        proof {
            let n0 = p_array_len(s)->Ok_0.1;
            let n1 = p_uint(d1.stream())->Ok_0.1;
            let n2 = p_uint(d2.stream())->Ok_0.1;
            lemma_p_within(d2.stream());
            lemma_consumed_trans(*old(dec), d1, d2, n0, n1);
            lemma_consumed_trans(*old(dec), d2, *dec, n0 + n1, n2);
        }
        if len == 2 {
            return Ok(Eid::Ipn { allocator_id: 0, node_number: a, service_number: b });
        }
        let ghost d3 = *dec;
        let c = stream_uint(dec)?;
        proof {
            let n0 = p_array_len(s)->Ok_0.1;
            let n1 = p_uint(d1.stream())->Ok_0.1;
            let n2 = p_uint(d2.stream())->Ok_0.1;
            let n3 = p_uint(d3.stream())->Ok_0.1;
            lemma_p_within(d3.stream());
            lemma_consumed_trans(*old(dec), d3, *dec, n0 + n1 + n2, n3);
        }
        Ok(Eid::Ipn { allocator_id: a, node_number: b, service_number: c })
    }

    /// Decode from a streaming CBOR decoder.
    pub fn decode_stream<R: Read>(dec: &mut StreamDecoder<R>) -> (r: Result<Eid, Error>)
        ensures
            stream_step(
                *final(dec),
                *old(dec),
                match r {
                    Ok(e) => Ok::<EidView, Error>(e@),
                    Err(e) => Err::<EidView, Error>(e),
                },
                spec_parse_eid(old(dec).stream()),
            ),
    {
        let ghost s = old(dec).stream();
        let len = stream_array_len(dec)?;
        if len != 2 {
            return Err(Error::InvalidEid);
        }
        let ghost d1 = *dec;
        let scheme = stream_uint(dec)?;
        let ghost d2 = *dec;
        proof {
            let n0 = p_array_len(s)->Ok_0.1;
            let n1 = p_uint(d1.stream())->Ok_0.1;
            lemma_p_within(s);
            lemma_p_within(d1.stream());
            lemma_consumed_trans(*old(dec), d1, d2, n0, n1);
        }
        if scheme == SCHEME_DTN {
            let item = stream_uint_or_tstr(dec)?;
            proof {
                let n0 = p_array_len(s)->Ok_0.1;
                let n1 = p_uint(d1.stream())->Ok_0.1;
                let n2 = p_uint_or_tstr(d2.stream())->Ok_0.1;
                lemma_p_within(s);
                lemma_p_within(d1.stream());
                lemma_p_within(d2.stream());
                lemma_consumed_trans(*old(dec), d2, *dec, n0 + n1, n2);
            }
            match item {
                UintOrString::Uint(v) => {
                    if v == 0 {
                        Ok(Eid::Null)
                    } else {
                        Err(Error::InvalidEid)
                    }
                },
                UintOrString::Tstr(t) => Ok(Eid::Dtn(t)),
            }
        } else if scheme == SCHEME_IPN {
            let e = Self::decode_ipn_ssp_stream(dec)?;
            proof {
                let n0 = p_array_len(s)->Ok_0.1;
                let n1 = p_uint(d1.stream())->Ok_0.1;
                let n2 = spec_parse_ipn_ssp(d2.stream())->Ok_0.1;
                lemma_consumed_trans(*old(dec), d2, *dec, n0 + n1, n2);
            }
            Ok(e)
        } else {
            Err(Error::InvalidEid)
        }
    }
}

impl ToCbor for Eid {
    open spec fn spec_cbor(&self) -> Seq<u8> {
        spec_encode_eid(self@)
    }

    fn encode(&self, enc: &mut Encoder) {
        enc.write_array(2);
        match self {
            Eid::Null => {
                enc.write_uint(SCHEME_DTN);
                enc.write_uint(0);
            },
            Eid::Dtn(s) => {
                enc.write_uint(SCHEME_DTN);
                enc.write_tstr(s.as_str());
            },
            Eid::Ipn { allocator_id, node_number, service_number } => {
                enc.write_uint(SCHEME_IPN);
                if *allocator_id == 0 {
                    enc.write_array(2);
                } else {
                    enc.write_array(3);
                    enc.write_uint(*allocator_id);
                }
                enc.write_uint(*node_number);
                enc.write_uint(*service_number);
            },
        }
        assert(enc@ == old(enc)@ + spec_encode_eid(self@));
        assert(self.spec_cbor() == spec_encode_eid(self@));
    }
}

impl<'a> FromCbor<'a> for Eid {
    type Error = Error;

    fn decode(dec: &mut Decoder<'a>) -> (r: Result<Eid, Error>)
        ensures
            buf_step(
                *final(dec),
                *old(dec),
                match r {
                    Ok(e) => Ok::<EidView, Error>(e@),
                    Err(e) => Err::<EidView, Error>(e),
                },
                spec_parse_eid(old(dec).rest()),
            ),
    {
        Eid::decode_buf(dec)
    }
}

/// Whether two byte strings are equal.
pub fn bytes_equal(a: &[u8], b: &[u8]) -> (r: bool)
    ensures
        r == (a@ == b@),
{
    if a.len() != b.len() {
        return false;
    }
    let mut i: usize = 0;
    while i < a.len()
        invariant
            a@.len() == b@.len(),
            i <= a@.len(),
            forall|j: int| 0 <= j < i ==> a@[j] == b@[j],
        decreases a@.len() - i,
    {
        if a[i] != b[i] {
            return false;
        }
        i = i + 1;
    }
    assert(a@ == b@);
    true
}

} // verus!

verus! {

impl EidView {
    /// Whether this endpoint can be written and read back: a `dtn` SSP is
    /// valid UTF-8 of representable length.
    pub open spec fn wf(self) -> bool {
        match self {
            EidView::Dtn(b) => valid_utf8(b) && b.len() <= u64::MAX,
            _ => true,
        }
    }
}

proof fn lemma_ipn_ssp_roundtrip(a: u64, n: u64, sv: u64, rest: Seq<u8>)
    ensures
        ({
            let un = encode_head(MAJOR_UINT, n);
            let us = encode_head(MAJOR_UINT, sv);
            let bytes = if a == 0 {
                encode_head(MAJOR_ARRAY, 2) + un + us
            } else {
                encode_head(MAJOR_ARRAY, 3) + encode_head(MAJOR_UINT, a) + un + us
            };
            spec_parse_ipn_ssp(bytes + rest) == Ok::<(EidView, nat), Error>(
                (EidView::Ipn { allocator_id: a, node_number: n, service_number: sv }, bytes.len()),
            )
        }),
{
    let un = encode_head(MAJOR_UINT, n);
    let us = encode_head(MAJOR_UINT, sv);
    if a == 0 {
        let h2 = encode_head(MAJOR_ARRAY, 2);
        assert(h2 + un + us + rest == h2 + (un + (us + rest)));
        lemma_p_array_len_roundtrip(2, un + (us + rest));
        lemma_skip_concat(h2, un + (us + rest));
        lemma_p_uint_roundtrip(n, us + rest);
        lemma_skip_concat(un, us + rest);
        lemma_p_uint_roundtrip(sv, rest);
    } else {
        let h3 = encode_head(MAJOR_ARRAY, 3);
        let ua = encode_head(MAJOR_UINT, a);
        assert(h3 + ua + un + us + rest == h3 + (ua + (un + (us + rest))));
        lemma_p_array_len_roundtrip(3, ua + (un + (us + rest)));
        lemma_skip_concat(h3, ua + (un + (us + rest)));
        lemma_p_uint_roundtrip(a, un + (us + rest));
        lemma_skip_concat(ua, un + (us + rest));
        lemma_p_uint_roundtrip(n, us + rest);
        lemma_skip_concat(un, us + rest);
        lemma_p_uint_roundtrip(sv, rest);
    }
}

/// Reading an endpoint ID gives back the endpoint written, whatever follows it.
pub proof fn lemma_eid_roundtrip(e: EidView, rest: Seq<u8>)
    requires
        e.wf(),
    ensures
        spec_parse_eid(spec_encode_eid(e) + rest) == Ok::<(EidView, nat), Error>(
            (e, spec_encode_eid(e).len()),
        ),
{
    let h = encode_head(MAJOR_ARRAY, 2);
    let s = spec_encode_eid(e) + rest;
    match e {
        EidView::Null => {
            let a = encode_head(MAJOR_UINT, SCHEME_DTN);
            let b = encode_head(MAJOR_UINT, 0);
            assert(s == h + (a + (b + rest)));
            lemma_p_array_len_roundtrip(2, a + (b + rest));
            lemma_skip_concat(h, a + (b + rest));
            lemma_p_uint_roundtrip(SCHEME_DTN, b + rest);
            lemma_skip_concat(a, b + rest);
            lemma_p_uint_or_tstr_roundtrip(0, Seq::empty(), rest);
        },
        EidView::Dtn(bytes) => {
            let a = encode_head(MAJOR_UINT, SCHEME_DTN);
            let t = encode_head(MAJOR_TSTR, bytes.len() as u64);
            assert(s == h + (a + (t + bytes + rest)));
            lemma_p_array_len_roundtrip(2, a + (t + bytes + rest));
            lemma_skip_concat(h, a + (t + bytes + rest));
            lemma_p_uint_roundtrip(SCHEME_DTN, t + bytes + rest);
            lemma_skip_concat(a, t + bytes + rest);
            lemma_p_uint_or_tstr_roundtrip(0, bytes, rest);
        },
        EidView::Ipn { allocator_id, node_number, service_number } => {
            let a = encode_head(MAJOR_UINT, SCHEME_IPN);
            let un = encode_head(MAJOR_UINT, node_number);
            let us = encode_head(MAJOR_UINT, service_number);
            let ssp = if allocator_id == 0 {
                encode_head(MAJOR_ARRAY, 2) + un + us
            } else {
                encode_head(MAJOR_ARRAY, 3) + encode_head(MAJOR_UINT, allocator_id) + un + us
            };
            assert(spec_encode_eid(e) == h + a + ssp);
            assert(s == h + (a + (ssp + rest)));
            lemma_p_array_len_roundtrip(2, a + (ssp + rest));
            lemma_skip_concat(h, a + (ssp + rest));
            lemma_p_uint_roundtrip(SCHEME_IPN, ssp + rest);
            lemma_skip_concat(a, ssp + rest);
            lemma_ipn_ssp_roundtrip(allocator_id, node_number, service_number, rest);
        },
    }
}

} // verus!
