//! Canonical bundle blocks (RFC 9171 §4.3.2): extension blocks and the
//! payload block.

use vstd::prelude::*;

use crate::cbor::spec::{
    encode_head, lemma_head_roundtrip, lemma_skip_concat, spec_read_bstr, spec_typed_head,
    MAJOR_ARRAY, MAJOR_BSTR, MAJOR_UINT,
};
use crate::cbor::stream::advance_pos;
use crate::cbor::{Decoder, Encoder, StreamDecoder, ToCbor};
use crate::io::Read;

use crate::bpv7::crc::{stream_failure, Crc};
use crate::bpv7::error::Error;
use crate::bpv7::extension::Extension;
use crate::bpv7::parse::{
    lemma_p_array_len_roundtrip, lemma_p_bstr_roundtrip, lemma_p_uint_roundtrip, lemma_p_within,
    p_array_len, p_bstr, p_uint,
};
use crate::bpv7::source::{p_crc, BlockSource};

use super::primary::{block_step, lemma_p_crc_roundtrip};

verus! {

/// Block processing control flags (RFC 9171 §4.2.4).
#[derive(Debug, Clone, Copy, PartialEq, Eq, Structural)]
pub struct BlockFlags(u64);

impl BlockFlags {
    /// The raw flag bits.
    pub closed spec fn spec_bits(self) -> u64 {
        self.0
    }

    /// The flags with the given raw bits.
    pub closed spec fn spec_from_bits(bits: u64) -> BlockFlags {
        BlockFlags(bits)
    }

    /// Flags are exactly their bits.
    pub proof fn lemma_bits(bits: u64, f: BlockFlags)
        ensures
            Self::spec_from_bits(bits).spec_bits() == bits,
            Self::spec_from_bits(f.spec_bits()) == f,
    {
    }

    #[inline]
    pub fn from_bits(bits: u64) -> (r: Self)
        ensures
            r == Self::spec_from_bits(bits),
            r.spec_bits() == bits,
    {
        Self(bits)
    }

    #[inline]
    pub fn bits(self) -> (r: u64)
        ensures
            r == self.spec_bits(),
    {
        self.0
    }

    #[inline]
    pub fn must_replicate(self) -> (r: bool)
        ensures
            r == (self.spec_bits() & 0x01 != 0),
    {
        self.0 & 0x01 != 0
    }

    #[inline]
    pub fn report_on_failure(self) -> (r: bool)
        ensures
            r == (self.spec_bits() & 0x02 != 0),
    {
        self.0 & 0x02 != 0
    }

    #[inline]
    pub fn delete_bundle_on_failure(self) -> (r: bool)
        ensures
            r == (self.spec_bits() & 0x04 != 0),
    {
        self.0 & 0x04 != 0
    }

    #[inline]
    pub fn discard_on_failure(self) -> (r: bool)
        ensures
            r == (self.spec_bits() & 0x10 != 0),
    {
        self.0 & 0x10 != 0
    }
}

/// Block-type-specific data.
#[derive(Debug, Clone, PartialEq, Eq)]
pub enum BlockData {
    /// Data is fully in memory (extension blocks).
    Inline(Vec<u8>),
    /// Data lives in the retention backend at the given range (payload block).
    Retained { offset: u64, len: u64 },
}

/// Model of block data.
pub enum BlockDataView {
    Inline(Seq<u8>),
    Retained { offset: u64, len: u64 },
}

impl View for BlockData {
    type V = BlockDataView;

    open spec fn view(&self) -> BlockDataView {
        match self {
            BlockData::Inline(d) => BlockDataView::Inline(d@),
            BlockData::Retained { offset, len } => BlockDataView::Retained {
                offset: *offset,
                len: *len,
            },
        }
    }
}

/// Canonical bundle block (RFC 9171 §4.3.2).
///
/// Represents both extension blocks and the payload block. The data
/// is either [`Inline`](BlockData::Inline) (extensions, always small) or
/// [`Retained`](BlockData::Retained) (payload, stored in the retention backend).
#[derive(Debug, Clone, PartialEq, Eq)]
pub struct CanonicalBlock {
    pub block_type: u64,
    pub block_number: u64,
    pub flags: BlockFlags,
    pub crc: Crc,
    pub data: BlockData,
}

/// Model of a canonical block.
pub struct CanonicalBlockView {
    pub block_type: u64,
    pub block_number: u64,
    pub flags: BlockFlags,
    pub crc: Crc,
    pub data: BlockDataView,
}

impl View for CanonicalBlock {
    type V = CanonicalBlockView;

    open spec fn view(&self) -> CanonicalBlockView {
        CanonicalBlockView {
            block_type: self.block_type,
            block_number: self.block_number,
            flags: self.flags,
            crc: self.crc,
            data: self.data@,
        }
    }
}

/// Payload block type code (RFC 9171 §4.3.3).
pub const PAYLOAD_BLOCK_TYPE: u64 = 1;

/// Payload block number (RFC 9171 §4.3.3).
pub const PAYLOAD_BLOCK_NUMBER: u64 = 1;

/// The encoding of an in-memory block up to (excluding) its CRC field.
pub open spec fn spec_block_body(b: CanonicalBlockView, data: Seq<u8>) -> Seq<u8> {
    encode_head(
        MAJOR_ARRAY,
        if b.crc == Crc::NoCrc {
            5
        } else {
            6
        },
    ) + encode_head(MAJOR_UINT, b.block_type) + encode_head(MAJOR_UINT, b.block_number)
        + encode_head(MAJOR_UINT, b.flags.spec_bits()) + encode_head(
        MAJOR_UINT,
        b.crc.spec_crc_type(),
    ) + encode_head(MAJOR_BSTR, data.len() as u64) + data
}

/// The CBOR encoding of a block: the block with its CRC field for
/// in-memory data; nothing for retained data (it is written by streaming).
pub open spec fn spec_encode_block(b: CanonicalBlockView) -> Seq<u8> {
    match b.data {
        BlockDataView::Inline(d) => spec_block_body(b, d) + b.crc.spec_crc_field(spec_block_body(b, d)),
        BlockDataView::Retained { .. } => Seq::empty(),
    }
}

/// Parsing the leading fields of a canonical block: the array length, the
/// block type, the block number, the flag bits and the CRC type.
#[verifier::opaque]
pub open spec fn spec_parse_block_head(s: Seq<u8>) -> Result<((usize, u64, u64, u64, u64), nat), Error> {
    match p_array_len(s) {
        Err(e) => Err(e),
        Ok((len, n0)) => if len != 5 && len != 6 {
            Err(Error::InvalidBlockLength { expected: "5-6", actual: len })
        } else {
            let s1 = s.skip(n0 as int);
            match p_uint(s1) {
                Err(e) => Err(e),
                Ok((bt, n1)) => {
                    let s2 = s1.skip(n1 as int);
                    match p_uint(s2) {
                        Err(e) => Err(e),
                        Ok((bn, n2)) => {
                            let s3 = s2.skip(n2 as int);
                            match p_uint(s3) {
                                Err(e) => Err(e),
                                Ok((fl, n3)) => match p_uint(s3.skip(n3 as int)) {
                                    Err(e) => Err(e),
                                    Ok((ct, n4)) => Ok(((len, bt, bn, fl, ct), n0 + n1 + n2 + n3 + n4)),
                                },
                            }
                        },
                    }
                },
            }
        },
    }
}

/// Reading an optional CRC of type `crc_type` (none for type 0).
pub open spec fn p_crc_opt(s: Seq<u8>, crc_type: u64) -> Result<(Crc, nat), Error> {
    if crc_type != 0 {
        p_crc(s, crc_type)
    } else {
        Ok((Crc::NoCrc, 0))
    }
}

/// Parsing a canonical block with the buffer-based decoder, whose input
/// `s` starts at absolute position `base`: the block, whether it is the
/// payload block (whose data stays in the input), and the bytes consumed.
pub open spec fn spec_parse_block_buf(s: Seq<u8>, base: nat) -> Result<((CanonicalBlockView, bool), nat), Error> {
    match spec_parse_block_head(s) {
        Err(e) => Err(e),
        Ok(((_, bt, bn, fl, ct), n0)) => {
            let s1 = s.skip(n0 as int);
            if bt == PAYLOAD_BLOCK_TYPE {
                match spec_read_bstr(s1) {
                    (Err(e), _) => Err(Error::Cbor(e)),
                    (Ok((data, off)), n1) => match p_crc_opt(s1.skip(n1 as int), ct) {
                        Err(e) => Err(e),
                        Ok((crc, n2)) => Ok(
                            (
                                (
                                    CanonicalBlockView {
                                        block_type: bt,
                                        block_number: bn,
                                        flags: BlockFlags::spec_from_bits(fl),
                                        crc,
                                        data: BlockDataView::Retained {
                                            offset: (base + n0 + off) as u64,
                                            len: data.len() as u64,
                                        },
                                    },
                                    true,
                                ),
                                n0 + n1 + n2,
                            ),
                        ),
                    },
                }
            } else {
                match p_bstr(s1) {
                    Err(e) => Err(e),
                    Ok((data, n1)) => match p_crc_opt(s1.skip(n1 as int), ct) {
                        Err(e) => Err(e),
                        Ok((crc, n2)) => Ok(
                            (
                                (
                                    CanonicalBlockView {
                                        block_type: bt,
                                        block_number: bn,
                                        flags: BlockFlags::spec_from_bits(fl),
                                        crc,
                                        data: BlockDataView::Inline(data),
                                    },
                                    false,
                                ),
                                n0 + n1 + n2,
                            ),
                        ),
                    },
                }
            }
        },
    }
}

/// Reading a byte string header: the content length and the bytes consumed.
pub open spec fn p_bstr_header(s: Seq<u8>) -> Result<(u64, nat), Error> {
    match spec_typed_head(s, MAJOR_BSTR, "bstr") {
        (Ok((v, n)), _) => Ok((v, n)),
        (Err(e), _) => Err(Error::Cbor(e)),
    }
}

/// Parsing a canonical block with the streaming decoder, whose position is
/// `pos`: the block, whether it is the payload block, and the bytes
/// consumed. Of a payload block only the header is read: its data (and its
/// CRC) follow in the stream, and its CRC is a placeholder.
pub open spec fn spec_parse_block_stream(s: Seq<u8>, pos: u64) -> Result<((CanonicalBlockView, bool), nat), Error> {
    match spec_parse_block_head(s) {
        Err(e) => Err(e),
        Ok(((_, bt, bn, fl, ct), n0)) => {
            let s1 = s.skip(n0 as int);
            if bt == PAYLOAD_BLOCK_TYPE {
                match p_bstr_header(s1) {
                    Err(e) => Err(e),
                    Ok((data_len, n1)) => match Crc::spec_placeholder(ct) {
                        Err(e) => Err(e),
                        Ok(crc) => Ok(
                            (
                                (
                                    CanonicalBlockView {
                                        block_type: bt,
                                        block_number: bn,
                                        flags: BlockFlags::spec_from_bits(fl),
                                        crc,
                                        data: BlockDataView::Retained {
                                            offset: advance_pos(pos, n0 + n1),
                                            len: data_len,
                                        },
                                    },
                                    true,
                                ),
                                n0 + n1,
                            ),
                        ),
                    },
                }
            } else {
                match p_bstr(s1) {
                    Err(e) => Err(e),
                    Ok((data, n1)) => match p_crc_opt(s1.skip(n1 as int), ct) {
                        Err(e) => Err(e),
                        Ok((crc, n2)) => Ok(
                            (
                                (
                                    CanonicalBlockView {
                                        block_type: bt,
                                        block_number: bn,
                                        flags: BlockFlags::spec_from_bits(fl),
                                        crc,
                                        data: BlockDataView::Inline(data),
                                    },
                                    false,
                                ),
                                n0 + n1 + n2,
                            ),
                        ),
                    },
                }
            }
        },
    }
}

/// Chaining two parse steps.
proof fn lemma_chain<D: BlockSource>(d0: D, d1: D, d2: D, a: nat, b: nat)
    requires
        d1.source() == d0.source(),
        d2.source() == d1.source(),
        d1.advanced(&d0, a),
        a <= d0.input().len(),
        d2.advanced(&d1, b),
        b <= d1.input().len(),
    ensures
        d2.source() == d0.source(),
        d2.advanced(&d0, a + b),
        d1.input() == d0.input().skip(a as int),
        a + b <= d0.input().len(),
{
    D::lemma_advanced(d0, d1, a);
    D::lemma_advanced_trans(d0, d1, d2, a, b);
}

fn decode_block_head<D: BlockSource>(dec: &mut D) -> (r: Result<(usize, u64, u64, u64, u64), Error>)
    ensures
        block_step(*final(dec), *old(dec), r, spec_parse_block_head(old(dec).input())),
{
    proof {
        reveal(spec_parse_block_head);
    }
    let ghost d0 = *dec;
    let len = dec.src_array_len()?;
    if len != 5 && len != 6 {
        return Err(Error::InvalidBlockLength { expected: "5-6", actual: len });
    }
    let ghost d1 = *dec;
    let ghost n0 = p_array_len(d0.input())->Ok_0.1;
    proof {
        D::lemma_advanced(d0, d1, n0);
    }
    let block_type = dec.src_uint()?;
    let ghost d2 = *dec;
    let ghost n1 = p_uint(d1.input())->Ok_0.1;
    proof {
        lemma_chain(d0, d1, d2, n0, n1);
        D::lemma_advanced(d1, d2, n1);
    }
    let block_number = dec.src_uint()?;
    let ghost d3 = *dec;
    let ghost n2 = p_uint(d2.input())->Ok_0.1;
    proof {
        lemma_chain(d0, d2, d3, n0 + n1, n2);
        D::lemma_advanced(d2, d3, n2);
    }
    let flags = dec.src_uint()?;
    let ghost d4 = *dec;
    let ghost n3 = p_uint(d3.input())->Ok_0.1;
    proof {
        lemma_chain(d0, d3, d4, n0 + n1 + n2, n3);
        D::lemma_advanced(d3, d4, n3);
    }
    let crc_type = dec.src_uint()?;
    proof {
        let n4 = p_uint(d4.input())->Ok_0.1;
        lemma_chain(d0, d4, *dec, n0 + n1 + n2 + n3, n4);
    }
    Ok((len, block_type, block_number, flags, crc_type))
}

fn decode_crc_opt<D: BlockSource>(dec: &mut D, crc_type: u64) -> (r: Result<Crc, Error>)
    ensures
        block_step(*final(dec), *old(dec), r, p_crc_opt(old(dec).input(), crc_type)),
{
    if crc_type != 0 {
        dec.src_crc(crc_type)
    } else {
        proof {
            D::lemma_advanced_zero(*dec);
        }
        Ok(Crc::NoCrc)
    }
}

impl CanonicalBlock {
    pub fn is_payload(&self) -> (r: bool)
        ensures
            r == (self.block_type == PAYLOAD_BLOCK_TYPE),
    {
        self.block_type == PAYLOAD_BLOCK_TYPE
    }

    /// Decode from a buffer-based CBOR decoder.
    ///
    /// Extension blocks are fully read. Of the payload block the data is
    /// located in the input, not copied. Returns the block and whether it is
    /// the payload block.
    pub fn decode_buf(dec: &mut Decoder<'_>) -> (r: Result<(Self, bool), Error>)
        ensures
            final(dec).data() == old(dec).data(),
            match spec_parse_block_buf(old(dec).rest(), old(dec).pos()) {
                Ok(((v, p), n)) => r matches Ok((b, q)) && b@ == v && q == p && final(dec).pos()
                    == old(dec).pos() + n,
                Err(e) => r == Err::<(CanonicalBlock, bool), Error>(e),
            },
    {
        proof {
            reveal(p_bstr);
        }
        let ghost d0 = *dec;
        let (_, block_type, block_number, flags, crc_type) = decode_block_head(dec)?;
        let ghost d1 = *dec;
        let ghost n0 = spec_parse_block_head(d0.rest())->Ok_0.1;
        proof {
            <Decoder as BlockSource>::lemma_advanced(d0, d1, n0);
        }
        let flags = BlockFlags::from_bits(flags);
        if block_type == PAYLOAD_BLOCK_TYPE {
            let (data, offset) = match dec.read_bstr_with_offset() {
                Ok(x) => x,
                Err(e) => {
                    return Err(Error::Cbor(e));
                },
            };
            let ghost d2 = *dec;
            let ghost n1 = spec_read_bstr(d1.rest()).1;
            proof {
                d1.lemma_pos_bound();
                <Decoder as BlockSource>::lemma_advanced(d1, d2, n1);
            }
            let data_len = data.len() as u64;
            let crc = decode_crc_opt(dec, crc_type)?;
            let block = CanonicalBlock {
                block_type,
                block_number,
                flags,
                crc,
                data: BlockData::Retained { offset: offset as u64, len: data_len },
            };
            Ok((block, true))
        } else {
            let data = match dec.read_bstr() {
                Ok(x) => x,
                Err(e) => {
                    return Err(Error::Cbor(e));
                },
            };
            let ghost d2 = *dec;
            let ghost n1 = spec_read_bstr(d1.rest()).1;
            proof {
                reveal(p_bstr);
                d1.lemma_pos_bound();
                <Decoder as BlockSource>::lemma_advanced(d1, d2, n1);
            }
            let crc = decode_crc_opt(dec, crc_type)?;
            let block = CanonicalBlock {
                block_type,
                block_number,
                flags,
                crc,
                data: BlockData::Inline(copy_bytes(data)),
            };
            Ok((block, false))
        }
    }

    /// Decode from a streaming CBOR decoder.
    ///
    /// Of the payload block only the header is read: its data follows in the
    /// stream. Returns the block and whether it is the payload block.
    pub fn decode_stream<R: Read>(dec: &mut StreamDecoder<R>) -> (r: Result<(Self, bool), Error>)
        ensures
            r matches Ok((b, q)) ==> (spec_parse_block_stream(old(dec).stream(), old(dec).pos()) matches Ok(
                ((v, p), n),
            ) && b@ == v && q == p && 1 <= n <= old(dec).stream().len() && final(dec).consumed(*old(dec), n)),
            r matches Ok((_, true)) ==> final(dec).peeked() is None,
            r matches Err(e) ==> stream_failure(
                e,
                spec_parse_block_stream(old(dec).stream(), old(dec).pos()),
                old(dec).spec_reader().reliable(),
            ),
    {
        proof {
            reveal(p_bstr);
        }
        let ghost d0 = *dec;
        let (_, block_type, block_number, flags, crc_type) = decode_block_head(dec)?;
        let ghost d1 = *dec;
        let ghost n0 = spec_parse_block_head(d0.stream())->Ok_0.1;
        let flags = BlockFlags::from_bits(flags);
        if block_type == PAYLOAD_BLOCK_TYPE {
            let data_len = match dec.read_bstr_header() {
                Ok(x) => x,
                Err(e) => {
                    return Err(Error::Cbor(e));
                },
            };
            let offset = dec.position();
            proof {
                let n1 = spec_typed_head(d1.stream(), MAJOR_BSTR, "bstr").1;
                assert(n1 <= d1.stream().len());
                crate::cbor::stream::lemma_consumed_trans(d0, d1, *dec, n0, n1);
            }
            let crc = if crc_type != 0 {
                Crc::placeholder(crc_type)?
            } else {
                Crc::NoCrc
            };
            let block = CanonicalBlock {
                block_type,
                block_number,
                flags,
                crc,
                data: BlockData::Retained { offset, len: data_len },
            };
            Ok((block, true))
        } else {
            let data = match dec.read_bstr() {
                Ok(x) => x,
                Err(e) => {
                    return Err(Error::Cbor(e));
                },
            };
            let ghost d2 = *dec;
            let ghost n1 = spec_read_bstr(d1.stream()).1;
            proof {
                reveal(p_bstr);
                lemma_p_within(d1.stream());
                crate::cbor::stream::lemma_consumed_trans(d0, d1, d2, n0, n1);
            }
            let crc = decode_crc_opt(dec, crc_type)?;
            proof {
                let n2 = p_crc_opt(d2.stream(), crc_type)->Ok_0.1;
                crate::cbor::stream::lemma_consumed_trans(d0, d2, *dec, n0 + n1, n2);
            }
            let block = CanonicalBlock {
                block_type,
                block_number,
                flags,
                crc,
                data: BlockData::Inline(data),
            };
            Ok((block, false))
        }
    }

    /// Verify the CRC of an inline (extension) block.
    ///
    /// Re-encodes the block, zeros the CRC field, and compares.
    /// Returns `Ok(())` for blocks with no CRC.
    pub fn verify_crc(&self) -> (r: Result<(), Error>)
        requires
            self.data is Inline || self.crc == Crc::NoCrc,
        ensures
            r == (if self.crc == Crc::NoCrc {
                Ok(())
            } else {
                self.crc.spec_verify(
                    spec_encode_block(self@),
                    spec_encode_block(self@).len() - self.crc.spec_value_size(),
                )
            }),
    {
        if self.crc.is_none() {
            return Ok(());
        }
        let mut enc = Encoder::with_capacity(64);
        self.encode(&mut enc);
        let bytes = enc.as_bytes();
        let crc_size = self.crc.value_size();
        proof {
            assert(bytes@ =~= spec_encode_block(self@));
            let d = self.data->Inline_0@;
            assert(self.crc.spec_finalized(spec_block_body(self@, d)).spec_value_bytes().len()
                == crc_size);
        }
        let crc_data_offset = bytes.len() - crc_size;
        self.crc.verify(bytes, crc_data_offset)
    }

    pub fn inline_data(&self) -> (r: Option<&[u8]>)
        ensures
            match self.data {
                BlockData::Inline(d) => r matches Some(x) && x@ == d@,
                BlockData::Retained { .. } => r is None,
            },
    {
        match &self.data {
            BlockData::Inline(data) => Some(data.as_slice()),
            BlockData::Retained { .. } => None,
        }
    }

    pub fn retained_range(&self) -> (r: Option<(u64, u64)>)
        ensures
            r == match self.data {
                BlockData::Inline(_) => None,
                BlockData::Retained { offset, len } => Some((offset, len)),
            },
    {
        match &self.data {
            BlockData::Inline(_) => None,
            BlockData::Retained { offset, len } => Some((*offset, *len)),
        }
    }

    /// A copy of this block.
    pub fn duplicate(&self) -> (r: CanonicalBlock)
        ensures
            r@ == self@,
    {
        CanonicalBlock {
            block_type: self.block_type,
            block_number: self.block_number,
            flags: self.flags,
            crc: self.crc,
            data: match &self.data {
                BlockData::Inline(d) => BlockData::Inline(copy_bytes(d.as_slice())),
                BlockData::Retained { offset, len } => BlockData::Retained {
                    offset: *offset,
                    len: *len,
                },
            },
        }
    }

    pub fn parse_ext<E: Extension>(&self) -> (r: Result<E, Error>)
        ensures
            self.block_type != E::BLOCK_TYPE ==> r == Err::<E, Error>(
                Error::BlockTypeMismatch { expected: E::BLOCK_TYPE, actual: self.block_type },
            ),
            self.block_type == E::BLOCK_TYPE && self.data is Retained ==> r == Err::<E, Error>(
                Error::PayloadNotInline,
            ),
            self.block_type == E::BLOCK_TYPE && self.data is Inline ==> match r {
                Ok(e) => E::spec_parse(self.data->Inline_0@) == Ok::<E::V, Error>(e@),
                Err(e) => E::spec_parse(self.data->Inline_0@) == Err::<E::V, Error>(e),
            },
    {
        if self.block_type != E::BLOCK_TYPE {
            return Err(
                Error::BlockTypeMismatch { expected: E::BLOCK_TYPE, actual: self.block_type },
            );
        }
        match &self.data {
            BlockData::Inline(data) => E::parse(data.as_slice()),
            BlockData::Retained { .. } => Err(Error::PayloadNotInline),
        }
    }

    pub fn from_ext<E: Extension>(block_number: u64, flags: BlockFlags, crc: Crc, ext: &E) -> (r: Self)
        ensures
            r@ == (CanonicalBlockView {
                block_type: E::BLOCK_TYPE,
                block_number,
                flags,
                crc,
                data: BlockDataView::Inline(E::spec_encode(ext@)),
            }),
    {
        CanonicalBlock {
            block_type: E::BLOCK_TYPE,
            block_number,
            flags,
            crc,
            data: BlockData::Inline(ext.encode_data()),
        }
    }
}

/// The models of a sequence of blocks.
pub open spec fn blocks_view(s: Seq<CanonicalBlock>) -> Seq<CanonicalBlockView> {
    s.map_values(|b: CanonicalBlock| b@)
}

/// Whether a block is of the given type.
pub open spec fn of_type(t: u64) -> spec_fn(CanonicalBlockView) -> bool {
    |b: CanonicalBlockView| b.block_type == t
}

/// Whether a block is not of the given type.
pub open spec fn not_of_type(t: u64) -> spec_fn(CanonicalBlockView) -> bool {
    |b: CanonicalBlockView| b.block_type != t
}

/// Whether a block has the given block number.
pub open spec fn of_number(n: u64) -> spec_fn(CanonicalBlockView) -> bool {
    |b: CanonicalBlockView| b.block_number == n
}

/// Whether a block's data is held in the retention.
pub open spec fn is_retained() -> spec_fn(CanonicalBlockView) -> bool {
    |b: CanonicalBlockView| b.data is Retained
}

/// Filtering a prefix one element longer.
pub proof fn lemma_filter_step<A>(s: Seq<A>, f: spec_fn(A) -> bool, i: int)
    requires
        0 <= i < s.len(),
    ensures
        s.take(i + 1).filter(f) == (if f(s[i]) {
            s.take(i).filter(f).push(s[i])
        } else {
            s.take(i).filter(f)
        }),
{
    reveal(Seq::filter);
    assert(s.take(i + 1).drop_last() =~= s.take(i));
    assert(s.take(i + 1).last() == s[i]);
}

/// Whether `i` is the first index of `s` whose block satisfies `f`.
pub open spec fn is_first_match(
    s: Seq<CanonicalBlockView>,
    f: spec_fn(CanonicalBlockView) -> bool,
    i: int,
) -> bool {
    &&& 0 <= i < s.len()
    &&& f(s[i])
    &&& forall|j: int| 0 <= j < i ==> !f(#[trigger] s[j])
}

/// The index of the first block of `s` that satisfies `f`, if any.
pub open spec fn first_match(s: Seq<CanonicalBlockView>, f: spec_fn(CanonicalBlockView) -> bool) -> Option<int> {
    if exists|i: int| is_first_match(s, f, i) {
        Some(choose|i: int| is_first_match(s, f, i))
    } else {
        None
    }
}

/// A first match is the first match, and where there is none, no block matches.
pub proof fn lemma_first_match(s: Seq<CanonicalBlockView>, f: spec_fn(CanonicalBlockView) -> bool, i: int)
    ensures
        is_first_match(s, f, i) ==> first_match(s, f) == Some(i),
        (forall|j: int| 0 <= j < s.len() ==> !f(#[trigger] s[j])) ==> first_match(s, f) is None,
{
    if is_first_match(s, f, i) {
        let k = choose|k: int| is_first_match(s, f, k);
        assert(is_first_match(s, f, k));
        if k < i {
            assert(!f(s[k]));
        } else if k > i {
            assert(!f(s[i]));
        }
    }
    if forall|j: int| 0 <= j < s.len() ==> !f(#[trigger] s[j]) {
        if exists|k: int| is_first_match(s, f, k) {
            let k = choose|k: int| is_first_match(s, f, k);
            assert(f(s[k]));
        }
    }
}

/// The index of the first block of the given type, as the model's first match.
pub fn find_type(blocks: &[CanonicalBlock], t: u64) -> (r: Option<usize>)
    ensures
        match first_match(blocks_view(blocks@), of_type(t)) {
            Some(i) => r == Some(i as usize),
            None => r is None,
        },
        r matches Some(i) ==> i < blocks@.len() && blocks@[i as int].block_type == t,
{
    let ghost v = blocks_view(blocks@);
    let mut i: usize = 0;
    while i < blocks.len()
        invariant
            i <= blocks@.len(),
            v == blocks_view(blocks@),
            forall|j: int| 0 <= j < i ==> !(of_type(t))(#[trigger] v[j]),
        decreases blocks@.len() - i,
    {
        if blocks[i].block_type == t {
            proof {
                lemma_first_match(v, of_type(t), i as int);
            }
            return Some(i);
        }
        i = i + 1;
    }
    proof {
        lemma_first_match(v, of_type(t), 0);
    }
    None
}

/// The index of the first block with the given number, as the model's first match.
pub fn find_number(blocks: &[CanonicalBlock], n: u64) -> (r: Option<usize>)
    ensures
        match first_match(blocks_view(blocks@), of_number(n)) {
            Some(i) => r == Some(i as usize),
            None => r is None,
        },
        r matches Some(i) ==> i < blocks@.len() && blocks@[i as int].block_number == n,
{
    let ghost v = blocks_view(blocks@);
    let mut i: usize = 0;
    while i < blocks.len()
        invariant
            i <= blocks@.len(),
            v == blocks_view(blocks@),
            forall|j: int| 0 <= j < i ==> !(of_number(n))(#[trigger] v[j]),
        decreases blocks@.len() - i,
    {
        if blocks[i].block_number == n {
            proof {
                lemma_first_match(v, of_number(n), i as int);
            }
            return Some(i);
        }
        i = i + 1;
    }
    proof {
        lemma_first_match(v, of_number(n), 0);
    }
    None
}

/// A fresh vector holding `data`.
pub fn copy_bytes(data: &[u8]) -> (r: Vec<u8>)
    ensures
        r@ == data@,
{
    let mut v: Vec<u8> = Vec::with_capacity(data.len());
    let mut i: usize = 0;
    while i < data.len()
        invariant
            i <= data@.len(),
            v@ == data@.take(i as int),
        decreases data@.len() - i,
    {
        v.push(data[i]);
        i = i + 1;
        assert(data@.take(i as int) == data@.take(i - 1).push(data@[i - 1]));
    }
    assert(data@.take(data@.len() as int) == data@);
    v
}

impl ToCbor for CanonicalBlock {
    open spec fn spec_cbor(&self) -> Seq<u8> {
        spec_encode_block(self@)
    }

    fn encode(&self, enc: &mut Encoder) {
        let data = match &self.data {
            BlockData::Inline(data) => data.as_slice(),
            BlockData::Retained { .. } => {
                // Retained blocks are written by the streaming writer.
                assert(old(enc)@ + Seq::<u8>::empty() == old(enc)@);
                return;
            },
        };
        let has_crc = !self.crc.is_none();
        let block_start = enc.position();
        enc.write_array(
            if has_crc {
                6
            } else {
                5
            },
        );
        enc.write_uint(self.block_type);
        enc.write_uint(self.block_number);
        enc.write_uint(self.flags.bits());
        enc.write_uint(self.crc.crc_type());
        enc.write_bstr(data);
        proof {
            assert(enc@ =~= old(enc)@ + spec_block_body(self@, data@));
            assert(enc@.skip(block_start as int) =~= spec_block_body(self@, data@));
        }
        self.crc.encode_and_finalize(enc, block_start);
        proof {
            assert(enc@ =~= old(enc)@ + spec_encode_block(self@));
        }
    }
}

} // verus!

verus! {

impl CanonicalBlockView {
    /// The block as it reads back after encoding: its CRC value is the one
    /// computed over the encoding.
    pub open spec fn with_final_crc(self) -> CanonicalBlockView {
        match self.data {
            BlockDataView::Inline(d) => CanonicalBlockView {
                crc: self.crc.spec_finalized(spec_block_body(self, d)),
                ..self
            },
            BlockDataView::Retained { .. } => self,
        }
    }
}

proof fn lemma_block_head_roundtrip(b: CanonicalBlockView, d: Seq<u8>, rest: Seq<u8>)
    ensures
        ({
            let len: usize = if b.crc == Crc::NoCrc {
                5
            } else {
                6
            };
            let head = encode_head(MAJOR_ARRAY, len as u64) + encode_head(MAJOR_UINT, b.block_type)
                + encode_head(MAJOR_UINT, b.block_number) + encode_head(
                MAJOR_UINT,
                b.flags.spec_bits(),
            ) + encode_head(MAJOR_UINT, b.crc.spec_crc_type());
            spec_parse_block_head(head + rest) == Ok::<((usize, u64, u64, u64, u64), nat), Error>(
                (
                    (len, b.block_type, b.block_number, b.flags.spec_bits(), b.crc.spec_crc_type()),
                    head.len(),
                ),
            )
        }),
{
    reveal(spec_parse_block_head);
    let len: usize = if b.crc == Crc::NoCrc {
        5
    } else {
        6
    };
    let a = encode_head(MAJOR_ARRAY, len as u64);
    let u1 = encode_head(MAJOR_UINT, b.block_type);
    let u2 = encode_head(MAJOR_UINT, b.block_number);
    let u3 = encode_head(MAJOR_UINT, b.flags.spec_bits());
    let u4 = encode_head(MAJOR_UINT, b.crc.spec_crc_type());
    assert(a + u1 + u2 + u3 + u4 + rest == a + (u1 + (u2 + (u3 + (u4 + rest)))));
    lemma_p_array_len_roundtrip(len, u1 + (u2 + (u3 + (u4 + rest))));
    lemma_skip_concat(a, u1 + (u2 + (u3 + (u4 + rest))));
    lemma_p_uint_roundtrip(b.block_type, u2 + (u3 + (u4 + rest)));
    lemma_skip_concat(u1, u2 + (u3 + (u4 + rest)));
    lemma_p_uint_roundtrip(b.block_number, u3 + (u4 + rest));
    lemma_skip_concat(u2, u3 + (u4 + rest));
    lemma_p_uint_roundtrip(b.flags.spec_bits(), u4 + rest);
    lemma_skip_concat(u3, u4 + rest);
    lemma_p_uint_roundtrip(b.crc.spec_crc_type(), rest);
}

/// Reading an extension block gives back the block written, with the CRC
/// value computed over the encoding, whatever follows it; it is read the
/// same way by the buffer-based and the streaming decoder.
pub proof fn lemma_block_roundtrip(b: CanonicalBlockView, rest: Seq<u8>, base: nat, pos: u64)
    requires
        b.data is Inline,
        b.data->Inline_0.len() <= u64::MAX,
        b.block_type != PAYLOAD_BLOCK_TYPE,
    ensures
        spec_parse_block_buf(spec_encode_block(b) + rest, base) == Ok::<
            ((CanonicalBlockView, bool), nat),
            Error,
        >(((b.with_final_crc(), false), spec_encode_block(b).len())),
        spec_parse_block_stream(spec_encode_block(b) + rest, pos) == Ok::<
            ((CanonicalBlockView, bool), nat),
            Error,
        >(((b.with_final_crc(), false), spec_encode_block(b).len())),
{
    let d = b.data->Inline_0;
    let len: usize = if b.crc == Crc::NoCrc {
        5
    } else {
        6
    };
    let head = encode_head(MAJOR_ARRAY, len as u64) + encode_head(MAJOR_UINT, b.block_type)
        + encode_head(MAJOR_UINT, b.block_number) + encode_head(MAJOR_UINT, b.flags.spec_bits())
        + encode_head(MAJOR_UINT, b.crc.spec_crc_type());
    let bs = encode_head(MAJOR_BSTR, d.len() as u64) + d;
    let body = spec_block_body(b, d);
    let field = b.crc.spec_crc_field(body);
    assert(body == head + bs);
    assert(spec_encode_block(b) + rest == head + (bs + (field + rest)));
    lemma_block_head_roundtrip(b, d, bs + (field + rest));
    lemma_skip_concat(head, bs + (field + rest));
    assert(bs + (field + rest) == encode_head(MAJOR_BSTR, d.len() as u64) + d + (field + rest));
    lemma_p_bstr_roundtrip(d, field + rest);
    lemma_skip_concat(bs, field + rest);
    if b.crc != Crc::NoCrc {
        lemma_p_crc_roundtrip(b.crc, body, rest);
    } else {
        assert(field + rest == rest);
    }
    BlockFlags::lemma_bits(0, b.flags);
}


/// Reading a payload block from a stream gives its header: the block with a
/// placeholder CRC and its data left in the stream, right after the header.
pub proof fn lemma_payload_head_roundtrip(b: CanonicalBlockView, rest: Seq<u8>, pos: u64)
    requires
        b.data is Inline,
        b.data->Inline_0.len() <= u64::MAX,
        b.block_type == PAYLOAD_BLOCK_TYPE,
    ensures
        ({
            let d = b.data->Inline_0;
            let h = (spec_block_body(b, d).len() - d.len()) as nat;
            &&& Crc::spec_placeholder(b.crc.spec_crc_type()) is Ok
            &&& spec_parse_block_stream(spec_encode_block(b) + rest, pos) == Ok::<
                ((CanonicalBlockView, bool), nat),
                Error,
            >(
                (
                    (
                        CanonicalBlockView {
                            crc: Crc::spec_placeholder(b.crc.spec_crc_type())->Ok_0,
                            data: BlockDataView::Retained {
                                offset: advance_pos(pos, h),
                                len: d.len() as u64,
                            },
                            ..b
                        },
                        true,
                    ),
                    h,
                ),
            )
        }),
{
    let d = b.data->Inline_0;
    let len: usize = if b.crc == Crc::NoCrc {
        5
    } else {
        6
    };
    let head = encode_head(MAJOR_ARRAY, len as u64) + encode_head(MAJOR_UINT, b.block_type)
        + encode_head(MAJOR_UINT, b.block_number) + encode_head(MAJOR_UINT, b.flags.spec_bits())
        + encode_head(MAJOR_UINT, b.crc.spec_crc_type());
    let bh = encode_head(MAJOR_BSTR, d.len() as u64);
    let body = spec_block_body(b, d);
    let field = b.crc.spec_crc_field(body);
    assert(body == head + bh + d);
    assert(spec_encode_block(b) + rest == head + (bh + (d + field + rest)));
    lemma_block_head_roundtrip(b, d, bh + (d + field + rest));
    lemma_skip_concat(head, bh + (d + field + rest));
    lemma_head_roundtrip(MAJOR_BSTR, d.len() as u64, "bstr", d + field + rest);
    BlockFlags::lemma_bits(0, b.flags);
}

/// Parsing a block fails only with a decoding failure, never with a
/// filter's rejection.
pub proof fn lemma_parse_block_not_rejected(s: Seq<u8>, pos: u64)
    ensures
        !(spec_parse_block_stream(s, pos) matches Err(Error::FilterRejected(_))),
{
    reveal(spec_parse_block_head);
    reveal(p_uint);
    reveal(p_array_len);
    reveal(p_bstr);
}

} // verus!
