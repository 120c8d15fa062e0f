//! Primary bundle block (RFC 9171 §4.3.1).

use vstd::prelude::*;

use crate::cbor::spec::{encode_head, lemma_skip_concat, MAJOR_ARRAY, MAJOR_BSTR, MAJOR_UINT};
use crate::cbor::{Decoder, Encoder, FromCbor, StreamDecoder, ToCbor};
use crate::io::Read;

use crate::bpv7::crc::{lemma_finalized_crc_verifies, stream_failure, Crc};
use crate::bpv7::eid::{lemma_eid_roundtrip, spec_encode_eid, spec_parse_eid, Eid, EidView};
use crate::bpv7::error::Error;
use crate::bpv7::parse::{
    lemma_p_array_len_roundtrip, lemma_p_bstr_roundtrip, lemma_p_uint_roundtrip, p_array_len, p_uint,
};
use crate::bpv7::source::{p_crc, BlockSource};

verus! {

/// Bundle processing control flags (RFC 9171 §4.2.3).
///
/// Stored as the raw CBOR unsigned integer — no parsing overhead.
/// Bits are extracted on access.
#[derive(Debug, Clone, Copy, PartialEq, Eq, Structural)]
pub struct BundleFlags(u64);

/// The flags that request status reports.
pub const REPORT_MASK: u64 = 0x004000 | 0x010000 | 0x020000 | 0x040000;

impl BundleFlags {
    /// The raw flag bits.
    pub closed spec fn spec_bits(self) -> u64 {
        self.0
    }

    /// The flags with the given raw bits.
    pub closed spec fn spec_from_bits(bits: u64) -> BundleFlags {
        BundleFlags(bits)
    }

    /// Flags are exactly their bits.
    pub proof fn lemma_bits(bits: u64, f: BundleFlags)
        ensures
            Self::spec_from_bits(bits).spec_bits() == bits,
            Self::spec_from_bits(f.spec_bits()) == f,
    {
    }

    /// Whether any of the bits of `mask` is set.
    pub open spec fn has(self, mask: u64) -> bool {
        self.spec_bits() & mask != 0
    }

    /// Whether these flags are consistent (RFC 9171 §4.2.3): an administrative
    /// record requests no reports, and a bundle from the null source is not to
    /// be fragmented and requests no reports.
    pub open spec fn spec_valid(self, src_is_null: bool) -> bool {
        &&& !(self.has(0x000002) && self.has(REPORT_MASK))
        &&& (src_is_null ==> self.has(0x000004) && !self.has(REPORT_MASK))
    }

    #[inline]
    pub fn from_bits(bits: u64) -> (r: Self)
        ensures
            r == Self::spec_from_bits(bits),
            r.spec_bits() == bits,
    {
        Self(bits)
    }

    #[inline]
    pub fn bits(self) -> (r: u64)
        ensures
            r == self.spec_bits(),
    {
        self.0
    }

    #[inline]
    pub fn is_fragment(self) -> (r: bool)
        ensures
            r == self.has(0x000001),
    {
        self.0 & 0x000001 != 0
    }

    #[inline]
    pub fn is_admin(self) -> (r: bool)
        ensures
            r == self.has(0x000002),
    {
        self.0 & 0x000002 != 0
    }

    #[inline]
    pub fn no_fragment(self) -> (r: bool)
        ensures
            r == self.has(0x000004),
    {
        self.0 & 0x000004 != 0
    }

    #[inline]
    pub fn ack_requested(self) -> (r: bool)
        ensures
            r == self.has(0x000020),
    {
        self.0 & 0x000020 != 0
    }

    #[inline]
    pub fn time_in_reports(self) -> (r: bool)
        ensures
            r == self.has(0x000040),
    {
        self.0 & 0x000040 != 0
    }

    #[inline]
    pub fn rpt_reception(self) -> (r: bool)
        ensures
            r == self.has(0x004000),
    {
        self.0 & 0x004000 != 0
    }

    #[inline]
    pub fn rpt_forwarding(self) -> (r: bool)
        ensures
            r == self.has(0x010000),
    {
        self.0 & 0x010000 != 0
    }

    #[inline]
    pub fn rpt_delivery(self) -> (r: bool)
        ensures
            r == self.has(0x020000),
    {
        self.0 & 0x020000 != 0
    }

    #[inline]
    pub fn rpt_deletion(self) -> (r: bool)
        ensures
            r == self.has(0x040000),
    {
        self.0 & 0x040000 != 0
    }

    #[inline]
    pub fn any_report(self) -> (r: bool)
        ensures
            r == self.has(REPORT_MASK),
    {
        self.0 & REPORT_MASK != 0
    }

    pub fn validate(self, src_is_null: bool) -> (r: Result<(), Error>)
        ensures
            r == (if self.spec_valid(src_is_null) {
                Ok(())
            } else {
                Err(Error::InvalidFlags)
            }),
    {
        if self.is_admin() && self.any_report() {
            return Err(Error::InvalidFlags);
        }
        if src_is_null && (!self.no_fragment() || self.any_report()) {
            return Err(Error::InvalidFlags);
        }
        Ok(())
    }

    /// An administrative record requests no status reports: flags with the
    /// administrative-record bit and any report-request bit are invalid,
    /// whatever the source, and a version 7 primary block carrying them is
    /// refused with `InvalidFlags`.
    pub proof fn lemma_admin_record_requests_no_reports(bits: u64, src_is_null: bool, p: PrimaryBlockView)
        requires
            bits & 0x000002 != 0,
            bits & (0x004000u64 | 0x010000u64 | 0x020000u64 | 0x040000u64) != 0,
        ensures
            !Self::spec_from_bits(bits).spec_valid(src_is_null),
            p.version == 7 && p.flags == Self::spec_from_bits(bits) ==> spec_validate_primary(p)
                == Err::<(), Error>(Error::InvalidFlags),
    {
        assert(REPORT_MASK == (0x004000u64 | 0x010000u64 | 0x020000u64 | 0x040000u64));
    }
}

/// Creation timestamp (RFC 9171 §4.2.7).
///
/// Two unsigned integers: DTN time of creation and sequence number.
#[derive(Debug, Clone, Copy, PartialEq, Eq, Structural)]
pub struct CreationTimestamp {
    pub time: u64,
    pub seq: u64,
}

/// Fragment metadata, present only when `BundleFlags::is_fragment()` is set.
#[derive(Debug, Clone, Copy, PartialEq, Eq, Structural)]
pub struct FragmentInfo {
    pub offset: u64,
    pub total_adu_len: u64,
}

/// Primary bundle block (RFC 9171 §4.3.1).
#[derive(Debug, Clone, PartialEq, Eq)]
pub struct PrimaryBlock {
    pub version: u8,
    pub flags: BundleFlags,
    pub crc: Crc,
    pub dest_eid: Eid,
    pub src_node_id: Eid,
    pub rpt_eid: Eid,
    pub creation_ts: CreationTimestamp,
    pub lifetime: u64,
    pub fragment: Option<FragmentInfo>,
}

/// Model of a primary block: endpoint IDs by their views.
pub struct PrimaryBlockView {
    pub version: u8,
    pub flags: BundleFlags,
    pub crc: Crc,
    pub dest_eid: EidView,
    pub src_node_id: EidView,
    pub rpt_eid: EidView,
    pub creation_ts: CreationTimestamp,
    pub lifetime: u64,
    pub fragment: Option<FragmentInfo>,
}

impl View for PrimaryBlock {
    type V = PrimaryBlockView;

    open spec fn view(&self) -> PrimaryBlockView {
        PrimaryBlockView {
            version: self.version,
            flags: self.flags,
            crc: self.crc,
            dest_eid: self.dest_eid@,
            src_node_id: self.src_node_id@,
            rpt_eid: self.rpt_eid@,
            creation_ts: self.creation_ts,
            lifetime: self.lifetime,
            fragment: self.fragment,
        }
    }
}

/// Number of items of the primary block array.
pub open spec fn spec_primary_len(p: PrimaryBlockView) -> usize {
    (8 + (if p.fragment is Some {
        2int
    } else {
        0int
    }) + (if p.crc == Crc::NoCrc {
        0int
    } else {
        1int
    })) as usize
}

/// The leading fields of an encoded primary block: array header, version,
/// flags and CRC type.
pub open spec fn spec_primary_head_bytes(p: PrimaryBlockView) -> Seq<u8> {
    encode_head(MAJOR_ARRAY, spec_primary_len(p) as u64) + encode_head(
        MAJOR_UINT,
        p.version as u64,
    ) + encode_head(MAJOR_UINT, p.flags.spec_bits()) + encode_head(
        MAJOR_UINT,
        p.crc.spec_crc_type(),
    )
}

/// The encoded endpoint IDs of a primary block.
pub open spec fn spec_primary_eid_bytes(p: PrimaryBlockView) -> Seq<u8> {
    spec_encode_eid(p.dest_eid) + spec_encode_eid(p.src_node_id) + spec_encode_eid(p.rpt_eid)
}

/// The encoded creation timestamp and lifetime.
pub open spec fn spec_primary_timing_bytes(p: PrimaryBlockView) -> Seq<u8> {
    encode_head(MAJOR_ARRAY, 2) + encode_head(MAJOR_UINT, p.creation_ts.time) + encode_head(
        MAJOR_UINT,
        p.creation_ts.seq,
    ) + encode_head(MAJOR_UINT, p.lifetime)
}

/// The encoded fragment fields, if any.
pub open spec fn spec_primary_fragment_bytes(p: PrimaryBlockView) -> Seq<u8> {
    match p.fragment {
        Some(f) => encode_head(MAJOR_UINT, f.offset) + encode_head(MAJOR_UINT, f.total_adu_len),
        None => Seq::empty(),
    }
}

/// The encoding of a primary block up to (excluding) its CRC field.
pub open spec fn spec_primary_body(p: PrimaryBlockView) -> Seq<u8> {
    spec_primary_head_bytes(p) + spec_primary_eid_bytes(p) + spec_primary_timing_bytes(p)
        + spec_primary_fragment_bytes(p)
}

/// The CBOR encoding of a primary block, CRC included.
pub open spec fn spec_encode_primary(p: PrimaryBlockView) -> Seq<u8> {
    spec_primary_body(p) + p.crc.spec_crc_field(spec_primary_body(p))
}

/// Parsing the three endpoint IDs of a primary block.
#[verifier::opaque]
pub open spec fn spec_parse_eids(s: Seq<u8>) -> Result<((EidView, EidView, EidView), nat), Error> {
    match spec_parse_eid(s) {
        Err(e) => Err(e),
        Ok((a, n0)) => {
            let s1 = s.skip(n0 as int);
            match spec_parse_eid(s1) {
                Err(e) => Err(e),
                Ok((b, n1)) => match spec_parse_eid(s1.skip(n1 as int)) {
                    Err(e) => Err(e),
                    Ok((c, n2)) => Ok(((a, b, c), n0 + n1 + n2)),
                },
            }
        },
    }
}

/// Parsing the creation timestamp and the lifetime.
#[verifier::opaque]
pub open spec fn spec_parse_timing(s: Seq<u8>) -> Result<((CreationTimestamp, u64), nat), Error> {
    match p_array_len(s) {
        Err(e) => Err(e),
        Ok((ts_len, n0)) => if ts_len != 2 {
            Err(Error::InvalidBlockLength { expected: "2", actual: ts_len })
        } else {
            let s1 = s.skip(n0 as int);
            match p_uint(s1) {
                Err(e) => Err(e),
                Ok((time, n1)) => {
                    let s2 = s1.skip(n1 as int);
                    match p_uint(s2) {
                        Err(e) => Err(e),
                        Ok((seq, n2)) => match p_uint(s2.skip(n2 as int)) {
                            Err(e) => Err(e),
                            Ok((lifetime, n3)) => Ok(
                                ((CreationTimestamp { time, seq }, lifetime), n0 + n1 + n2 + n3),
                            ),
                        },
                    }
                },
            }
        },
    }
}

/// Whether a primary block array of `len` items with CRC type `crc_type`
/// has fragment fields: `Some(answer)`, or `None` if the length is inconsistent.
pub open spec fn spec_has_fragment(len: usize, crc_type: u64) -> Option<bool> {
    let has_crc = crc_type != 0;
    if (len == 8 && !has_crc) || (len == 9 && has_crc) {
        Some(false)
    } else if (len == 10 && !has_crc) || (len == 11 && has_crc) {
        Some(true)
    } else {
        None
    }
}

/// Parsing the optional fragment fields and the optional CRC.
#[verifier::opaque]
pub open spec fn spec_parse_primary_tail(s: Seq<u8>, len: usize, crc_type: u64) -> Result<
    ((Option<FragmentInfo>, Crc), nat),
    Error,
> {
    match spec_has_fragment(len, crc_type) {
        None => Err(Error::InvalidBlockLength { expected: "8-11", actual: len }),
        Some(has_fragment) => {
            let frag: Result<(Option<FragmentInfo>, nat), Error> = if has_fragment {
                match p_uint(s) {
                    Err(e) => Err(e),
                    Ok((offset, n0)) => match p_uint(s.skip(n0 as int)) {
                        Err(e) => Err(e),
                        Ok((total_adu_len, n1)) => Ok(
                            (Some(FragmentInfo { offset, total_adu_len }), n0 + n1),
                        ),
                    },
                }
            } else {
                Ok((None, 0))
            };
            match frag {
                Err(e) => Err(e),
                Ok((fragment, nf)) => if crc_type != 0 {
                    match p_crc(s.skip(nf as int), crc_type) {
                        Err(e) => Err(e),
                        Ok((crc, nc)) => Ok(((fragment, crc), nf + nc)),
                    }
                } else {
                    Ok(((fragment, Crc::NoCrc), nf))
                },
            }
        },
    }
}

/// Parsing the leading fields of a primary block: the array length, the
/// version, the flag bits and the CRC type.
#[verifier::opaque]
pub open spec fn spec_parse_primary_head(s: Seq<u8>) -> Result<((usize, u64, u64, u64), nat), Error> {
    match p_array_len(s) {
        Err(e) => Err(e),
        Ok((len, n0)) => if !(8 <= len <= 11) {
            Err(Error::InvalidBlockLength { expected: "8-11", actual: len })
        } else {
            let s1 = s.skip(n0 as int);
            match p_uint(s1) {
                Err(e) => Err(e),
                Ok((version, n1)) => {
                    let s2 = s1.skip(n1 as int);
                    match p_uint(s2) {
                        Err(e) => Err(e),
                        Ok((flags, n2)) => match p_uint(s2.skip(n2 as int)) {
                            Err(e) => Err(e),
                            Ok((crc_type, n3)) => Ok(((len, version, flags, crc_type), n0 + n1 + n2 + n3)),
                        },
                    }
                },
            }
        },
    }
}

/// Parsing a primary block: the block and the bytes consumed.
pub open spec fn spec_parse_primary(s: Seq<u8>) -> Result<(PrimaryBlockView, nat), Error> {
    match spec_parse_primary_head(s) {
        Err(e) => Err(e),
        Ok(((len, version, flags, crc_type), n0)) => {
            let s1 = s.skip(n0 as int);
            match spec_parse_eids(s1) {
                Err(e) => Err(e),
                Ok(((dest, src, rpt), n1)) => {
                    let s2 = s1.skip(n1 as int);
                    match spec_parse_timing(s2) {
                        Err(e) => Err(e),
                        Ok(((ts, lifetime), n2)) => match spec_parse_primary_tail(
                            s2.skip(n2 as int),
                            len,
                            crc_type,
                        ) {
                            Err(e) => Err(e),
                            Ok(((fragment, crc), n3)) => Ok(
                                (
                                    PrimaryBlockView {
                                        version: version as u8,
                                        flags: BundleFlags::spec_from_bits(flags),
                                        crc,
                                        dest_eid: dest,
                                        src_node_id: src,
                                        rpt_eid: rpt,
                                        creation_ts: ts,
                                        lifetime,
                                        fragment,
                                    },
                                    n0 + n1 + n2 + n3,
                                ),
                            ),
                        },
                    }
                },
            }
        },
    }
}

/// Whether a decoder went from `old` to `new` by a block-level parse with
/// result `r` (by view) whose model on `old`'s input is `model`.
pub open spec fn block_step<D: BlockSource, T>(new: D, old: D, r: Result<T, Error>, model: Result<(T, nat), Error>) -> bool {
    &&& new.source() == old.source()
    &&& match r {
        Ok(v) => model matches Ok((w, n)) && w == v && n <= old.input().len() && new.advanced(&old, n) && (
        old.reliable() ==> new.reliable()),
        Err(e) => if D::exact() {
            model == Err::<(T, nat), Error>(e)
        } else {
            stream_failure(e, model, old.reliable())
        },
    }
}

/// Chaining two parse steps.
proof fn lemma_chain<D: BlockSource>(d0: D, d1: D, d2: D, a: nat, b: nat)
    requires
        d1.source() == d0.source(),
        d2.source() == d1.source(),
        d1.advanced(&d0, a),
        a <= d0.input().len(),
        d2.advanced(&d1, b),
        b <= d1.input().len(),
    ensures
        d2.source() == d0.source(),
        d2.advanced(&d0, a + b),
        d1.input() == d0.input().skip(a as int),
        a + b <= d0.input().len(),
{
    D::lemma_advanced(d0, d1, a);
    D::lemma_advanced_trans(d0, d1, d2, a, b);
}

fn decode_eids<D: BlockSource>(dec: &mut D) -> (r: Result<(Eid, Eid, Eid), Error>)
    ensures
        block_step(
            *final(dec),
            *old(dec),
            match r {
                Ok((a, b, c)) => Ok::<(EidView, EidView, EidView), Error>((a@, b@, c@)),
                Err(e) => Err::<(EidView, EidView, EidView), Error>(e),
            },
            spec_parse_eids(old(dec).input()),
        ),
{
    proof {
        reveal(spec_parse_eids);
    }
    let ghost d0 = *dec;
    let a = dec.src_eid()?;
    let ghost d1 = *dec;
    let ghost n0 = spec_parse_eid(d0.input())->Ok_0.1;
    proof {
        D::lemma_advanced(d0, d1, n0);
    }
    let b = dec.src_eid()?;
    let ghost d2 = *dec;
    let ghost n1 = spec_parse_eid(d1.input())->Ok_0.1;
    proof {
        lemma_chain(d0, d1, d2, n0, n1);
        D::lemma_advanced(d1, d2, n1);
    }
    let c = dec.src_eid()?;
    proof {
        let n2 = spec_parse_eid(d2.input())->Ok_0.1;
        lemma_chain(d0, d2, *dec, n0 + n1, n2);
    }
    Ok((a, b, c))
}

fn decode_timing<D: BlockSource>(dec: &mut D) -> (r: Result<(CreationTimestamp, u64), Error>)
    ensures
        block_step(*final(dec), *old(dec), r, spec_parse_timing(old(dec).input())),
{
    proof {
        reveal(spec_parse_timing);
    }
    let ghost d0 = *dec;
    let ts_len = dec.src_array_len()?;
    if ts_len != 2 {
        return Err(Error::InvalidBlockLength { expected: "2", actual: ts_len });
    }
    let ghost d1 = *dec;
    let ghost n0 = p_array_len(d0.input())->Ok_0.1;
    proof {
        D::lemma_advanced(d0, d1, n0);
    }
    let time = dec.src_uint()?;
    let ghost d2 = *dec;
    let ghost n1 = p_uint(d1.input())->Ok_0.1;
    proof {
        lemma_chain(d0, d1, d2, n0, n1);
        D::lemma_advanced(d1, d2, n1);
    }
    let seq = dec.src_uint()?;
    let ghost d3 = *dec;
    let ghost n2 = p_uint(d2.input())->Ok_0.1;
    proof {
        lemma_chain(d0, d2, d3, n0 + n1, n2);
        D::lemma_advanced(d2, d3, n2);
    }
    let lifetime = dec.src_uint()?;
    proof {
        let n3 = p_uint(d3.input())->Ok_0.1;
        lemma_chain(d0, d3, *dec, n0 + n1 + n2, n3);
    }
    Ok((CreationTimestamp { time, seq }, lifetime))
}

fn decode_fragment<D: BlockSource>(dec: &mut D, has_fragment: bool) -> (r: Result<
    Option<FragmentInfo>,
    Error,
>)
    ensures
        block_step(*final(dec), *old(dec), r, if has_fragment {
            match p_uint(old(dec).input()) {
                Err(e) => Err(e),
                Ok((offset, n0)) => match p_uint(old(dec).input().skip(n0 as int)) {
                    Err(e) => Err(e),
                    Ok((total_adu_len, n1)) => Ok(
                        (Some(FragmentInfo { offset, total_adu_len }), n0 + n1),
                    ),
                },
            }
        } else {
            Ok((None, 0))
        }),
{
    let ghost d0 = *dec;
    if !has_fragment {
        proof {
            D::lemma_advanced_zero(d0);
        }
        return Ok(None);
    }
    let offset = dec.src_uint()?;
    let ghost d1 = *dec;
    let ghost n0 = p_uint(d0.input())->Ok_0.1;
    proof {
        D::lemma_advanced(d0, d1, n0);
    }
    let total_adu_len = dec.src_uint()?;
    proof {
        let n1 = p_uint(d1.input())->Ok_0.1;
        lemma_chain(d0, d1, *dec, n0, n1);
    }
    Ok(Some(FragmentInfo { offset, total_adu_len }))
}

fn decode_optional_crc<D: BlockSource>(dec: &mut D, crc_type: u64) -> (r: Result<Crc, Error>)
    ensures
        block_step(*final(dec), *old(dec), r, if crc_type != 0 {
            p_crc(old(dec).input(), crc_type)
        } else {
            Ok((Crc::NoCrc, 0))
        }),
{
    if crc_type != 0 {
        dec.src_crc(crc_type)
    } else {
        proof {
            D::lemma_advanced_zero(*dec);
        }
        Ok(Crc::NoCrc)
    }
}

fn decode_primary_tail<D: BlockSource>(dec: &mut D, len: usize, crc_type: u64) -> (r: Result<
    (Option<FragmentInfo>, Crc),
    Error,
>)
    ensures
        block_step(*final(dec), *old(dec), r, spec_parse_primary_tail(old(dec).input(), len, crc_type)),
{
    proof {
        reveal(spec_parse_primary_tail);
    }
    let ghost d0 = *dec;
    let has_crc = crc_type != 0;
    let has_fragment = if (len == 8 && !has_crc) || (len == 9 && has_crc) {
        false
    } else if (len == 10 && !has_crc) || (len == 11 && has_crc) {
        true
    } else {
        return Err(Error::InvalidBlockLength { expected: "8-11", actual: len });
    };
    let fragment = decode_fragment(dec, has_fragment)?;
    let ghost d1 = *dec;
    let ghost nf = spec_parse_primary_tail(d0.input(), len, crc_type);
    proof {
        let n0 = if has_fragment {
            p_uint(d0.input())->Ok_0.1 + p_uint(d0.input().skip(p_uint(d0.input())->Ok_0.1 as int))->Ok_0.1
        } else {
            0
        };
        D::lemma_advanced(d0, d1, n0);
    }
    let crc = decode_optional_crc(dec, crc_type)?;
    proof {
        let n0: nat = if has_fragment {
            p_uint(d0.input())->Ok_0.1 + p_uint(d0.input().skip(p_uint(d0.input())->Ok_0.1 as int))->Ok_0.1
        } else {
            0
        };
        let n1: nat = if crc_type != 0 {
            p_crc(d1.input(), crc_type)->Ok_0.1
        } else {
            0
        };
        lemma_chain(d0, d1, *dec, n0, n1);
    }
    Ok((fragment, crc))
}

fn decode_primary_head<D: BlockSource>(dec: &mut D) -> (r: Result<(usize, u64, u64, u64), Error>)
    ensures
        block_step(*final(dec), *old(dec), r, spec_parse_primary_head(old(dec).input())),
{
    proof {
        reveal(spec_parse_primary_head);
    }
    let ghost d0 = *dec;
    let len = dec.src_array_len()?;
    if !(8 <= len && len <= 11) {
        return Err(Error::InvalidBlockLength { expected: "8-11", actual: len });
    }
    let ghost d1 = *dec;
    let ghost n0 = p_array_len(d0.input())->Ok_0.1;
    proof {
        D::lemma_advanced(d0, d1, n0);
    }
    let version = dec.src_uint()?;
    let ghost d2 = *dec;
    let ghost n1 = p_uint(d1.input())->Ok_0.1;
    proof {
        lemma_chain(d0, d1, d2, n0, n1);
        D::lemma_advanced(d1, d2, n1);
    }
    let flags = dec.src_uint()?;
    let ghost d3 = *dec;
    let ghost n2 = p_uint(d2.input())->Ok_0.1;
    proof {
        lemma_chain(d0, d2, d3, n0 + n1, n2);
        D::lemma_advanced(d2, d3, n2);
    }
    let crc_type = dec.src_uint()?;
    proof {
        let n3 = p_uint(d3.input())->Ok_0.1;
        lemma_chain(d0, d3, *dec, n0 + n1 + n2, n3);
    }
    Ok((len, version, flags, crc_type))
}

#[verifier::rlimit(30)]
fn decode_primary<D: BlockSource>(dec: &mut D) -> (r: Result<PrimaryBlock, Error>)
    ensures
        block_step(
            *final(dec),
            *old(dec),
            match r {
                Ok(p) => Ok::<PrimaryBlockView, Error>(p@),
                Err(e) => Err::<PrimaryBlockView, Error>(e),
            },
            spec_parse_primary(old(dec).input()),
        ),
{
    let ghost d0 = *dec;
    let (len, version, flags, crc_type) = decode_primary_head(dec)?;
    let ghost d1 = *dec;
    let ghost n0 = spec_parse_primary_head(d0.input())->Ok_0.1;
    proof {
        D::lemma_advanced(d0, d1, n0);
    }
    let (dest_eid, src_node_id, rpt_eid) = decode_eids(dec)?;
    let ghost d2 = *dec;
    let ghost n1 = spec_parse_eids(d1.input())->Ok_0.1;
    proof {
        lemma_chain(d0, d1, d2, n0, n1);
        D::lemma_advanced(d1, d2, n1);
    }
    let (creation_ts, lifetime) = decode_timing(dec)?;
    let ghost d3 = *dec;
    let ghost n2 = spec_parse_timing(d2.input())->Ok_0.1;
    proof {
        lemma_chain(d0, d2, d3, n0 + n1, n2);
        D::lemma_advanced(d2, d3, n2);
    }
    let (fragment, crc) = decode_primary_tail(dec, len, crc_type)?;
    proof {
        let n3 = spec_parse_primary_tail(d3.input(), len, crc_type)->Ok_0.1;
        lemma_chain(d0, d3, *dec, n0 + n1 + n2, n3);
    }
    let flags = BundleFlags::from_bits(flags);
    Ok(PrimaryBlock {
        version: version as u8,
        flags,
        crc,
        dest_eid,
        src_node_id,
        rpt_eid,
        creation_ts,
        lifetime,
        fragment,
    })
}

/// Whether `p` is the primary block `q` up to its CRC value (the variant matches).
pub open spec fn same_but_crc_value(p: PrimaryBlockView, q: PrimaryBlockView) -> bool {
    &&& p.version == q.version
    &&& p.flags == q.flags
    &&& p.crc.spec_crc_type() == q.crc.spec_crc_type()
    &&& p.dest_eid == q.dest_eid
    &&& p.src_node_id == q.src_node_id
    &&& p.rpt_eid == q.rpt_eid
    &&& p.creation_ts == q.creation_ts
    &&& p.lifetime == q.lifetime
    &&& p.fragment == q.fragment
}

/// The consistency check of a primary block: version 7, consistent flags,
/// and fragment fields exactly when the bundle is a fragment.
pub open spec fn spec_validate_primary(p: PrimaryBlockView) -> Result<(), Error> {
    if p.version != 7 {
        Err(Error::UnsupportedVersion(p.version))
    } else if !p.flags.spec_valid(p.src_node_id == EidView::Null) {
        Err(Error::InvalidFlags)
    } else if p.flags.has(0x000001) != p.fragment is Some {
        Err(Error::InvalidFlags)
    } else {
        Ok(())
    }
}

impl PrimaryBlock {
    /// Decode from a buffer-based CBOR decoder.
    pub fn decode_buf(dec: &mut Decoder<'_>) -> (r: Result<Self, Error>)
        ensures
            final(dec).data() == old(dec).data(),
            match spec_parse_primary(old(dec).rest()) {
                Ok((v, n)) => r matches Ok(p) && p@ == v && final(dec).pos() == old(dec).pos() + n,
                Err(e) => r == Err::<PrimaryBlock, Error>(e),
            },
    {
        decode_primary(dec)
    }

    /// Decode from a streaming CBOR decoder.
    pub fn decode_stream<R: Read>(dec: &mut StreamDecoder<R>) -> (r: Result<Self, Error>)
        ensures
            r matches Ok(p) ==> (spec_parse_primary(old(dec).stream()) matches Ok((v, n)) && p@ == v
                && n <= old(dec).stream().len() && final(dec).consumed(*old(dec), n)),
            r matches Err(e) ==> stream_failure(
                e,
                spec_parse_primary(old(dec).stream()),
                old(dec).spec_reader().reliable(),
            ),
    {
        decode_primary(dec)
    }

    /// Verify the CRC by re-encoding the block and checking the value against it.
    pub fn verify_crc(&self) -> (r: Result<(), Error>)
        ensures
            r == self.crc.spec_verify(
                spec_encode_primary(self@),
                spec_encode_primary(self@).len() - self.crc.spec_value_size(),
            ),
    {
        if self.crc.is_none() {
            return Ok(());
        }
        let mut enc = Encoder::with_capacity(128);
        self.encode(&mut enc);
        let bytes = enc.as_bytes();
        let crc_size = self.crc.value_size();
        proof {
            assert(bytes@ =~= spec_encode_primary(self@));
            assert(bytes@.len() >= crc_size);
        }
        let crc_data_offset = bytes.len() - crc_size;
        self.crc.verify(bytes, crc_data_offset)
    }

    /// Check the block's consistency: version 7, consistent flags, and
    /// fragment fields exactly when the bundle is a fragment.
    pub fn validate(&self) -> (r: Result<(), Error>)
        ensures
            r == spec_validate_primary(self@),
    {
        if self.version != 7 {
            return Err(Error::UnsupportedVersion(self.version));
        }
        self.flags.validate(self.src_node_id.is_null())?;
        if self.flags.is_fragment() != self.fragment.is_some() {
            return Err(Error::InvalidFlags);
        }
        Ok(())
    }

    /// A copy of this block.
    pub fn duplicate(&self) -> (r: PrimaryBlock)
        ensures
            r@ == self@,
    {
        PrimaryBlock {
            version: self.version,
            flags: self.flags,
            crc: self.crc,
            dest_eid: self.dest_eid.duplicate(),
            src_node_id: self.src_node_id.duplicate(),
            rpt_eid: self.rpt_eid.duplicate(),
            creation_ts: self.creation_ts,
            lifetime: self.lifetime,
            fragment: self.fragment,
        }
    }
}

impl ToCbor for PrimaryBlock {
    open spec fn spec_cbor(&self) -> Seq<u8> {
        spec_encode_primary(self@)
    }

    #[verifier::rlimit(40)]
    fn encode(&self, enc: &mut Encoder) {
        let has_crc = !self.crc.is_none();
        let has_frag = self.fragment.is_some();
        let len: usize = 8 + if has_frag {
            2
        } else {
            0
        } + if has_crc {
            1
        } else {
            0
        };
        let block_start = enc.position();
        enc.write_array(len);
        enc.write_uint(self.version as u64);
        enc.write_uint(self.flags.bits());
        enc.write_uint(self.crc.crc_type());
        let ghost e1 = enc@;
        proof {
            assert(e1 =~= old(enc)@ + spec_primary_head_bytes(self@));
        }
        self.dest_eid.encode(enc);
        self.src_node_id.encode(enc);
        self.rpt_eid.encode(enc);
        let ghost e2 = enc@;
        proof {
            assert(e2 =~= e1 + spec_primary_eid_bytes(self@));
        }
        enc.write_array(2);
        enc.write_uint(self.creation_ts.time);
        enc.write_uint(self.creation_ts.seq);
        enc.write_uint(self.lifetime);
        let ghost e3 = enc@;
        proof {
            assert(e3 =~= e2 + spec_primary_timing_bytes(self@));
        }
        if let Some(frag) = &self.fragment {
            enc.write_uint(frag.offset);
            enc.write_uint(frag.total_adu_len);
        }
        proof {
            assert(enc@ =~= e3 + spec_primary_fragment_bytes(self@));
            assert(enc@ =~= old(enc)@ + spec_primary_body(self@));
            assert(enc@.skip(block_start as int) =~= spec_primary_body(self@));
        }
        self.crc.encode_and_finalize(enc, block_start);
        proof {
            assert(enc@ =~= old(enc)@ + spec_encode_primary(self@));
        }
    }
}

impl<'a> FromCbor<'a> for PrimaryBlock {
    type Error = Error;

    fn decode(dec: &mut Decoder<'a>) -> (r: Result<PrimaryBlock, Error>)
        ensures
            final(dec).data() == old(dec).data(),
            match spec_parse_primary(old(dec).rest()) {
                Ok((v, n)) => r matches Ok(p) && p@ == v && final(dec).pos() == old(dec).pos() + n,
                Err(e) => r == Err::<PrimaryBlock, Error>(e),
            },
    {
        PrimaryBlock::decode_buf(dec)
    }
}

} // verus!

verus! {

impl PrimaryBlockView {
    /// Whether the block's endpoint IDs can be written and read back.
    pub open spec fn wf(self) -> bool {
        &&& self.dest_eid.wf()
        &&& self.src_node_id.wf()
        &&& self.rpt_eid.wf()
    }

    /// The block as it reads back after encoding: its CRC value is the one
    /// computed over the encoded block.
    pub open spec fn with_final_crc(self) -> PrimaryBlockView {
        PrimaryBlockView { crc: self.crc.spec_finalized(spec_primary_body(self)), ..self }
    }
}

/// Reading a CRC field written by [`Crc::encode_and_finalize`] gives back the
/// computed CRC.
pub proof fn lemma_p_crc_roundtrip(crc: Crc, block: Seq<u8>, rest: Seq<u8>)
    requires
        crc != Crc::NoCrc,
    ensures
        p_crc(crc.spec_crc_field(block) + rest, crc.spec_crc_type()) == Ok::<(Crc, nat), Error>(
            (crc.spec_finalized(block), crc.spec_crc_field(block).len()),
        ),
{
    let fin = crc.spec_finalized(block);
    let vb = fin.spec_value_bytes();
    assert(vb.len() == crc.spec_value_size());
    let h = encode_head(MAJOR_BSTR, vb.len() as u64);
    assert(crc.spec_crc_field(block) == h + vb);
    lemma_p_bstr_roundtrip(vb, rest);
    lemma_finalized_crc_verifies(crc, block);
    lemma_skip_concat(h, vb);
}

proof fn lemma_primary_head_roundtrip(p: PrimaryBlockView, rest: Seq<u8>)
    ensures
        spec_parse_primary_head(spec_primary_head_bytes(p) + rest) == Ok::<
            ((usize, u64, u64, u64), nat),
            Error,
        >(
            (
                (spec_primary_len(p), p.version as u64, p.flags.spec_bits(), p.crc.spec_crc_type()),
                spec_primary_head_bytes(p).len(),
            ),
        ),
{
    reveal(spec_parse_primary_head);
    let a = encode_head(MAJOR_ARRAY, spec_primary_len(p) as u64);
    let b = encode_head(MAJOR_UINT, p.version as u64);
    let c = encode_head(MAJOR_UINT, p.flags.spec_bits());
    let d = encode_head(MAJOR_UINT, p.crc.spec_crc_type());
    assert(spec_primary_head_bytes(p) + rest == a + (b + (c + (d + rest))));
    lemma_p_array_len_roundtrip(spec_primary_len(p), b + (c + (d + rest)));
    lemma_skip_concat(a, b + (c + (d + rest)));
    lemma_p_uint_roundtrip(p.version as u64, c + (d + rest));
    lemma_skip_concat(b, c + (d + rest));
    lemma_p_uint_roundtrip(p.flags.spec_bits(), d + rest);
    lemma_skip_concat(c, d + rest);
    lemma_p_uint_roundtrip(p.crc.spec_crc_type(), rest);
}

proof fn lemma_primary_eids_roundtrip(p: PrimaryBlockView, rest: Seq<u8>)
    requires
        p.wf(),
    ensures
        spec_parse_eids(spec_primary_eid_bytes(p) + rest) == Ok::<
            ((EidView, EidView, EidView), nat),
            Error,
        >(((p.dest_eid, p.src_node_id, p.rpt_eid), spec_primary_eid_bytes(p).len())),
{
    reveal(spec_parse_eids);
    let a = spec_encode_eid(p.dest_eid);
    let b = spec_encode_eid(p.src_node_id);
    let c = spec_encode_eid(p.rpt_eid);
    assert(spec_primary_eid_bytes(p) + rest == a + (b + (c + rest)));
    lemma_eid_roundtrip(p.dest_eid, b + (c + rest));
    lemma_skip_concat(a, b + (c + rest));
    lemma_eid_roundtrip(p.src_node_id, c + rest);
    lemma_skip_concat(b, c + rest);
    lemma_eid_roundtrip(p.rpt_eid, rest);
}

proof fn lemma_primary_timing_roundtrip(p: PrimaryBlockView, rest: Seq<u8>)
    ensures
        spec_parse_timing(spec_primary_timing_bytes(p) + rest) == Ok::<
            ((CreationTimestamp, u64), nat),
            Error,
        >(((p.creation_ts, p.lifetime), spec_primary_timing_bytes(p).len())),
{
    reveal(spec_parse_timing);
    let a = encode_head(MAJOR_ARRAY, 2);
    let b = encode_head(MAJOR_UINT, p.creation_ts.time);
    let c = encode_head(MAJOR_UINT, p.creation_ts.seq);
    let d = encode_head(MAJOR_UINT, p.lifetime);
    assert(spec_primary_timing_bytes(p) + rest == a + (b + (c + (d + rest))));
    lemma_p_array_len_roundtrip(2, b + (c + (d + rest)));
    lemma_skip_concat(a, b + (c + (d + rest)));
    lemma_p_uint_roundtrip(p.creation_ts.time, c + (d + rest));
    lemma_skip_concat(b, c + (d + rest));
    lemma_p_uint_roundtrip(p.creation_ts.seq, d + rest);
    lemma_skip_concat(c, d + rest);
    lemma_p_uint_roundtrip(p.lifetime, rest);
}

proof fn lemma_primary_tail_roundtrip(p: PrimaryBlockView, rest: Seq<u8>)
    ensures
        ({
            let body = spec_primary_body(p);
            let tail = spec_primary_fragment_bytes(p) + p.crc.spec_crc_field(body);
            spec_parse_primary_tail(tail + rest, spec_primary_len(p), p.crc.spec_crc_type()) == Ok::<
                ((Option<FragmentInfo>, Crc), nat),
                Error,
            >(((p.fragment, p.crc.spec_finalized(body)), tail.len()))
        }),
{
    reveal(spec_parse_primary_tail);
    let body = spec_primary_body(p);
    let f = spec_primary_fragment_bytes(p);
    let c = p.crc.spec_crc_field(body);
    assert(f + c + rest == f + (c + rest));
    if let Some(fr) = p.fragment {
        let a = encode_head(MAJOR_UINT, fr.offset);
        let b = encode_head(MAJOR_UINT, fr.total_adu_len);
        assert(f + (c + rest) == a + (b + (c + rest)));
        lemma_p_uint_roundtrip(fr.offset, b + (c + rest));
        lemma_skip_concat(a, b + (c + rest));
        lemma_p_uint_roundtrip(fr.total_adu_len, c + rest);
        lemma_skip_concat(f, c + rest);
        assert(a.len() + b.len() == f.len());
    } else {
        assert(f + (c + rest) == c + rest);
        assert((c + rest).skip(0) == c + rest);
    }
    assert(spec_has_fragment(spec_primary_len(p), p.crc.spec_crc_type()) == Some(p.fragment is Some));
    if p.crc != Crc::NoCrc {
        lemma_p_crc_roundtrip(p.crc, body, rest);
    } else {
        assert(c + rest == rest);
    }
}

/// Reading a primary block gives back the block written, with the CRC value
/// computed over the encoding, whatever follows it.
pub proof fn lemma_primary_roundtrip(p: PrimaryBlockView, rest: Seq<u8>)
    requires
        p.wf(),
    ensures
        spec_parse_primary(spec_encode_primary(p) + rest) == Ok::<(PrimaryBlockView, nat), Error>(
            (p.with_final_crc(), spec_encode_primary(p).len()),
        ),
{
    let h = spec_primary_head_bytes(p);
    let e = spec_primary_eid_bytes(p);
    let t = spec_primary_timing_bytes(p);
    let tail = spec_primary_fragment_bytes(p) + p.crc.spec_crc_field(spec_primary_body(p));
    assert(spec_encode_primary(p) + rest == h + (e + (t + (tail + rest))));
    lemma_primary_head_roundtrip(p, e + (t + (tail + rest)));
    lemma_skip_concat(h, e + (t + (tail + rest)));
    lemma_primary_eids_roundtrip(p, t + (tail + rest));
    lemma_skip_concat(e, t + (tail + rest));
    lemma_primary_timing_roundtrip(p, tail + rest);
    lemma_skip_concat(t, tail + rest);
    lemma_primary_tail_roundtrip(p, rest);
    BundleFlags::lemma_bits(0, p.flags);
    let q = p.with_final_crc();
    assert(q.version == (p.version as u64) as u8);
}

/// Re-encoding a block whose CRC value was computed gives the same bytes,
/// and that CRC verifies against them.
pub proof fn lemma_final_crc_verifies(p: PrimaryBlockView)
    ensures
        spec_encode_primary(p.with_final_crc()) == spec_encode_primary(p),
        p.with_final_crc().crc.spec_verify(
            spec_encode_primary(p),
            spec_encode_primary(p).len() - p.crc.spec_value_size(),
        ) == Ok::<(), Error>(()),
{
    let q = p.with_final_crc();
    let body = spec_primary_body(p);
    assert(spec_primary_body(q) == body);
    if p.crc != Crc::NoCrc {
        lemma_finalized_crc_verifies(p.crc, body);
        assert(q.crc.spec_finalized(body) == p.crc.spec_finalized(body));
    }
}

/// Parsing a primary block fails only with a decoding failure, never with
/// a filter's rejection.
#[verifier::spinoff_prover]
#[verifier::rlimit(50)]
pub proof fn lemma_parse_primary_not_rejected(s: Seq<u8>)
    ensures
        !(spec_parse_primary(s) matches Err(Error::FilterRejected(_))),
{
    reveal(crate::bpv7::parse::p_uint);
    reveal(crate::bpv7::parse::p_array_len);
    reveal(crate::bpv7::parse::p_bstr);
    reveal(crate::bpv7::parse::p_uint_or_tstr);
    reveal(spec_parse_primary_head);
    reveal(spec_parse_eids);
    reveal(spec_parse_timing);
    reveal(spec_parse_primary_tail);
}

} // verus!
