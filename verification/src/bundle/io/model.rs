//! The model of reading a bundle from a stream: what the streaming reader
//! gives for given bytes, as a function of those bytes.

use vstd::prelude::*;

use crate::cbor::spec::{encode_head, spec_read_marker, BREAK, INDEFINITE_ARRAY, MAJOR_BSTR};
use crate::cbor::stream::advance_pos;
use crate::cbor::Error as CborError;

use crate::bpv7::bundle::canonical::{
    first_match, is_first_match, lemma_first_match,
    PAYLOAD_BLOCK_NUMBER, lemma_block_roundtrip, lemma_payload_head_roundtrip, of_type, p_crc_opt, spec_block_body,
    spec_encode_block, spec_parse_block_stream, BlockDataView, CanonicalBlockView,
    PAYLOAD_BLOCK_TYPE,
};
use crate::bpv7::bundle::primary::{
    lemma_final_crc_verifies, lemma_p_crc_roundtrip, lemma_primary_roundtrip, spec_encode_primary,
    spec_parse_primary, PrimaryBlockView,
};
use crate::bpv7::bundle::{payload_count, spec_encode_blocks, spec_encode_bundle, BundleView};
use crate::bpv7::crc::lemma_finalized_crc_verifies;
use crate::bundle::stored::{resolve_block, resolve_blocks, spec_payload_range};
use super::reader::holds_copy;
use crate::bpv7::crc::{zeroed, Crc};
use crate::bpv7::error::Error;

verus! {

/// The blocks with the CRC of block `idx` set to `c`.
pub open spec fn set_crc(blocks: Seq<CanonicalBlockView>, idx: Option<usize>, c: Crc) -> Seq<CanonicalBlockView> {
    match idx {
        Some(i) => if i < blocks.len() {
            blocks.update(i as int, CanonicalBlockView { crc: c, ..blocks[i as int] })
        } else {
            blocks
        },
        None => blocks,
    }
}

/// The CRC check of an extension block read from the stream.
pub open spec fn ext_crc_check(v: CanonicalBlockView) -> Result<(), Error> {
    if v.crc == Crc::NoCrc {
        Ok(())
    } else {
        v.crc.spec_verify(spec_encode_block(v), spec_encode_block(v).len() - v.crc.spec_value_size())
    }
}

/// The outcome of reading a bundle whose primary block is `p`, from the
/// outcome of reading its blocks.
pub open spec fn lift_outcome(p: PrimaryBlockView, r: Result<Seq<CanonicalBlockView>, Error>) -> Result<
    (PrimaryBlockView, Seq<CanonicalBlockView>),
    Error,
> {
    match r {
        Ok(bs) => Ok((p, bs)),
        Err(e) => Err(e),
    }
}

/// What reading the rest of a bundle gives from between two blocks: the
/// blocks read so far are `blocks`, the payload block (if read) is at
/// `idx`, and the stream at position `pos` holds `s`. The bundle's end
/// gives the blocks; an extension block is read and checked; of the payload
/// block the header is read and its data skipped, and its CRC follows.
#[verifier::opaque]
pub open spec fn spec_rest_blocks(
    blocks: Seq<CanonicalBlockView>,
    idx: Option<usize>,
    s: Seq<u8>,
    pos: u64,
) -> Result<Seq<CanonicalBlockView>, Error>
    decreases s.len(), 0int,
{
    if s.len() == 0 {
        Err(Error::Cbor(CborError::UnexpectedEof))
    } else if s[0] == BREAK {
        Ok(blocks)
    } else {
        match spec_parse_block_stream(s, pos) {
            Err(e) => Err(e),
            Ok(((v, is_payload), n)) => if n == 0 || n > s.len() {
                Err(Error::IncompleteRead)
            } else if is_payload {
                if idx is Some {
                    Err(Error::InvalidPayloadCount(2))
                } else {
                    let len = match v.data {
                        BlockDataView::Retained { len, .. } => len as nat,
                        BlockDataView::Inline(d) => d.len(),
                    };
                    if n + len > s.len() {
                        Err(Error::Cbor(CborError::UnexpectedEof))
                    } else {
                        spec_rest_crc(
                            blocks.push(v),
                            Some(blocks.len() as usize),
                            v.crc.spec_crc_type(),
                            s.skip((n + len) as int),
                            advance_pos(pos, n + len),
                        )
                    }
                }
            } else {
                match ext_crc_check(v) {
                    Err(e) => Err(e),
                    Ok(()) => spec_rest_blocks(blocks.push(v), idx, s.skip(n as int), advance_pos(pos, n)),
                }
            },
        }
    }
}

/// What reading the rest of a bundle gives right after the payload data:
/// the payload block's CRC (if it has one), then the blocks that follow.
#[verifier::opaque]
pub open spec fn spec_rest_crc(
    blocks: Seq<CanonicalBlockView>,
    idx: Option<usize>,
    crc_type: u64,
    s: Seq<u8>,
    pos: u64,
) -> Result<Seq<CanonicalBlockView>, Error>
    decreases s.len(), 1int,
{
    match p_crc_opt(s, crc_type) {
        Err(e) => Err(e),
        Ok((c, n)) => if n > s.len() {
            Err(Error::IncompleteRead)
        } else {
            spec_rest_blocks(set_crc(blocks, idx, c), idx, s.skip(n as int), advance_pos(pos, n))
        },
    }
}

/// The CRC check of a primary block read from the stream.
pub open spec fn primary_crc_check(p: PrimaryBlockView) -> Result<(), Error> {
    p.crc.spec_verify(spec_encode_primary(p), spec_encode_primary(p).len() - p.crc.spec_value_size())
}

/// What reading a whole bundle from stream `s`, at position `pos`, gives:
/// the bundle's start, its primary block (whose CRC must match), then its
/// blocks up to the bundle's end.
#[verifier::opaque]
pub open spec fn spec_read_bundle(s: Seq<u8>, pos: u64) -> Result<(PrimaryBlockView, Seq<CanonicalBlockView>), Error> {
    match spec_read_marker(s, INDEFINITE_ARRAY, "indefinite array").0 {
        Err(e) => Err(Error::Cbor(e)),
        Ok(()) => match spec_parse_primary(s.skip(1)) {
            Err(e) => Err(e),
            Ok((p, n)) => match primary_crc_check(p) {
                Err(e) => Err(e),
                Ok(()) => if n + 1 > s.len() {
                    Err(Error::IncompleteRead)
                } else {
                    match spec_rest_blocks(Seq::empty(), None, s.skip((n + 1) as int), advance_pos(pos, n + 1)) {
                        Err(e) => Err(e),
                        Ok(bs) => Ok((p, bs)),
                    }
                },
            },
        },
    }
}

/// What reading a bundle's headers gives from between two blocks: the
/// extension blocks read so far are `blocks`, and the stream at position
/// `pos` holds `s`. An extension block is read and checked; at the payload
/// block's header reading stops, with the blocks read and that header; the
/// bundle's end before a payload block is an incomplete read.
#[verifier::opaque]
pub open spec fn spec_rest_headers(blocks: Seq<CanonicalBlockView>, s: Seq<u8>, pos: u64) -> Result<
    (Seq<CanonicalBlockView>, CanonicalBlockView),
    Error,
>
    decreases s.len(),
{
    if s.len() == 0 {
        Err(Error::Cbor(CborError::UnexpectedEof))
    } else if s[0] == BREAK {
        Err(Error::IncompleteRead)
    } else {
        match spec_parse_block_stream(s, pos) {
            Err(e) => Err(e),
            Ok(((v, is_payload), n)) => if n == 0 || n > s.len() {
                Err(Error::IncompleteRead)
            } else if is_payload {
                Ok((blocks, v))
            } else {
                match ext_crc_check(v) {
                    Err(e) => Err(e),
                    Ok(()) => spec_rest_headers(blocks.push(v), s.skip(n as int), advance_pos(pos, n)),
                }
            },
        }
    }
}

/// What reading a bundle's headers from stream `s`, at position `pos`,
/// gives: its primary block (whose CRC must match), its extension blocks
/// before the payload block, and the payload block's header (its data left
/// in the stream).
#[verifier::opaque]
pub open spec fn spec_read_headers_at(s: Seq<u8>, pos: u64) -> Result<
    (PrimaryBlockView, Seq<CanonicalBlockView>, CanonicalBlockView),
    Error,
> {
    match spec_read_marker(s, INDEFINITE_ARRAY, "indefinite array").0 {
        Err(e) => Err(Error::Cbor(e)),
        Ok(()) => match spec_parse_primary(s.skip(1)) {
            Err(e) => Err(e),
            Ok((p, n)) => match primary_crc_check(p) {
                Err(e) => Err(e),
                Ok(()) => if n + 1 > s.len() {
                    Err(Error::IncompleteRead)
                } else {
                    match spec_rest_headers(Seq::empty(), s.skip((n + 1) as int), advance_pos(pos, n + 1)) {
                        Err(e) => Err(e),
                        Ok((exts, v)) => Ok((p, exts, v)),
                    }
                },
            },
        },
    }
}

/// What reading a bundle's headers from the start of stream `s` gives.
pub open spec fn spec_read_headers(s: Seq<u8>) -> Result<
    (PrimaryBlockView, Seq<CanonicalBlockView>, CanonicalBlockView),
    Error,
> {
    spec_read_headers_at(s, 0)
}

/// Reading headers from between two blocks, one step: the end, a failed
/// parse, an extension block, or the payload block's header.
pub proof fn lemma_rest_headers_step(blocks: Seq<CanonicalBlockView>, s: Seq<u8>, pos: u64)
    ensures
        s.len() == 0 ==> spec_rest_headers(blocks, s, pos) == Err::<
            (Seq<CanonicalBlockView>, CanonicalBlockView),
            Error,
        >(Error::Cbor(CborError::UnexpectedEof)),
        s.len() > 0 && s[0] == BREAK ==> spec_rest_headers(blocks, s, pos) == Err::<
            (Seq<CanonicalBlockView>, CanonicalBlockView),
            Error,
        >(Error::IncompleteRead),
        s.len() > 0 && s[0] != BREAK ==> match spec_parse_block_stream(s, pos) {
            Err(e) => spec_rest_headers(blocks, s, pos) == Err::<(Seq<CanonicalBlockView>, CanonicalBlockView), Error>(
                e,
            ),
            Ok(((v, is_payload), n)) => 1 <= n <= s.len() ==> spec_rest_headers(blocks, s, pos) == if is_payload {
                Ok::<(Seq<CanonicalBlockView>, CanonicalBlockView), Error>((blocks, v))
            } else {
                match ext_crc_check(v) {
                    Err(e) => Err(e),
                    Ok(()) => spec_rest_headers(blocks.push(v), s.skip(n as int), advance_pos(pos, n)),
                }
            },
        },
{
    reveal_with_fuel(spec_rest_headers, 2);
}

/// Reading a bundle's headers, unfolded.
pub proof fn lemma_read_headers_step(s: Seq<u8>, pos: u64)
    ensures
        spec_read_headers_at(s, pos) == match spec_read_marker(s, INDEFINITE_ARRAY, "indefinite array").0 {
            Err(e) => Err(Error::Cbor(e)),
            Ok(()) => match spec_parse_primary(s.skip(1)) {
                Err(e) => Err(e),
                Ok((p, n)) => match primary_crc_check(p) {
                    Err(e) => Err(e),
                    Ok(()) => if n + 1 > s.len() {
                        Err(Error::IncompleteRead)
                    } else {
                        match spec_rest_headers(Seq::empty(), s.skip((n + 1) as int), advance_pos(pos, n + 1)) {
                            Err(e) => Err(e),
                            Ok((exts, v)) => Ok((p, exts, v)),
                        }
                    },
                },
            },
        },
{
    reveal(spec_read_headers_at);
}

/// Reading the rest of a bundle, one step: the end, a failed parse, an
/// extension block, or the payload block's header.
pub proof fn lemma_rest_blocks_step(blocks: Seq<CanonicalBlockView>, idx: Option<usize>, s: Seq<u8>, pos: u64)
    ensures
        s.len() == 0 ==> spec_rest_blocks(blocks, idx, s, pos) == Err::<Seq<CanonicalBlockView>, Error>(
            Error::Cbor(CborError::UnexpectedEof),
        ),
        s.len() > 0 && s[0] == BREAK ==> spec_rest_blocks(blocks, idx, s, pos) == Ok::<
            Seq<CanonicalBlockView>,
            Error,
        >(blocks),
        s.len() > 0 && s[0] != BREAK ==> match spec_parse_block_stream(s, pos) {
            Err(e) => spec_rest_blocks(blocks, idx, s, pos) == Err::<Seq<CanonicalBlockView>, Error>(e),
            Ok(((v, is_payload), n)) => 1 <= n <= s.len() ==> if is_payload {
                spec_rest_blocks(blocks, idx, s, pos) == if idx is Some {
                    Err::<Seq<CanonicalBlockView>, Error>(Error::InvalidPayloadCount(2))
                } else {
                    let len = match v.data {
                        BlockDataView::Retained { len, .. } => len as nat,
                        BlockDataView::Inline(d) => d.len(),
                    };
                    if n + len > s.len() {
                        Err(Error::Cbor(CborError::UnexpectedEof))
                    } else {
                        spec_rest_crc(
                            blocks.push(v),
                            Some(blocks.len() as usize),
                            v.crc.spec_crc_type(),
                            s.skip((n + len) as int),
                            advance_pos(pos, n + len),
                        )
                    }
                }
            } else {
                spec_rest_blocks(blocks, idx, s, pos) == match ext_crc_check(v) {
                    Err(e) => Err(e),
                    Ok(()) => spec_rest_blocks(blocks.push(v), idx, s.skip(n as int), advance_pos(pos, n)),
                }
            },
        },
{
    reveal_with_fuel(spec_rest_blocks, 2);
    reveal_with_fuel(spec_rest_crc, 2);
}

/// Reading the payload block's CRC, one step.
pub proof fn lemma_rest_crc_step(blocks: Seq<CanonicalBlockView>, idx: Option<usize>, crc_type: u64, s: Seq<u8>, pos: u64)
    ensures
        spec_rest_crc(blocks, idx, crc_type, s, pos) == match p_crc_opt(s, crc_type) {
            Err(e) => Err(e),
            Ok((c, n)) => if n > s.len() {
                Err(Error::IncompleteRead)
            } else {
                spec_rest_blocks(set_crc(blocks, idx, c), idx, s.skip(n as int), advance_pos(pos, n))
            },
        },
{
    reveal_with_fuel(spec_rest_crc, 2);
    reveal_with_fuel(spec_rest_blocks, 2);
}

/// Reading a whole bundle, unfolded.
pub proof fn lemma_read_bundle_step(s: Seq<u8>, pos: u64)
    ensures
        spec_read_bundle(s, pos) == match spec_read_marker(s, INDEFINITE_ARRAY, "indefinite array").0 {
            Err(e) => Err(Error::Cbor(e)),
            Ok(()) => match spec_parse_primary(s.skip(1)) {
                Err(e) => Err(e),
                Ok((p, n)) => match primary_crc_check(p) {
                    Err(e) => Err(e),
                    Ok(()) => if n + 1 > s.len() {
                        Err(Error::IncompleteRead)
                    } else {
                        lift_outcome(p, spec_rest_blocks(Seq::empty(), None, s.skip((n + 1) as int), advance_pos(pos, n + 1)))
                    },
                },
            },
        },
{
    reveal(spec_read_bundle);
}

/// Advancing a position twice is advancing it by the sum.
pub proof fn lemma_advance_pos_add(pos: u64, a: nat, b: nat)
    ensures
        advance_pos(advance_pos(pos, a), b) == advance_pos(pos, a + b),
        advance_pos(pos, 0) == pos,
{
    let m: int = 0x1_0000_0000_0000_0000;
    let x: int = pos + a;
    vstd::arithmetic::div_mod::lemma_add_mod_noop(x, b as int, m);
    vstd::arithmetic::div_mod::lemma_add_mod_noop_right(x % m, b as int, m);
    vstd::arithmetic::div_mod::lemma_mod_twice(x, m);
    vstd::arithmetic::div_mod::lemma_small_mod(pos as nat, m as nat);
}


/// A block as a stream reader gives it back after it was written at
/// position `pos`: an extension block with the CRC value computed over its
/// encoding; the payload block with that CRC and its data left in the
/// stream, right after the block's header.
pub open spec fn spec_read_back_block(b: CanonicalBlockView, pos: u64) -> CanonicalBlockView {
    match b.data {
        BlockDataView::Inline(d) => if b.block_type == PAYLOAD_BLOCK_TYPE {
            CanonicalBlockView {
                crc: b.with_final_crc().crc,
                data: BlockDataView::Retained {
                    offset: advance_pos(pos, (spec_block_body(b, d).len() - d.len()) as nat),
                    len: d.len() as u64,
                },
                ..b
            }
        } else {
            b.with_final_crc()
        },
        BlockDataView::Retained { .. } => b,
    }
}

/// The blocks as a stream reader gives them back after they were written,
/// one after the other, from position `pos`.
pub open spec fn spec_read_back(bs: Seq<CanonicalBlockView>, pos: u64) -> Seq<CanonicalBlockView>
    decreases bs.len(),
{
    if bs.len() == 0 {
        Seq::empty()
    } else {
        seq![spec_read_back_block(bs[0], pos)] + spec_read_back(
            bs.skip(1),
            advance_pos(pos, spec_encode_block(bs[0]).len()),
        )
    }
}

/// Whether blocks can be written and read back: their data is in memory,
/// each length fits a CBOR head, and there is at most one payload block.
pub open spec fn spec_blocks_writable(bs: Seq<CanonicalBlockView>) -> bool {
    &&& forall|i: int| 0 <= i < bs.len() ==> #[trigger] bs[i].data is Inline
    &&& forall|i: int| 0 <= i < bs.len() ==> #[trigger] bs[i].data->Inline_0.len() <= u64::MAX
    &&& payload_count(bs) <= 1
}

/// The encoding of blocks, taken from the front.
proof fn lemma_encode_blocks_front(bs: Seq<CanonicalBlockView>)
    requires
        bs.len() > 0,
    ensures
        spec_encode_blocks(bs) == spec_encode_block(bs[0]) + spec_encode_blocks(bs.skip(1)),
    decreases bs.len(),
{
    if bs.len() == 1 {
        assert(bs.drop_last().len() == 0);
        assert(bs.skip(1).len() == 0);
        assert(spec_encode_blocks(bs.drop_last()) == Seq::<u8>::empty());
        assert(spec_encode_blocks(bs.skip(1)) == Seq::<u8>::empty());
        assert(bs.last() == bs[0]);
    } else {
        let t = bs.drop_last();
        lemma_encode_blocks_front(t);
        assert(t[0] == bs[0]);
        assert(t.skip(1) == bs.skip(1).drop_last());
        assert(bs.skip(1).last() == bs.last());
    }
}

/// An extension block read back from its own encoding passes its CRC check.
proof fn lemma_ext_crc_check(b: CanonicalBlockView)
    requires
        b.data is Inline,
    ensures
        spec_encode_block(b.with_final_crc()) == spec_encode_block(b),
        ext_crc_check(b.with_final_crc()) == Ok::<(), Error>(()),
{
    let d = b.data->Inline_0;
    let v = b.with_final_crc();
    let body = spec_block_body(b, d);
    assert(spec_block_body(v, d) == body);
    if b.crc != Crc::NoCrc {
        lemma_finalized_crc_verifies(b.crc, body);
        assert(v.crc.spec_finalized(body) == b.crc.spec_finalized(body));
        assert(spec_encode_block(v) == body + b.crc.spec_crc_field(body));
    }
}

/// The reader's check of an extension block is the block's CRC verified
/// against the block's own encoding, at the CRC value: it passes exactly
/// when the CRC the block carries is the one computed over that encoding
/// with the value zeroed, and refuses any other value with `CrcMismatch`.
/// A block without a CRC always passes.
pub proof fn lemma_ext_crc_check_verifies(v: CanonicalBlockView)
    requires
        v.data is Inline,
    ensures
        ext_crc_check(v) == v.crc.spec_verify(spec_encode_block(v), spec_encode_block(v).len() - v.crc.spec_value_size()),
        v.crc == Crc::NoCrc ==> ext_crc_check(v) == Ok::<(), Error>(()),
        v.crc != Crc::NoCrc ==> ext_crc_check(v) == if v.crc == v.crc.spec_finalized(
            spec_block_body(v, v.data->Inline_0),
        ) {
            Ok::<(), Error>(())
        } else {
            Err(Error::CrcMismatch)
        },
{
    if v.crc != Crc::NoCrc {
        let body = spec_block_body(v, v.data->Inline_0);
        let n = v.crc.spec_value_size();
        let head = encode_head(MAJOR_BSTR, n as u64);
        let fin = v.crc.spec_finalized(body);
        let bytes = spec_encode_block(v);
        assert(bytes == body + head + fin.spec_value_bytes());
        assert(fin.spec_value_bytes().len() == n);
        let off = bytes.len() - n;
        assert(zeroed(bytes, off, n) =~= body + head + Seq::new(n, |i: int| 0u8));
        assert(v.crc.spec_computed(zeroed(bytes, off, n)) == fin);
    }
}

/// Reading a bundle stops at an extension block whose CRC does not match:
/// where the next block in the stream is an extension block carrying a CRC
/// other than the one computed over its encoding, reading the headers and
/// reading the whole bundle from there both fail with `CrcMismatch`.
pub proof fn lemma_read_refuses_ext_crc_mismatch(
    blocks: Seq<CanonicalBlockView>,
    idx: Option<usize>,
    s: Seq<u8>,
    pos: u64,
    v: CanonicalBlockView,
    n: nat,
)
    requires
        s.len() > 0,
        s[0] != BREAK,
        spec_parse_block_stream(s, pos) == Ok::<((CanonicalBlockView, bool), nat), Error>(((v, false), n)),
        1 <= n <= s.len(),
        v.crc != Crc::NoCrc,
        v.crc != v.crc.spec_finalized(spec_block_body(v, v.data->Inline_0)),
    ensures
        spec_rest_headers(blocks, s, pos) == Err::<(Seq<CanonicalBlockView>, CanonicalBlockView), Error>(
            Error::CrcMismatch,
        ),
        spec_rest_blocks(blocks, idx, s, pos) == Err::<Seq<CanonicalBlockView>, Error>(Error::CrcMismatch),
{
    lemma_ext_crc_check_verifies(v);
    lemma_rest_headers_step(blocks, s, pos);
    lemma_rest_blocks_step(blocks, idx, s, pos);
}

/// The first byte of an encoded block is not the break byte.
proof fn lemma_block_not_break(b: CanonicalBlockView, rest: Seq<u8>)
    requires
        b.data is Inline,
    ensures
        spec_encode_block(b).len() > 0,
        (spec_encode_block(b) + rest)[0] != BREAK,
{
    assert((4u8 << 5u8) | 5u8 != 0xFFu8 && (4u8 << 5u8) | 6u8 != 0xFFu8) by (bit_vector);
    assert(spec_encode_block(b)[0] == spec_block_body(b, b.data->Inline_0)[0]);
}


/// Reading an extension block written at position `pos`: the block read
/// back, then the rest from after it.
proof fn lemma_ext_block_step(
    acc: Seq<CanonicalBlockView>,
    idx: Option<usize>,
    b: CanonicalBlockView,
    after: Seq<u8>,
    pos: u64,
)
    requires
        b.data is Inline,
        b.data->Inline_0.len() <= u64::MAX,
        b.block_type != PAYLOAD_BLOCK_TYPE,
    ensures
        spec_rest_blocks(acc, idx, spec_encode_block(b) + after, pos) == spec_rest_blocks(
            acc.push(spec_read_back_block(b, pos)),
            idx,
            after,
            advance_pos(pos, spec_encode_block(b).len()),
        ),
{
    let s = spec_encode_block(b) + after;
    lemma_rest_blocks_step(acc, idx, s, pos);
    lemma_block_not_break(b, after);
    lemma_block_roundtrip(b, after, 0, pos);
    lemma_ext_crc_check(b);
    assert(s.skip(spec_encode_block(b).len() as int) == after);
}

/// Reading the payload block written at position `pos`: its header, its
/// data skipped, its CRC, then the rest from after it.
proof fn lemma_payload_block_step(
    acc: Seq<CanonicalBlockView>,
    b: CanonicalBlockView,
    after: Seq<u8>,
    pos: u64,
)
    requires
        b.data is Inline,
        b.data->Inline_0.len() <= u64::MAX,
        b.block_type == PAYLOAD_BLOCK_TYPE,
        acc.len() < usize::MAX,
    ensures
        spec_rest_blocks(acc, None, spec_encode_block(b) + after, pos) == spec_rest_blocks(
            acc.push(spec_read_back_block(b, pos)),
            Some(acc.len() as usize),
            after,
            advance_pos(pos, spec_encode_block(b).len()),
        ),
{
    let s = spec_encode_block(b) + after;
    let d = b.data->Inline_0;
    let body = spec_block_body(b, d);
    let h = (body.len() - d.len()) as nat;
    let field = b.crc.spec_crc_field(body);
    lemma_rest_blocks_step(acc, None, s, pos);
    lemma_block_not_break(b, after);
    lemma_payload_head_roundtrip(b, after, pos);
    let v0 = CanonicalBlockView {
        crc: Crc::spec_placeholder(b.crc.spec_crc_type())->Ok_0,
        data: BlockDataView::Retained { offset: advance_pos(pos, h), len: d.len() as u64 },
        ..b
    };
    assert(spec_encode_block(b) == body + field);
    assert(s.skip((h + d.len()) as int) == field + after);
    lemma_rest_crc_step(
        acc.push(v0),
        Some(acc.len() as usize),
        v0.crc.spec_crc_type(),
        field + after,
        advance_pos(pos, h + d.len()),
    );
    let fin = b.crc.spec_finalized(body);
    if b.crc != Crc::NoCrc {
        lemma_p_crc_roundtrip(b.crc, body, after);
    } else {
        assert(field + after == after);
    }
    assert(p_crc_opt(field + after, b.crc.spec_crc_type()) == Ok::<(Crc, nat), Error>(
        (fin, field.len()),
    ));
    assert((field + after).skip(field.len() as int) == after);
    lemma_advance_pos_add(pos, h + d.len(), field.len());
    assert(set_crc(acc.push(v0), Some(acc.len() as usize), fin) == acc.push(
        spec_read_back_block(b, pos),
    ));
}

/// Reading written blocks, then the bundle's end, from between two blocks
/// gives the blocks read so far followed by the blocks read back.
#[verifier::spinoff_prover]
#[verifier::rlimit(40)]
proof fn lemma_rest_blocks_roundtrip(
    acc: Seq<CanonicalBlockView>,
    idx: Option<usize>,
    bs: Seq<CanonicalBlockView>,
    rest: Seq<u8>,
    pos: u64,
)
    requires
        spec_blocks_writable(bs),
        idx is Some ==> payload_count(bs) == 0,
        acc.len() + bs.len() <= usize::MAX,
    ensures
        spec_rest_blocks(acc, idx, spec_encode_blocks(bs) + seq![BREAK] + rest, pos) == Ok::<
            Seq<CanonicalBlockView>,
            Error,
        >(acc + spec_read_back(bs, pos)),
    decreases bs.len(),
{
    let s = spec_encode_blocks(bs) + seq![BREAK] + rest;
    if bs.len() == 0 {
        lemma_rest_blocks_step(acc, idx, s, pos);
        assert(s[0] == BREAK);
        assert(acc + spec_read_back(bs, pos) == acc);
    } else {
        let b = bs[0];
        let tail = bs.skip(1);
        let after = spec_encode_blocks(tail) + seq![BREAK] + rest;
        let pos1 = advance_pos(pos, spec_encode_block(b).len());
        lemma_encode_blocks_front(bs);
        assert(s == spec_encode_block(b) + after);
        assert(bs == seq![b] + tail);
        tail.lemma_filter_prepend(b, of_type(PAYLOAD_BLOCK_TYPE));
        assert(spec_blocks_writable(tail)) by {
            assert forall|i: int| 0 <= i < tail.len() implies #[trigger] tail[i].data is Inline by {
                assert(tail[i] == bs[i + 1]);
            }
            assert forall|i: int| 0 <= i < tail.len() implies #[trigger] tail[i].data->Inline_0.len()
                <= u64::MAX by {
                assert(tail[i] == bs[i + 1]);
            }
        }
        assert(b.data is Inline);
        assert(b.data->Inline_0.len() <= u64::MAX);
        let acc1 = acc.push(spec_read_back_block(b, pos));
        assert(acc + spec_read_back(bs, pos) == acc1 + spec_read_back(tail, pos1));
        if b.block_type == PAYLOAD_BLOCK_TYPE {
            lemma_payload_block_step(acc, b, after, pos);
            lemma_rest_blocks_roundtrip(acc1, Some(acc.len() as usize), tail, rest, pos1);
        } else {
            lemma_ext_block_step(acc, idx, b, after, pos);
            lemma_rest_blocks_roundtrip(acc1, idx, tail, rest, pos1);
        }
    }
}

/// What a stream reader gives of a written bundle: reading the encoding of
/// a bundle, whatever follows it in the stream, gives back its primary block
/// and its blocks, each CRC holding the value computed when the bundle was
/// written, and the payload's data left in the stream where it was written.
pub proof fn lemma_read_written_bundle(b: BundleView, rest: Seq<u8>, pos: u64)
    requires
        b.primary.wf(),
        spec_blocks_writable(b.blocks),
        b.blocks.len() <= usize::MAX,
    ensures
        spec_read_bundle(spec_encode_bundle(b) + rest, pos) == Ok::<
            (PrimaryBlockView, Seq<CanonicalBlockView>),
            Error,
        >(
            (
                b.primary.with_final_crc(),
                spec_read_back(b.blocks, advance_pos(pos, 1 + spec_encode_primary(b.primary).len())),
            ),
        ),
{
    let p = b.primary;
    let ep = spec_encode_primary(p);
    let after = spec_encode_blocks(b.blocks) + seq![BREAK] + rest;
    let s = spec_encode_bundle(b) + rest;
    assert(s == seq![INDEFINITE_ARRAY] + (ep + after));
    assert(s.skip(1) == ep + after);
    assert(s.skip((ep.len() + 1) as int) == after);
    lemma_read_bundle_step(s, pos);
    lemma_primary_roundtrip(p, after);
    lemma_final_crc_verifies(p);
    lemma_rest_blocks_roundtrip(Seq::empty(), None, b.blocks, rest, advance_pos(pos, ep.len() + 1));
    assert(Seq::<CanonicalBlockView>::empty() + spec_read_back(
        b.blocks,
        advance_pos(pos, ep.len() + 1),
    ) == spec_read_back(b.blocks, advance_pos(pos, ep.len() + 1)));
}

/// The payload block's header as a stream reader gives it after the block
/// was written at position `pos`: the block read back, with the placeholder
/// of its CRC type (the CRC value follows the data in the stream).
pub open spec fn spec_payload_header_back(b: CanonicalBlockView, pos: u64) -> CanonicalBlockView {
    CanonicalBlockView { crc: Crc::spec_placeholder(b.crc.spec_crc_type())->Ok_0, ..spec_read_back_block(b, pos) }
}

/// Reading headers at an extension block written at position `pos`: the
/// block read back, then the headers from after it.
proof fn lemma_headers_ext_step(acc: Seq<CanonicalBlockView>, b: CanonicalBlockView, after: Seq<u8>, pos: u64)
    requires
        b.data is Inline,
        b.data->Inline_0.len() <= u64::MAX,
        b.block_type != PAYLOAD_BLOCK_TYPE,
    ensures
        spec_rest_headers(acc, spec_encode_block(b) + after, pos) == spec_rest_headers(
            acc.push(spec_read_back_block(b, pos)),
            after,
            advance_pos(pos, spec_encode_block(b).len()),
        ),
{
    let s = spec_encode_block(b) + after;
    lemma_rest_headers_step(acc, s, pos);
    lemma_block_not_break(b, after);
    lemma_block_roundtrip(b, after, 0, pos);
    lemma_ext_crc_check(b);
    assert(s.skip(spec_encode_block(b).len() as int) == after);
}

/// Reading headers at the payload block written at position `pos`: its
/// header, and reading stops there.
proof fn lemma_headers_payload_step(acc: Seq<CanonicalBlockView>, b: CanonicalBlockView, after: Seq<u8>, pos: u64)
    requires
        b.data is Inline,
        b.data->Inline_0.len() <= u64::MAX,
        b.block_type == PAYLOAD_BLOCK_TYPE,
    ensures
        spec_rest_headers(acc, spec_encode_block(b) + after, pos) == Ok::<
            (Seq<CanonicalBlockView>, CanonicalBlockView),
            Error,
        >((acc, spec_payload_header_back(b, pos))),
{
    let s = spec_encode_block(b) + after;
    let d = b.data->Inline_0;
    lemma_rest_headers_step(acc, s, pos);
    lemma_block_not_break(b, after);
    lemma_payload_head_roundtrip(b, after, pos);
    assert(spec_block_body(b, d).len() - d.len() >= 1);
    assert(spec_encode_block(b).len() >= spec_block_body(b, d).len());
}

/// Reading headers from between two blocks over written blocks whose first
/// payload block is at `k`: the extension blocks before it read back, then
/// its header.
proof fn lemma_rest_headers_roundtrip(
    acc: Seq<CanonicalBlockView>,
    bs: Seq<CanonicalBlockView>,
    rest: Seq<u8>,
    pos: u64,
    k: int,
)
    requires
        spec_blocks_writable(bs),
        0 <= k < bs.len(),
        bs[k].block_type == PAYLOAD_BLOCK_TYPE,
        forall|j: int| 0 <= j < k ==> (#[trigger] bs[j]).block_type != PAYLOAD_BLOCK_TYPE,
    ensures
        spec_rest_headers(acc, spec_encode_blocks(bs) + seq![BREAK] + rest, pos) == Ok::<
            (Seq<CanonicalBlockView>, CanonicalBlockView),
            Error,
        >(
            (
                acc + spec_read_back(bs.take(k), pos),
                spec_payload_header_back(bs[k], advance_pos(pos, spec_encode_blocks(bs.take(k)).len())),
            ),
        ),
    decreases k,
{
    let s = spec_encode_blocks(bs) + seq![BREAK] + rest;
    let b = bs[0];
    let tail = bs.skip(1);
    let after = spec_encode_blocks(tail) + seq![BREAK] + rest;
    lemma_encode_blocks_front(bs);
    assert(s == spec_encode_block(b) + after);
    assert(b.data is Inline);
    assert(b.data->Inline_0.len() <= u64::MAX);
    if k == 0 {
        lemma_headers_payload_step(acc, b, after, pos);
        assert(bs.take(0) =~= Seq::<CanonicalBlockView>::empty());
        assert(spec_encode_blocks(bs.take(0)) =~= Seq::<u8>::empty());
        lemma_advance_pos_add(pos, 0, 0);
        assert(acc + spec_read_back(bs.take(0), pos) =~= acc);
    } else {
        let pos1 = advance_pos(pos, spec_encode_block(b).len());
        lemma_headers_ext_step(acc, b, after, pos);
        let acc1 = acc.push(spec_read_back_block(b, pos));
        assert(spec_blocks_writable(tail)) by {
            assert forall|i: int| 0 <= i < tail.len() implies #[trigger] tail[i].data is Inline by {
                assert(tail[i] == bs[i + 1]);
            }
            assert forall|i: int| 0 <= i < tail.len() implies #[trigger] tail[i].data->Inline_0.len()
                <= u64::MAX by {
                assert(tail[i] == bs[i + 1]);
            }
            assert(bs == seq![b] + tail);
            tail.lemma_filter_prepend(b, of_type(PAYLOAD_BLOCK_TYPE));
        }
        assert forall|j: int| 0 <= j < k - 1 implies (#[trigger] tail[j]).block_type != PAYLOAD_BLOCK_TYPE by {
            assert(tail[j] == bs[j + 1]);
        }
        assert(tail[k - 1] == bs[k]);
        lemma_rest_headers_roundtrip(acc1, tail, rest, pos1, k - 1);
        let front = bs.take(k);
        lemma_encode_blocks_front(front);
        assert(front[0] == b);
        assert(front.skip(1) =~= tail.take(k - 1));
        lemma_advance_pos_add(pos, spec_encode_block(b).len(), spec_encode_blocks(tail.take(k - 1)).len());
        assert(spec_read_back(front, pos) =~= seq![spec_read_back_block(b, pos)] + spec_read_back(
            tail.take(k - 1),
            pos1,
        ));
        assert(acc1 + spec_read_back(tail.take(k - 1), pos1) =~= acc + spec_read_back(front, pos));
    }
}

/// What reading a written bundle's headers gives: its primary block, the
/// extension blocks before its (first) payload block read back, each CRC
/// holding the value computed when the bundle was written, and the payload
/// block's header, its data left in the stream where it was written.
pub proof fn lemma_read_written_headers(b: BundleView, rest: Seq<u8>, pos: u64, k: int)
    requires
        b.primary.wf(),
        spec_blocks_writable(b.blocks),
        0 <= k < b.blocks.len(),
        b.blocks[k].block_type == PAYLOAD_BLOCK_TYPE,
        forall|j: int| 0 <= j < k ==> (#[trigger] b.blocks[j]).block_type != PAYLOAD_BLOCK_TYPE,
    ensures
        ({
            let pos1 = advance_pos(pos, 1 + spec_encode_primary(b.primary).len());
            spec_read_headers_at(spec_encode_bundle(b) + rest, pos) == Ok::<
                (PrimaryBlockView, Seq<CanonicalBlockView>, CanonicalBlockView),
                Error,
            >(
                (
                    b.primary.with_final_crc(),
                    spec_read_back(b.blocks.take(k), pos1),
                    spec_payload_header_back(
                        b.blocks[k],
                        advance_pos(pos1, spec_encode_blocks(b.blocks.take(k)).len()),
                    ),
                ),
            )
        }),
{
    let p = b.primary;
    let ep = spec_encode_primary(p);
    let after = spec_encode_blocks(b.blocks) + seq![BREAK] + rest;
    let s = spec_encode_bundle(b) + rest;
    assert(s == seq![INDEFINITE_ARRAY] + (ep + after));
    assert(s.skip(1) == ep + after);
    assert(s.skip((ep.len() + 1) as int) == after);
    lemma_read_headers_step(s, pos);
    lemma_primary_roundtrip(p, after);
    lemma_final_crc_verifies(p);
    lemma_rest_headers_roundtrip(Seq::empty(), b.blocks, rest, advance_pos(pos, ep.len() + 1), k);
    assert(Seq::<CanonicalBlockView>::empty() + spec_read_back(b.blocks.take(k), advance_pos(pos, ep.len() + 1))
        == spec_read_back(b.blocks.take(k), advance_pos(pos, ep.len() + 1)));
}

/// Encoding blocks one sequence after another is encoding them together.
proof fn lemma_encode_blocks_concat(a: Seq<CanonicalBlockView>, c: Seq<CanonicalBlockView>)
    ensures
        spec_encode_blocks(a + c) == spec_encode_blocks(a) + spec_encode_blocks(c),
    decreases c.len(),
{
    if c.len() == 0 {
        assert(a + c == a);
        assert(spec_encode_blocks(a) + Seq::<u8>::empty() == spec_encode_blocks(a));
    } else {
        lemma_encode_blocks_concat(a, c.drop_last());
        assert((a + c).drop_last() == a + c.drop_last());
        assert((a + c).last() == c.last());
    }
}

/// A block read back sits where the blocks before it end.
proof fn lemma_read_back_index(bs: Seq<CanonicalBlockView>, pos: u64, i: int)
    requires
        0 <= i < bs.len(),
    ensures
        spec_read_back(bs, pos).len() == bs.len(),
        spec_read_back(bs, pos)[i] == spec_read_back_block(
            bs[i],
            advance_pos(pos, spec_encode_blocks(bs.take(i)).len()),
        ),
    decreases bs.len(),
{
    let pos1 = advance_pos(pos, spec_encode_block(bs[0]).len());
    let tail = bs.skip(1);
    if i == 0 {
        assert(bs.take(0).len() == 0);
        assert(spec_encode_blocks(bs.take(0)) == Seq::<u8>::empty());
        lemma_advance_pos_add(pos, 0, 0);
        if bs.len() > 1 {
            lemma_read_back_index(tail, pos1, 0);
        } else {
            assert(spec_read_back(tail, pos1) == Seq::<CanonicalBlockView>::empty());
        }
    } else {
        lemma_read_back_index(tail, pos1, i - 1);
        lemma_encode_blocks_front(bs.take(i));
        assert(bs.take(i)[0] == bs[0]);
        assert(bs.take(i).skip(1) == tail.take(i - 1));
        assert(tail[i - 1] == bs[i]);
        lemma_advance_pos_add(pos, spec_encode_block(bs[0]).len(), spec_encode_blocks(tail.take(i - 1)).len());
    }
    if bs.len() == 1 {
        assert(spec_read_back(tail, pos1) == Seq::<CanonicalBlockView>::empty());
    } else {
        lemma_read_back_index(tail, pos1, 0);
    }
}

/// The encoding of blocks around one of them.
proof fn lemma_encode_blocks_around(bs: Seq<CanonicalBlockView>, i: int)
    requires
        0 <= i < bs.len(),
    ensures
        spec_encode_blocks(bs) == spec_encode_blocks(bs.take(i)) + (spec_encode_block(bs[i]) + spec_encode_blocks(
            bs.skip(i + 1),
        )),
{
    assert(bs == bs.take(i) + bs.skip(i));
    lemma_encode_blocks_concat(bs.take(i), bs.skip(i));
    lemma_encode_blocks_front(bs.skip(i));
    assert(bs.skip(i)[0] == bs[i]);
    assert(bs.skip(i).skip(1) == bs.skip(i + 1));
}

/// A middle piece of a concatenation.
proof fn lemma_subrange_middle(a: Seq<u8>, d: Seq<u8>, c: Seq<u8>)
    ensures
        (a + d + c).subrange(a.len() as int, (a.len() + d.len()) as int) == d,
{
    assert((a + d + c).subrange(a.len() as int, (a.len() + d.len()) as int) =~= d);
}

/// Where the payload block's data lies in a written bundle: after the
/// bundle's start, the primary block, the blocks before it and its header.
proof fn lemma_payload_bytes(b: BundleView, rest: Seq<u8>, i: int)
    requires
        0 <= i < b.blocks.len(),
        b.blocks[i].data is Inline,
    ensures
        ({
            let bi = b.blocks[i];
            let d = bi.data->Inline_0;
            let s = spec_encode_bundle(b) + rest;
            let at = 1 + spec_encode_primary(b.primary).len() + spec_encode_blocks(b.blocks.take(i)).len() + (
            spec_block_body(bi, d).len() - d.len());
            &&& at + d.len() <= s.len()
            &&& s.subrange(at, at + d.len()) == d
        }),
{
    let bs = b.blocks;
    let ep = spec_encode_primary(b.primary);
    let bi = bs[i];
    let d = bi.data->Inline_0;
    let before = spec_encode_blocks(bs.take(i));
    let after = spec_encode_blocks(bs.skip(i + 1));
    let body = spec_block_body(bi, d);
    let h = (body.len() - d.len()) as nat;
    let field = bi.crc.spec_crc_field(body);
    let pre = body.take(h as int);
    let head = seq![INDEFINITE_ARRAY] + ep + before + pre;
    let tail = field + after + seq![BREAK] + rest;
    lemma_encode_blocks_around(bs, i);
    assert(body =~= pre + d);
    assert(spec_encode_block(bi) == pre + d + field);
    lemma_regroup(seq![INDEFINITE_ARRAY], ep, before, pre, d, field, after, seq![BREAK], rest);
    lemma_subrange_middle(head, d, tail);
}

/// Regrouping a concatenation around one of its pieces.
proof fn lemma_regroup(
    x: Seq<u8>,
    e: Seq<u8>,
    a: Seq<u8>,
    p: Seq<u8>,
    d: Seq<u8>,
    f: Seq<u8>,
    c: Seq<u8>,
    y: Seq<u8>,
    r: Seq<u8>,
)
    ensures
        x + e + (a + (p + d + f + c)) + y + r == (x + e + a + p) + d + (f + c + y + r),
{
    assert(x + e + (a + (p + d + f + c)) + y + r =~= (x + e + a + p) + d + (f + c + y + r));
}

/// Where a written payload's data is found again: the payload block read
/// back from a written bundle (read from the stream's start) points at the
/// bytes of the stream that hold the payload's data.
pub proof fn lemma_read_back_payload_data(b: BundleView, rest: Seq<u8>, i: int)
    requires
        spec_blocks_writable(b.blocks),
        0 <= i < b.blocks.len(),
        b.blocks[i].block_type == PAYLOAD_BLOCK_TYPE,
        spec_encode_bundle(b).len() <= u64::MAX,
    ensures
        ({
            let s = spec_encode_bundle(b) + rest;
            let d = b.blocks[i].data->Inline_0;
            let v = spec_read_back(b.blocks, advance_pos(0, 1 + spec_encode_primary(b.primary).len()))[i];
            &&& v.data matches BlockDataView::Retained { offset, len } && len == d.len() && offset + len <= s.len()
                && s.subrange(offset as int, offset + len) == d
        }),
{
    let bs = b.blocks;
    let ep = spec_encode_primary(b.primary);
    let bi = bs[i];
    assert(bi.data is Inline);
    let d = bi.data->Inline_0;
    let before = spec_encode_blocks(bs.take(i));
    let h = (spec_block_body(bi, d).len() - d.len()) as nat;
    let p0 = advance_pos(0, 1 + ep.len());
    let q = 1 + ep.len() + before.len();
    lemma_payload_bytes(b, rest, i);
    lemma_encode_blocks_around(bs, i);
    assert(q + h <= spec_encode_bundle(b).len());
    lemma_read_back_index(bs, p0, i);
    assert(p0 == 1 + ep.len()) by {
        vstd::arithmetic::div_mod::lemma_small_mod((1 + ep.len()) as nat, 0x1_0000_0000_0000_0000nat);
    }
    assert(advance_pos(p0, before.len()) == q) by {
        vstd::arithmetic::div_mod::lemma_small_mod(q as nat, 0x1_0000_0000_0000_0000nat);
    }
    assert(advance_pos(q as u64, h) == q + h) by {
        vstd::arithmetic::div_mod::lemma_small_mod((q + h) as nat, 0x1_0000_0000_0000_0000nat);
    }
}

/// What a read gives back of a written bundle, payload included: reading
/// the encoding of a bundle from the start of a stream, through a retention
/// that starts empty and keeps the bytes the read took (as a read without
/// filters or mutators does), the payload block read back names the range
/// of the retention that holds the payload's data as it was written.
pub proof fn lemma_read_written_payload(b: BundleView, rest: Seq<u8>, i: int, read: BundleView, ret: Seq<u8>)
    requires
        b.primary.wf(),
        spec_blocks_writable(b.blocks),
        b.blocks.len() <= usize::MAX,
        is_first_match(b.blocks, of_type(PAYLOAD_BLOCK_TYPE), i),
        spec_encode_bundle(b).len() + rest.len() < 0x1_0000_0000_0000_0000,
        spec_read_bundle(spec_encode_bundle(b) + rest, 0) == Ok::<
            (PrimaryBlockView, Seq<CanonicalBlockView>),
            Error,
        >((read.primary, read.blocks)),
        holds_copy(ret, Seq::empty(), spec_encode_bundle(b) + rest, read.blocks),
    ensures
        ({
            let (offset, len) = spec_payload_range(read)->0;
            &&& spec_payload_range(read) is Some
            &&& offset + len <= ret.len()
            &&& ret.subrange(offset as int, offset + len) == b.blocks[i].data->Inline_0
        }),
{
    let s = spec_encode_bundle(b) + rest;
    let p1 = advance_pos(0, 1 + spec_encode_primary(b.primary).len());
    lemma_read_written_bundle(b, rest, 0);
    assert(read.blocks == spec_read_back(b.blocks, p1));
    assert forall|j: int| 0 <= j <= i implies (#[trigger] read.blocks[j]).block_type == b.blocks[j].block_type by {
        lemma_read_back_index(b.blocks, p1, j);
    }
    lemma_read_back_index(b.blocks, p1, i);
    assert(is_first_match(read.blocks, of_type(PAYLOAD_BLOCK_TYPE), i)) by {
        assert forall|j: int| 0 <= j < i implies !of_type(PAYLOAD_BLOCK_TYPE)(#[trigger] read.blocks[j]) by {
            assert(read.blocks[j].block_type == b.blocks[j].block_type);
        }
    }
    lemma_first_match(read.blocks, of_type(PAYLOAD_BLOCK_TYPE), i);
    lemma_read_back_payload_data(b, rest, i);
    let v = read.blocks[i];
    let offset = v.data->offset;
    let len = v.data->len;
    let k: int = ret.len() as int;
    assert(ret == Seq::<u8>::empty() + s.take(k));
    assert(offset + len <= k);
    assert(ret.subrange(offset as int, offset + len) =~= s.subrange(offset as int, offset + len));
}

/// Encoding blocks whose CRC values were computed gives the same bytes.
proof fn lemma_encode_final_blocks(bs: Seq<CanonicalBlockView>)
    requires
        forall|i: int| 0 <= i < bs.len() ==> (#[trigger] bs[i]).data is Inline,
    ensures
        spec_encode_blocks(bs.map_values(|v: CanonicalBlockView| v.with_final_crc())) == spec_encode_blocks(bs),
    decreases bs.len(),
{
    let fs = bs.map_values(|v: CanonicalBlockView| v.with_final_crc());
    if bs.len() > 0 {
        let t = bs.drop_last();
        lemma_encode_final_blocks(t);
        assert(fs.drop_last() =~= t.map_values(|v: CanonicalBlockView| v.with_final_crc()));
        assert(fs.last() == bs.last().with_final_crc());
        lemma_ext_crc_check(bs.last());
    }
}

/// A block read back from a written bundle, its retained data taken from
/// the stream, is the block written with its CRC value computed.
proof fn lemma_resolve_read_back(b: BundleView, rest: Seq<u8>, i: int)
    requires
        spec_blocks_writable(b.blocks),
        0 <= i < b.blocks.len(),
        spec_encode_bundle(b).len() <= u64::MAX,
        b.blocks[i].block_type == PAYLOAD_BLOCK_TYPE ==> b.blocks[i].block_number == PAYLOAD_BLOCK_NUMBER,
    ensures
        resolve_block(
            spec_read_back(b.blocks, advance_pos(0, 1 + spec_encode_primary(b.primary).len()))[i],
            spec_encode_bundle(b) + rest,
        ) == b.blocks[i].with_final_crc(),
{
    let p0 = advance_pos(0, 1 + spec_encode_primary(b.primary).len());
    lemma_read_back_index(b.blocks, p0, i);
    assert(b.blocks[i].data is Inline);
    if b.blocks[i].block_type == PAYLOAD_BLOCK_TYPE {
        lemma_read_back_payload_data(b, rest, i);
    }
}

/// Forwarding a written bundle: reading it from a stream and writing out
/// what was read, its payload data taken from the stream, gives the bytes
/// that were read, whatever followed them in the stream.
pub proof fn lemma_forward_written_bundle(b: BundleView, rest: Seq<u8>)
    requires
        b.primary.wf(),
        spec_blocks_writable(b.blocks),
        b.blocks.len() <= usize::MAX,
        spec_encode_bundle(b).len() <= u64::MAX,
        forall|i: int|
            0 <= i < b.blocks.len() && (#[trigger] b.blocks[i]).block_type == PAYLOAD_BLOCK_TYPE ==> b.blocks[i].block_number
                == PAYLOAD_BLOCK_NUMBER,
    ensures
        ({
            let s = spec_encode_bundle(b) + rest;
            &&& spec_read_bundle(s, 0) is Ok
            &&& spec_encode_bundle(
                BundleView {
                    primary: spec_read_bundle(s, 0)->Ok_0.0,
                    blocks: resolve_blocks(spec_read_bundle(s, 0)->Ok_0.1, s),
                },
            ) == spec_encode_bundle(b)
        }),
{
    let s = spec_encode_bundle(b) + rest;
    let bs = b.blocks;
    let p0 = advance_pos(0, 1 + spec_encode_primary(b.primary).len());
    lemma_read_written_bundle(b, rest, 0);
    let back = spec_read_back(bs, p0);
    let fs = bs.map_values(|v: CanonicalBlockView| v.with_final_crc());
    assert(resolve_blocks(back, s) == fs) by {
        if bs.len() > 0 {
            lemma_read_back_index(bs, p0, 0);
        } else {
            assert(back == Seq::<CanonicalBlockView>::empty());
        }
        assert forall|i: int| 0 <= i < bs.len() implies #[trigger] resolve_blocks(back, s)[i] == fs[i] by {
            lemma_resolve_read_back(b, rest, i);
        }
        assert(resolve_blocks(back, s) =~= fs);
    }
    lemma_encode_final_blocks(bs);
    lemma_final_crc_verifies(b.primary);
}

} // verus!
