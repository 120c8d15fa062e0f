//! Ingest from a source that is read in chunks (such as an asynchronous
//! one): the decisions the asynchronous reader makes between its awaits.
//! The header bytes are buffered first, so that filters can run before any
//! byte reaches the retention.

use vstd::prelude::*;

use crate::cbor::spec::{encode_head, INDEFINITE_ARRAY, MAJOR_ARRAY, MAJOR_BSTR, MAJOR_UINT};
use crate::cbor::{Encoder, StreamDecoder, ToCbor};
use crate::io::push_all;

use crate::bpv7::bundle::canonical::{
    blocks_view, BlockData, BlockDataView, BlockFlags, CanonicalBlock,
    CanonicalBlockView, PAYLOAD_BLOCK_NUMBER, PAYLOAD_BLOCK_TYPE,
};
use crate::bpv7::bundle::canonical::spec_parse_block_stream;
use crate::bpv7::bundle::primary::{spec_encode_primary, spec_parse_primary, PrimaryBlock, PrimaryBlockView};
use crate::bpv7::bundle::spec_encode_blocks;
use crate::bpv7::crc::Crc;
use crate::bpv7::error::Error;
use crate::bpv7::filter::traits::BundleMetadataView;
use crate::bpv7::filter::{BundleMetadata, FilterRejection};

use crate::bundle::filter::{spec_run_filters, spec_run_mutators};
use crate::bundle::retention::NoopRetention;
use crate::bundle::stored::Bundle;

use super::model::{
    lemma_advance_pos_add, lemma_read_headers_step, lemma_rest_headers_step, spec_read_bundle, spec_read_headers,
    spec_rest_headers,
};
use super::reader::{BundleReader, ReadResult};

verus! {

/// How many leading bytes of a bundle are buffered before the retention is
/// written: enough for the primary block and the extension blocks.
pub const HEADER_BUF_SIZE: usize = 65536;

/// The bytes received so far: the first [`HEADER_BUF_SIZE`] of them in the
/// header buffer, the rest in the overflow.
pub struct HeaderBuffer {
    header: Vec<u8>,
    overflow: Vec<u8>,
    total: u64,
    done: bool,
}

impl HeaderBuffer {
    /// The buffered header bytes.
    pub closed spec fn header_bytes(&self) -> Seq<u8> {
        self.header@
    }

    /// The bytes received after the header buffer filled.
    pub closed spec fn overflow_bytes(&self) -> Seq<u8> {
        self.overflow@
    }

    /// All bytes received, in order.
    pub open spec fn received(&self) -> Seq<u8> {
        self.header_bytes() + self.overflow_bytes()
    }

    /// Whether the header buffer is complete: no more chunks are buffered.
    pub closed spec fn full(&self) -> bool {
        self.done
    }

    /// The number of bytes received.
    pub closed spec fn spec_total(&self) -> u64 {
        self.total
    }

    pub closed spec fn wf(&self) -> bool {
        &&& self.header@.len() <= HEADER_BUF_SIZE
        &&& self.overflow@.len() > 0 ==> self.header@.len() == HEADER_BUF_SIZE
        &&& self.done ==> self.header@.len() == HEADER_BUF_SIZE
        &&& self.total == self.header@.len() + self.overflow@.len()
    }

    pub fn new() -> (r: Self)
        ensures
            r.wf(),
            r.received() == Seq::<u8>::empty(),
            r.header_bytes() == Seq::<u8>::empty(),
            !r.full(),
            r.spec_total() == 0,
    {
        HeaderBuffer { header: Vec::new(), overflow: Vec::new(), total: 0, done: false }
    }

    /// Take in the next chunk read from the source: it fills the header
    /// buffer, and what does not fit goes to the overflow. The buffer is full
    /// once a chunk did not fit, or one arrived when it had no room left.
    pub fn push_chunk(&mut self, chunk: &[u8])
        requires
            old(self).wf(),
            old(self).spec_total() + chunk@.len() <= u64::MAX,
        ensures
            final(self).wf(),
            final(self).received() == old(self).received() + chunk@,
            final(self).header_bytes() == if old(self).header_bytes().len() + chunk@.len() <= HEADER_BUF_SIZE {
                old(self).header_bytes() + chunk@
            } else {
                (old(self).header_bytes() + chunk@).take(HEADER_BUF_SIZE as int)
            },
            final(self).full() == (old(self).full() || old(self).header_bytes().len() == HEADER_BUF_SIZE
                || old(self).header_bytes().len() + chunk@.len() > HEADER_BUF_SIZE),
            final(self).spec_total() == old(self).spec_total() + chunk@.len(),
    {
        let n = chunk.len();
        if self.header.len() < HEADER_BUF_SIZE {
            let room = HEADER_BUF_SIZE - self.header.len();
            let take = if n < room {
                n
            } else {
                room
            };
            push_all(&mut self.header, &chunk[0..take]);
            if take < n {
                push_all(&mut self.overflow, &chunk[take..n]);
                self.done = true;
                proof {
                    assert((old(self).header@ + chunk@).take(HEADER_BUF_SIZE as int) =~= old(self).header@
                        + chunk@.subrange(0, take as int));
                }
            } else {
                assert(chunk@.subrange(0, take as int) =~= chunk@);
            }
            proof {
                assert(chunk@ =~= chunk@.subrange(0, take as int) + chunk@.subrange(take as int, n as int));
            }
        } else {
            push_all(&mut self.overflow, chunk);
            self.done = true;
        }
        self.total = self.total + n as u64;
    }

    /// Whether the header buffer is complete.
    pub fn is_full(&self) -> (r: bool)
        ensures
            r == self.full(),
    {
        self.done
    }

    /// The buffered header bytes.
    pub fn header(&self) -> (r: &[u8])
        ensures
            r@ == self.header_bytes(),
    {
        self.header.as_slice()
    }

    /// The bytes received after the header buffer filled.
    pub fn overflow(&self) -> (r: &[u8])
        ensures
            r@ == self.overflow_bytes(),
    {
        self.overflow.as_slice()
    }

    /// The number of bytes received.
    pub fn total(&self) -> (r: u64)
        ensures
            r == self.spec_total(),
    {
        self.total
    }
}

/// What the leading bytes of a bundle say of it: its primary block, its
/// extension blocks (those before the payload block), and the payload
/// block's header.
pub struct ParsedMetadata {
    pub primary: PrimaryBlock,
    pub extensions: Vec<CanonicalBlock>,
    /// The payload data's length.
    pub payload_len: u64,
    /// Where the payload data starts in the bytes parsed.
    pub payload_data_offset: usize,
    /// The payload block's CRC type code.
    pub payload_crc_type: u64,
    /// The payload block's flag bits.
    pub payload_flags: u64,
}

/// Whether parsed metadata holds what reading the headers gave: the
/// primary block, the extension blocks, and the payload block's header.
pub open spec fn metadata_matches(
    m: ParsedMetadata,
    h: (PrimaryBlockView, Seq<CanonicalBlockView>, CanonicalBlockView),
) -> bool {
    let (p, exts, v) = h;
    &&& m.primary@ == p
    &&& blocks_view(m.extensions@) == exts
    &&& v.data is Retained
    &&& m.payload_data_offset == v.data->offset
    &&& m.payload_len == v.data->len
    &&& m.payload_crc_type == v.crc.spec_crc_type()
    &&& m.payload_flags == v.flags.spec_bits()
}

/// Parse the primary block and the blocks up to the payload block's header
/// from buffered bytes, to run filters on: what reading the headers gives
/// ([`spec_read_headers`]). A failure is that reading's failure, or the
/// bytes running out.
#[verifier::rlimit(30)]
pub fn parse_metadata(header_buf: &[u8]) -> (r: Result<ParsedMetadata, Error>)
    ensures
        match r {
            Ok(m) => {
                &&& spec_read_headers(header_buf@) is Ok
                &&& metadata_matches(m, spec_read_headers(header_buf@)->Ok_0)
            },
            Err(e) => spec_read_headers(header_buf@) == Err::<
                (PrimaryBlockView, Seq<CanonicalBlockView>, CanonicalBlockView),
                Error,
            >(e),
        },
{
    let ghost s0 = header_buf@;
    let blen = header_buf.len();
    assert(s0.len() == blen);
    let mut dec = StreamDecoder::new(header_buf);
    proof {
        assert(dec.stream() == s0);
        lemma_read_headers_step(s0, 0);
    }
    match dec.read_indefinite_array_start() {
        Ok(()) => {},
        Err(e) => {
            return Err(Error::Cbor(e));
        },
    }
    let ghost s1 = dec.stream();
    proof {
        assert(s1 == s0.skip(1));
        vstd::arithmetic::div_mod::lemma_small_mod(1nat, 0x1_0000_0000_0000_0000nat);
    }
    let primary = PrimaryBlock::decode_stream(&mut dec)?;
    let ghost n = spec_parse_primary(s1)->Ok_0.1;
    proof {
        assert(dec.stream() == s1.skip(n as int));
        assert(s1.skip(n as int) =~= s0.skip((n + 1) as int));
        vstd::arithmetic::div_mod::lemma_small_mod((n + 1) as nat, 0x1_0000_0000_0000_0000nat);
        lemma_advance_pos_add(0, 1, n);
    }
    primary.verify_crc()?;
    let mut extensions: Vec<CanonicalBlock> = Vec::new();
    proof {
        assert(blocks_view(extensions@) =~= Seq::<CanonicalBlockView>::empty());
    }
    loop
        invariant
            s0 == header_buf@,
            s0.len() <= usize::MAX,
            dec.stream() == s0.skip(s0.len() - dec.stream().len()),
            dec.pos() == s0.len() - dec.stream().len(),
            dec.stream().len() <= s0.len(),
            spec_read_headers(s0) == match spec_rest_headers(blocks_view(extensions@), dec.stream(), dec.pos()) {
                Err(e) => Err(e),
                Ok((exts, v)) => Ok::<(PrimaryBlockView, Seq<CanonicalBlockView>, CanonicalBlockView), Error>(
                    (primary@, exts, v),
                ),
            },
        decreases dec.stream().len(),
    {
        let ghost st = dec.stream();
        let ghost ps = dec.pos();
        proof {
            lemma_rest_headers_step(blocks_view(extensions@), st, ps);
        }
        let brk = match dec.is_break() {
            Ok(b) => b,
            Err(e) => {
                return Err(Error::Cbor(e));
            },
        };
        if brk {
            return Err(Error::IncompleteRead);
        }
        proof {
            assert(st.skip(0) =~= st);
            lemma_advance_pos_add(ps, 0, 0);
        }
        let (block, is_payload) = CanonicalBlock::decode_stream(&mut dec)?;
        let ghost k = spec_parse_block_stream(st, ps)->Ok_0.1;
        proof {
            assert(dec.stream() == st.skip(k as int));
            assert(st.skip(k as int) =~= s0.skip(s0.len() - dec.stream().len()));
            vstd::arithmetic::div_mod::lemma_small_mod((ps + k) as nat, 0x1_0000_0000_0000_0000nat);
        }
        if is_payload {
            let (offset, len) = match block.retained_range() {
                Some(range) => range,
                None => {
                    return Err(Error::PayloadNotInline);
                },
            };
            proof {
                assert(offset <= ps + k) by {
                    reveal(crate::bpv7::parse::p_bstr);
                }
            }
            return Ok(
                ParsedMetadata {
                    primary,
                    extensions,
                    payload_len: len,
                    payload_data_offset: offset as usize,
                    payload_crc_type: block.crc.crc_type(),
                    payload_flags: block.flags.bits(),
                },
            );
        }
        block.verify_crc()?;
        let ghost before = blocks_view(extensions@);
        extensions.push(block);
        proof {
            assert(blocks_view(extensions@) =~= before.push(block@));
        }
    }
}

/// The payload block's header as it precedes the data: the block's array
/// head, type and number 1, the flag bits, the CRC type, and the data's
/// byte-string head.
pub open spec fn spec_payload_head(flags: u64, crc_type: u64, len: u64) -> Seq<u8> {
    encode_head(
        MAJOR_ARRAY,
        if crc_type != 0 {
            6
        } else {
            5
        },
    ) + encode_head(MAJOR_UINT, PAYLOAD_BLOCK_TYPE) + encode_head(MAJOR_UINT, PAYLOAD_BLOCK_NUMBER)
        + encode_head(MAJOR_UINT, flags) + encode_head(MAJOR_UINT, crc_type) + encode_head(MAJOR_BSTR, len)
}

/// A bundle's bytes up to its payload data: the bundle's start, the primary
/// block, the extension blocks, and the payload block's header.
pub open spec fn spec_encode_headers(
    primary: PrimaryBlockView,
    extensions: Seq<CanonicalBlockView>,
    flags: u64,
    crc_type: u64,
    len: u64,
) -> Seq<u8> {
    seq![INDEFINITE_ARRAY] + spec_encode_primary(primary) + spec_encode_blocks(extensions) + spec_payload_head(
        flags,
        crc_type,
        len,
    )
}

/// Encode a bundle's bytes up to its payload data.
pub fn encode_headers(
    primary: &PrimaryBlock,
    extensions: &[CanonicalBlock],
    payload_flags: u64,
    payload_crc_type: u64,
    payload_len: u64,
) -> (r: Vec<u8>)
    ensures
        r@ == spec_encode_headers(primary@, blocks_view(extensions@), payload_flags, payload_crc_type, payload_len),
{
    let mut enc = Encoder::with_capacity(256);
    enc.write_indefinite_array();
    primary.encode(&mut enc);
    let ghost start = enc@;
    let ghost exts = blocks_view(extensions@);
    let mut i: usize = 0;
    while i < extensions.len()
        invariant
            i <= extensions@.len(),
            exts == blocks_view(extensions@),
            enc@ == start + spec_encode_blocks(exts.take(i as int)),
        decreases extensions@.len() - i,
    {
        extensions[i].encode(&mut enc);
        proof {
            assert(exts.take(i + 1).drop_last() =~= exts.take(i as int));
            assert(exts.take(i + 1).last() == extensions@[i as int]@);
        }
        i = i + 1;
    }
    proof {
        assert(exts.take(extensions@.len() as int) =~= exts);
    }
    let has_crc = payload_crc_type != 0;
    enc.write_array(
        if has_crc {
            6
        } else {
            5
        },
    );
    enc.write_uint(PAYLOAD_BLOCK_TYPE);
    enc.write_uint(PAYLOAD_BLOCK_NUMBER);
    enc.write_uint(payload_flags);
    enc.write_uint(payload_crc_type);
    enc.write_bstr_header(payload_len);
    proof {
        assert(enc@ =~= spec_encode_headers(primary@, exts, payload_flags, payload_crc_type, payload_len));
    }
    enc.into_bytes()
}

/// How received bytes go to the retention, decided on the buffered header
/// bytes.
pub enum IngestPlan {
    /// No filters or mutators: every received byte goes to the retention, and
    /// the bundle is parsed from the buffered header bytes.
    Direct,
    /// A filter rejected the bundle: nothing goes to the retention.
    Rejected(FilterRejection),
    /// The filters passed: the retention gets the (possibly mutated) headers,
    /// then the rest of the received bytes.
    Filtered(FilteredIngest),
}

/// The bundle's headers after the filters passed and the mutators ran, and
/// how its bytes go to the retention: first `prefix`, then the received
/// bytes from `resume` on.
pub struct FilteredIngest {
    pub primary: PrimaryBlock,
    pub extensions: Vec<CanonicalBlock>,
    /// The re-encoded headers when a mutator changed them; else nothing.
    pub prefix: Vec<u8>,
    /// Where in the received bytes the retention's bytes continue after `prefix`.
    pub resume: usize,
    /// Where the payload data starts in the retention.
    pub payload_offset: u64,
    pub payload_len: u64,
    pub payload_flags: u64,
    pub payload_crc_type: u64,
}

/// The model of parsed metadata as the filters see it.
pub open spec fn metadata_view(m: ParsedMetadata) -> BundleMetadataView {
    BundleMetadataView {
        primary: m.primary@,
        extensions: blocks_view(m.extensions@),
        payload_len: m.payload_len,
    }
}

/// Whether `r` is what the filters `fs` and the mutators `ms` make of read
/// headers `h` (primary block, extension blocks, payload header): the
/// filters' rejection; or the mutated headers, with the re-encoded headers
/// to go to the retention when the mutators changed them, and where the
/// retention's bytes continue and its payload data starts.
pub open spec fn is_filtered_plan(
    r: IngestPlan,
    fs: Seq<std::sync::Arc<Box<dyn crate::bpv7::filter::BundleFilter>>>,
    ms: Seq<std::sync::Arc<Box<dyn crate::bpv7::filter::BundleMutator>>>,
    h: (PrimaryBlockView, Seq<CanonicalBlockView>, CanonicalBlockView),
) -> bool {
    let (p, exts, v) = h;
    let meta = BundleMetadataView { primary: p, extensions: exts, payload_len: v.data->len };
    match spec_run_filters(fs, meta) {
        Err(x) => r matches IngestPlan::Rejected(y) && y@ == x,
        Ok(()) => r matches IngestPlan::Filtered(f) && {
            let (p2, e2, mutated) = spec_run_mutators(ms, p, exts);
            &&& f.primary@ == p2
            &&& blocks_view(f.extensions@) == e2
            &&& f.payload_len == v.data->len
            &&& f.payload_flags == v.flags.spec_bits()
            &&& f.payload_crc_type == v.crc.spec_crc_type()
            &&& f.prefix@ == if mutated {
                spec_encode_headers(p2, e2, v.flags.spec_bits(), v.crc.spec_crc_type(), v.data->len)
            } else {
                Seq::<u8>::empty()
            }
            &&& f.resume == if mutated {
                v.data->offset as int
            } else {
                0
            }
            &&& f.payload_offset == if mutated {
                f.prefix@.len() as u64
            } else {
                v.data->offset
            }
        },
    }
}

impl BundleReader {
    /// Run the filters and mutators on parsed metadata. A rejection is
    /// answered as such; otherwise the mutators run, and when they changed
    /// the headers these are re-encoded, to go to the retention in place of
    /// the received ones.
    pub fn plan_filtered(&self, meta: ParsedMetadata) -> (r: IngestPlan)
        ensures
            match spec_run_filters(self.chain().filters(), metadata_view(meta)) {
                Err(x) => r matches IngestPlan::Rejected(y) && y@ == x,
                Ok(()) => r matches IngestPlan::Filtered(f) && {
                    let (p2, e2, mutated) = spec_run_mutators(
                        self.chain().mutators(),
                        meta.primary@,
                        blocks_view(meta.extensions@),
                    );
                    &&& f.primary@ == p2
                    &&& blocks_view(f.extensions@) == e2
                    &&& f.payload_len == meta.payload_len
                    &&& f.payload_flags == meta.payload_flags
                    &&& f.payload_crc_type == meta.payload_crc_type
                    &&& f.prefix@ == if mutated {
                        spec_encode_headers(p2, e2, meta.payload_flags, meta.payload_crc_type, meta.payload_len)
                    } else {
                        Seq::<u8>::empty()
                    }
                    &&& f.resume == if mutated {
                        meta.payload_data_offset
                    } else {
                        0
                    }
                    &&& f.payload_offset == if mutated {
                        f.prefix@.len() as u64
                    } else {
                        meta.payload_data_offset as u64
                    }
                },
            },
    {
        let chain = self.filter_chain();
        let ParsedMetadata {
            primary,
            extensions,
            payload_len,
            payload_data_offset,
            payload_crc_type,
            payload_flags,
        } = meta;
        let mut primary = primary;
        let mut extensions = extensions;
        let verdict = {
            let m = BundleMetadata { primary: &primary, extensions: extensions.as_slice(), payload_len };
            chain.run_filters(&m)
        };
        if let Err(rejection) = verdict {
            return IngestPlan::Rejected(rejection);
        }
        let mutated = chain.run_mutators(&mut primary, &mut extensions);
        if mutated {
            let prefix = encode_headers(&primary, extensions.as_slice(), payload_flags, payload_crc_type, payload_len);
            let payload_offset = prefix.len() as u64;
            IngestPlan::Filtered(
                FilteredIngest {
                    primary,
                    extensions,
                    prefix,
                    resume: payload_data_offset,
                    payload_offset,
                    payload_len,
                    payload_flags,
                    payload_crc_type,
                },
            )
        } else {
            IngestPlan::Filtered(
                FilteredIngest {
                    primary,
                    extensions,
                    prefix: Vec::new(),
                    resume: 0,
                    payload_offset: payload_data_offset as u64,
                    payload_len,
                    payload_flags,
                    payload_crc_type,
                },
            )
        }
    }

    /// Decide on the buffered header bytes how the received bytes go to the
    /// retention: nothing received is an error; without filters or mutators
    /// everything goes there; else the headers are parsed and the filters
    /// and mutators run on them ([`BundleReader::plan_filtered`]).
    pub fn plan_ingest(&self, headers: &HeaderBuffer) -> (r: Result<IngestPlan, Error>)
        requires
            headers.wf(),
        ensures
            headers.spec_total() == 0 ==> r == Err::<IngestPlan, Error>(Error::EmptyRetention),
            headers.spec_total() > 0 && self.chain().filters().len() == 0 && self.chain().mutators().len() == 0
                ==> r matches Ok(IngestPlan::Direct),
            headers.spec_total() > 0 && !(self.chain().filters().len() == 0 && self.chain().mutators().len()
                == 0) ==> match r {
                Ok(plan) => {
                    &&& spec_read_headers(headers.header_bytes()) is Ok
                    &&& is_filtered_plan(
                        plan,
                        self.chain().filters(),
                        self.chain().mutators(),
                        spec_read_headers(headers.header_bytes())->Ok_0,
                    )
                },
                Err(e) => spec_read_headers(headers.header_bytes()) == Err::<
                    (PrimaryBlockView, Seq<CanonicalBlockView>, CanonicalBlockView),
                    Error,
                >(e),
            },
    {
        if headers.total() == 0 {
            return Err(Error::EmptyRetention);
        }
        if self.filter_chain().is_empty() {
            return Ok(IngestPlan::Direct);
        }
        let meta = parse_metadata(headers.header())?;
        Ok(self.plan_filtered(meta))
    }
}

impl FilteredIngest {
    /// Where the payload's CRC lies in the retention, once `received` bytes
    /// came from the source: from the end of the payload data to the end of
    /// the retention. `None` where the retention ends before the payload
    /// data does, or the positions overflow.
    pub fn crc_tail(&self, received: u64) -> (r: Option<(u64, u64)>)
        ensures
            ({
                let stored = received - self.resume + self.prefix@.len();
                let start = self.payload_offset + self.payload_len;
                match r {
                    Some((s, n)) => self.resume <= received && stored <= u64::MAX && start <= stored
                        && s == start && n == stored - start,
                    None => !(self.resume <= received && stored <= u64::MAX && start <= stored),
                }
            }),
    {
        if self.resume as u64 > received {
            return None;
        }
        let kept = received - self.resume as u64;
        if self.prefix.len() as u64 > u64::MAX - kept {
            return None;
        }
        let stored = kept + self.prefix.len() as u64;
        if self.payload_len > u64::MAX - self.payload_offset {
            return None;
        }
        let start = self.payload_offset + self.payload_len;
        if start > stored {
            return None;
        }
        Some((start, stored - start))
    }

    /// The bundle: the headers followed by the payload block, whose data
    /// lies in the retention and whose CRC is `payload_crc`.
    pub fn into_bundle<S>(self, payload_crc: Crc, retention: S) -> (r: Bundle<S>)
        ensures
            r.bundle().primary == self.primary@,
            r.bundle().blocks == blocks_view(self.extensions@).push(
                CanonicalBlockView {
                    block_type: PAYLOAD_BLOCK_TYPE,
                    block_number: PAYLOAD_BLOCK_NUMBER,
                    flags: BlockFlags::spec_from_bits(self.payload_flags),
                    crc: payload_crc,
                    data: BlockDataView::Retained { offset: self.payload_offset, len: self.payload_len },
                },
            ),
            r.spec_retention() == retention,
    {
        let FilteredIngest { primary, extensions, payload_offset, payload_len, payload_flags, .. } = self;
        let mut blocks = extensions;
        blocks.push(
            CanonicalBlock {
                block_type: PAYLOAD_BLOCK_TYPE,
                block_number: PAYLOAD_BLOCK_NUMBER,
                flags: BlockFlags::from_bits(payload_flags),
                crc: payload_crc,
                data: BlockData::Retained { offset: payload_offset, len: payload_len },
            },
        );
        proof {
            assert(blocks_view(blocks@) =~= blocks_view(self.extensions@).push(blocks@.last()@));
        }
        Bundle::from_parts(primary, blocks, retention)
    }
}

/// Parse a bundle from its buffered bytes. It is backed by a retention
/// that keeps nothing: the caller gives it the retention that received the
/// bytes ([`Bundle::with_retention`]).
pub fn parse_buffered(header_buf: &[u8]) -> (r: Result<Bundle<NoopRetention>, Error>)
    ensures
        match r {
            Ok(b) => spec_read_bundle(header_buf@, 0) == Ok::<(PrimaryBlockView, Seq<CanonicalBlockView>), Error>(
                (b.bundle().primary, b.bundle().blocks),
            ),
            Err(e) => spec_read_bundle(header_buf@, 0) == Err::<(PrimaryBlockView, Seq<CanonicalBlockView>), Error>(e),
        },
{
    match BundleReader::new().read_from(header_buf, NoopRetention::new()) {
        Ok(ReadResult::Accepted(bundle)) => Ok(bundle),
        Ok(ReadResult::Rejected(x)) => Err(Error::FilterRejected(x)),
        Err(e) => Err(e),
    }
}

} // verus!
