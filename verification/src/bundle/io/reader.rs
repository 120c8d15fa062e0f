//! Streaming bundle reader with optional ingress filter pipeline.

use vstd::prelude::*;

use crate::cbor::{Encoder, Error as CborError, StreamDecoder, ToCbor};
use crate::io::Read;

use crate::bpv7::bundle::canonical::{
    blocks_view, BlockData, BlockDataView, CanonicalBlock, CanonicalBlockView, PAYLOAD_BLOCK_TYPE,
};
use crate::bpv7::bundle::canonical::{lemma_parse_block_not_rejected, spec_parse_block_stream};
use crate::bpv7::bundle::primary::{
    lemma_parse_primary_not_rejected, spec_encode_primary, spec_parse_primary, PrimaryBlock, PrimaryBlockView,
};
use crate::cbor::spec::{encode_head, spec_read_bstr, BREAK, INDEFINITE_ARRAY, MAJOR_ARRAY, MAJOR_BSTR, MAJOR_UINT};
use crate::bpv7::bundle::spec_encode_blocks;
use crate::bpv7::parse::{lemma_p_within, p_bstr};
use crate::cbor::stream::from_io;
use crate::bpv7::crc::{stream_failure, Crc};
use crate::bpv7::error::Error;
use crate::bpv7::filter::error::FilterRejectionView;
use crate::bpv7::filter::traits::BundleMetadataView;
use crate::bpv7::filter::{BundleFilter, BundleMetadata, BundleMutator, FilterRejection};

use crate::bundle::filter::{spec_run_filters, spec_run_mutators, FilterChain};
use crate::bundle::retention::Retention;
use crate::bundle::stored::Bundle;

use super::adapters::{CaptureReader, DeferredReader, TeeReader};
use super::model::{
    ext_crc_check, set_crc, lemma_advance_pos_add, lemma_read_bundle_step, lemma_read_headers_step,
    lemma_rest_blocks_step, lemma_rest_crc_step, lemma_rest_headers_step, lift_outcome, spec_read_bundle,
    spec_read_headers, spec_read_headers_at, spec_rest_blocks, spec_rest_crc, spec_rest_headers,
};
use super::writer::{cbor_result, io_failure};
use crate::cbor::stream::advance_pos;

verus! {

/// Whether a primary block's CRC matches its encoding.
#[verifier::opaque]
pub open spec fn primary_crc_ok(p: PrimaryBlockView) -> bool {
    p.crc.spec_verify(spec_encode_primary(p), spec_encode_primary(p).len() - p.crc.spec_value_size()) is Ok
}

/// Whether exactly the payload blocks hold retained data, and the only one
/// of them is at `idx`.
pub open spec fn payload_shape(blocks: Seq<CanonicalBlockView>, idx: Option<usize>) -> bool {
    &&& forall|j: int|
        0 <= j < blocks.len() ==> ((#[trigger] blocks[j]).block_type == PAYLOAD_BLOCK_TYPE <==> blocks[j].data is Retained)
    &&& forall|j: int| 0 <= j < blocks.len() && (#[trigger] blocks[j]).data is Retained ==> idx == Some(j as usize)
}

/// Whether exactly the payload blocks hold retained data, and there is at
/// most one of them.
pub open spec fn single_retained_payload(blocks: Seq<CanonicalBlockView>) -> bool {
    &&& forall|j: int|
        0 <= j < blocks.len() ==> ((#[trigger] blocks[j]).block_type == PAYLOAD_BLOCK_TYPE <==> blocks[j].data is Retained)
    &&& forall|j: int, k: int|
        0 <= j < blocks.len() && 0 <= k < blocks.len() && (#[trigger] blocks[j]).data is Retained
            && (#[trigger] blocks[k]).data is Retained ==> j == k
}

proof fn lemma_shape_single(blocks: Seq<CanonicalBlockView>, idx: Option<usize>)
    requires
        payload_shape(blocks, idx),
        blocks.len() <= usize::MAX,
    ensures
        single_retained_payload(blocks),
{
    assert forall|j: int, k: int|
        0 <= j < blocks.len() && 0 <= k < blocks.len() && (#[trigger] blocks[j]).data is Retained
            && (#[trigger] blocks[k]).data is Retained implies j == k by {
        assert(idx == Some(j as usize));
        assert(idx == Some(k as usize));
    }
}

/// What reading one block between blocks did, in terms of the stream `s`
/// at position `pos` it read from (before the payload block): the end, an
/// extension block (checked, and appended as `last`), the payload block's
/// header, a rejection by the filters (on the metadata `meta` with the
/// payload's length), or a failure of the parse, of the extension block's
/// check or of the device.
pub open spec fn block_read(
    s: Seq<u8>,
    pos: u64,
    r: Result<Option<BlockEvent>, Error>,
    last: CanonicalBlockView,
    s2: Seq<u8>,
    pos2: u64,
    deferred: bool,
    fs: Seq<std::sync::Arc<Box<dyn BundleFilter>>>,
    meta: BundleMetadataView,
    reliable: bool,
) -> bool {
    match r {
        Ok(None) => s.len() > 0 && s[0] == BREAK,
        Ok(Some(BlockEvent::Extension(_))) => {
            &&& s.len() > 0 && s[0] != BREAK
            &&& spec_parse_block_stream(s, pos) matches Ok(((v, false), n))
            &&& 1 <= n <= s.len()
            &&& last == v
            &&& ext_crc_check(v) is Ok
            &&& s2 == s.skip(n as int)
            &&& pos2 == advance_pos(pos, n)
        },
        Ok(Some(BlockEvent::Payload { len })) => {
            &&& s.len() > 0 && s[0] != BREAK
            &&& spec_parse_block_stream(s, pos) matches Ok(((v, true), n))
            &&& 1 <= n <= s.len()
            &&& v.data matches BlockDataView::Retained { len: l, .. } && l == len
        },
        Err(Error::FilterRejected(x)) => {
            &&& deferred
            &&& s.len() > 0 && s[0] != BREAK
            &&& spec_parse_block_stream(s, pos) matches Ok(((v, true), n))
            &&& 1 <= n <= s.len()
            &&& spec_run_filters(fs, BundleMetadataView { payload_len: v.data->len, ..meta }) == Err::<
                (),
                FilterRejectionView,
            >(x@)
        },
        Err(e) => {
            ||| io_failure(e) && !reliable
            ||| io_failure(e) && deferred && s.len() > 0 && s[0] != BREAK && (spec_parse_block_stream(s, pos) matches Ok(
                ((_, true), n),
            ) && 1 <= n <= s.len())
            ||| s.len() == 0 && e == Error::Cbor(CborError::UnexpectedEof)
            ||| s.len() > 0 && s[0] != BREAK && match spec_parse_block_stream(s, pos) {
                Err(pe) => pe == e,
                Ok(((v, false), n)) => 1 <= n <= s.len() && ext_crc_check(v) == Err::<(), Error>(e),
                Ok(((v, true), _)) => false,
            }
        },
    }
}

/// What reading through filters or mutators gave, in terms of what reading
/// the bundle's headers gives (`headers`): a rejection comes only from the
/// filters, on the headers' metadata with the payload's length; an accepted
/// bundle passed the filters and holds the primary block and, before the
/// payload block, the extension blocks as the mutators left them, or had
/// no payload block to filter on.
pub open spec fn filtered_read<S>(
    fs: Seq<std::sync::Arc<Box<dyn BundleFilter>>>,
    ms: Seq<std::sync::Arc<Box<dyn BundleMutator>>>,
    headers: Result<(PrimaryBlockView, Seq<CanonicalBlockView>, CanonicalBlockView), Error>,
    r: Result<ReadResult<S>, Error>,
    reliable: bool,
) -> bool {
    match r {
        Ok(ReadResult::Rejected(x)) => {
            &&& headers is Ok
            &&& {
                let (p, exts, v) = headers->Ok_0;
                spec_run_filters(fs, BundleMetadataView { primary: p, extensions: exts, payload_len: v.data->len })
                    == Err::<(), FilterRejectionView>(x@)
            }
        },
        Ok(ReadResult::Accepted(b)) => match headers {
            Ok((p, exts, v)) => {
                let (p2, e2, _) = spec_run_mutators(ms, p, exts);
                &&& spec_run_filters(fs, BundleMetadataView { primary: p, extensions: exts, payload_len: v.data->len })
                    is Ok
                &&& b.bundle().primary == p2
                &&& b.bundle().blocks.len() > e2.len()
                &&& b.bundle().blocks.take(e2.len() as int) == e2
            },
            Err(e) => e == Error::IncompleteRead,
        },
        Err(e) => headers is Ok || headers == Err::<
            (PrimaryBlockView, Seq<CanonicalBlockView>, CanonicalBlockView),
            Error,
        >(e) || (!reliable && io_failure(e)),
    }
}

/// Whether the data of every retained block among `blocks` lies before
/// position `end` of the stream.
pub open spec fn retained_within(blocks: Seq<CanonicalBlockView>, end: int) -> bool {
    forall|j: int|
        0 <= j < blocks.len() && (#[trigger] blocks[j]).data is Retained ==> blocks[j].data->offset
            + blocks[j].data->len <= end
}

/// Whether retained bytes `ret` are what the retention held before (`w0`),
/// then a prefix of the source's bytes `s0`, long enough to hold the data of
/// every retained block among `blocks` (positions counting from the start of
/// `s0`, when they do not wrap).
pub open spec fn holds_copy(ret: Seq<u8>, w0: Seq<u8>, s0: Seq<u8>, blocks: Seq<CanonicalBlockView>) -> bool {
    let k = ret.len() - w0.len();
    &&& w0.len() <= ret.len()
    &&& k <= s0.len()
    &&& ret == w0 + s0.take(k)
    &&& s0.len() < 0x1_0000_0000_0000_0000 ==> retained_within(blocks, k)
}

/// Consuming `n` more bytes of a stream that continues what was parsed of
/// `s0` keeps it so, and the position counting from the start of `s0`.
proof fn lemma_copy_advance(s0: Seq<u8>, st: Seq<u8>, pos: u64, n: nat)
    requires
        st.len() <= s0.len(),
        s0.skip(s0.len() - st.len()) == st,
        pos == advance_pos(0, (s0.len() - st.len()) as nat),
        n <= st.len(),
    ensures
        s0.skip(s0.len() - st.skip(n as int).len()) == st.skip(n as int),
        advance_pos(pos, n) == advance_pos(0, (s0.len() - st.skip(n as int).len()) as nat),
{
    let k = s0.len() - st.len();
    assert(s0.skip(k + n) =~= s0.skip(k).skip(n as int));
    lemma_advance_pos_add(0, k as nat, n);
}

/// The header of block `b` whose data, of `len` bytes, follows it in a
/// stream: the block's fields and the head of its byte string.
pub open spec fn spec_block_head(b: CanonicalBlockView, len: u64) -> Seq<u8> {
    encode_head(
        MAJOR_ARRAY,
        if b.crc.spec_crc_type() != 0 {
            6
        } else {
            5
        },
    ) + encode_head(MAJOR_UINT, b.block_type) + encode_head(MAJOR_UINT, b.block_number) + encode_head(
        MAJOR_UINT,
        b.flags.spec_bits(),
    ) + encode_head(MAJOR_UINT, b.crc.spec_crc_type()) + encode_head(MAJOR_BSTR, len)
}

/// A bundle's headers encoded anew, up to the payload data: the bundle's
/// start, the primary block, the extension blocks and the header of the
/// payload block `payload`, whose data is `len` bytes long.
pub open spec fn spec_reencoded_headers(
    primary: PrimaryBlockView,
    extensions: Seq<CanonicalBlockView>,
    payload: CanonicalBlockView,
    len: u64,
) -> Seq<u8> {
    seq![INDEFINITE_ARRAY] + spec_encode_primary(primary) + spec_encode_blocks(extensions) + spec_block_head(
        payload,
        len,
    )
}

/// What a read through filters or mutators hands the retention before the
/// payload data: when a mutator changed the headers, the headers encoded
/// anew; otherwise the `taken` bytes read from the source so far.
pub open spec fn kept_headers(
    changed: bool,
    primary: PrimaryBlockView,
    extensions: Seq<CanonicalBlockView>,
    payload: CanonicalBlockView,
    len: u64,
    taken: Seq<u8>,
) -> Seq<u8> {
    if changed {
        spec_reencoded_headers(primary, extensions, payload, len)
    } else {
        taken
    }
}

/// The payload block's data, as a stream parse gives it, starts right
/// after the block's header.
proof fn lemma_parse_payload_offset(s: Seq<u8>, pos: u64)
    ensures
        spec_parse_block_stream(s, pos) matches Ok(((v, true), n)) ==> v.data is Retained && v.data->offset
            == advance_pos(pos, n),
{
}

/// Consuming `n` more bytes of a stream that continues `s0` keeps it so.
proof fn lemma_suffix_advance(s0: Seq<u8>, st: Seq<u8>, n: nat)
    requires
        st.len() <= s0.len(),
        s0.skip(s0.len() - st.len()) == st,
        n <= st.len(),
    ensures
        s0.skip(s0.len() - st.skip(n as int).len()) == st.skip(n as int),
{
    let k = s0.len() - st.len();
    assert(s0.skip(k + n) =~= s0.skip(k).skip(n as int));
}

/// Whether retained bytes `ret` are what a read through filters or
/// mutators leaves in a retention that held `w0`, from a source `s0` whose
/// headers read as `headers`, with mutators `ms` (`blocks` being the blocks
/// read): what the retention held, then the headers it keeps (see
/// [`kept_headers`]), then the source's bytes from the payload data on,
/// through all of it; and the payload block names that data where the
/// retention holds it, after the headers kept. Positions count from the
/// start of `s0`, which must not wrap.
pub open spec fn holds_filtered_copy(
    ret: Seq<u8>,
    w0: Seq<u8>,
    s0: Seq<u8>,
    ms: Seq<std::sync::Arc<Box<dyn BundleMutator>>>,
    headers: (PrimaryBlockView, Seq<CanonicalBlockView>, CanonicalBlockView),
    blocks: Seq<CanonicalBlockView>,
) -> bool {
    let (p, exts, v) = headers;
    let (p2, e2, changed) = spec_run_mutators(ms, p, exts);
    let len = v.data->len;
    let h = v.data->offset as int;
    let hd = kept_headers(changed, p2, e2, v, len, s0.take(h));
    let k = ret.len() - w0.len() - hd.len();
    s0.len() < 0x1_0000_0000_0000_0000 ==> {
        &&& w0.len() + hd.len() <= ret.len()
        &&& len <= k
        &&& h + k <= s0.len()
        &&& ret == w0 + hd + s0.subrange(h, h + k)
        &&& e2.len() < blocks.len()
        &&& blocks[e2.len() as int].data is Retained
        &&& blocks[e2.len() as int].data->offset == hd.len()
        &&& blocks[e2.len() as int].data->len == len
    }
}

/// Result of reading a bundle through a filter pipeline.
#[derive(Debug)]
pub enum ReadResult<S> {
    /// Bundle passed all filters and is ready to use.
    Accepted(Bundle<S>),
    /// Bundle was rejected by a filter.
    Rejected(FilterRejection),
}

/// What [`OpenBundleReader::next_block`] yielded.
#[derive(Debug, Clone, Copy, PartialEq, Eq, Structural)]
pub enum BlockEvent {
    /// An extension block, at this index of the blocks read.
    Extension(usize),
    /// The payload block, whose data of this length follows in the stream.
    Payload { len: u64 },
}

#[derive(Debug, Clone, Copy, PartialEq, Eq, Structural)]
enum State {
    Initial,
    Blocks,
    PayloadData,
    PayloadConsumed,
    Done,
}

/// Streaming bundle parser with optional ingress filter pipeline.
///
/// Filters run in-flight before the payload touches retention.
/// Rejected bundles waste zero storage I/O.
pub struct BundleReader {
    chain: FilterChain,
}

impl BundleReader {
    /// The filters and mutators that every bundle read goes through.
    pub closed spec fn chain(&self) -> FilterChain {
        self.chain
    }

    pub fn new() -> (r: Self)
        ensures
            r.chain().filters().len() == 0,
            r.chain().mutators().len() == 0,
    {
        BundleReader { chain: FilterChain::new() }
    }

    /// The filters and mutators that every bundle read goes through.
    pub fn filter_chain(&self) -> (r: &FilterChain)
        ensures
            *r == self.chain(),
    {
        &self.chain
    }

    /// Add a filter; it runs after those added before.
    pub fn filter<F: BundleFilter + 'static>(self, f: F) -> (r: Self)
        ensures
            r.chain().mutators() == self.chain().mutators(),
            r.chain().filters().len() == self.chain().filters().len() + 1,
            r.chain().filters().take(self.chain().filters().len() as int) == self.chain().filters(),
    {
        let mut s = self;
        s.chain.add_filter(f);
        s
    }

    /// Add a mutator; it runs after those added before.
    pub fn mutator<M: BundleMutator + 'static>(self, m: M) -> (r: Self)
        ensures
            r.chain().filters() == self.chain().filters(),
            r.chain().mutators().len() == self.chain().mutators().len() + 1,
            r.chain().mutators().take(self.chain().mutators().len() as int) == self.chain().mutators(),
    {
        let mut s = self;
        s.chain.add_mutator(m);
        s
    }

    /// Parse a bundle from a source, storing wire bytes in the retention.
    ///
    /// Without filters or mutators, the outcome is what reading the whole
    /// bundle from the source gives (or a failure of the device): an
    /// accepted bundle holds the primary block at the start of the source,
    /// whose CRC matched, and exactly its payload blocks hold retained data,
    /// at most one of them. With them, the filters decide on the headers
    /// read, before the payload reaches the retention. Without filters no
    /// bundle is rejected; without filters or mutators the retention of an
    /// accepted bundle holds what it held, then the source's bytes as read,
    /// through the data of the payload; with them, it holds what it held,
    /// the headers (as read, or encoded anew when a mutator changed them),
    /// then the source's bytes from the payload data on.
    pub fn read_from<R: Read, S: Retention>(&self, source: R, retention: S) -> (r: Result<ReadResult<S>, Error>)
        ensures
            r matches Ok(ReadResult::Accepted(b)) ==> (self.chain().filters().len() == 0
                && self.chain().mutators().len() == 0 ==> {
                &&& single_retained_payload(b.bundle().blocks)
                &&& spec_parse_primary(source.pending().skip(1)) matches Ok((p, _))
                &&& b.bundle().primary == p
                &&& primary_crc_ok(p)
            }),
            self.chain().filters().len() == 0 && self.chain().mutators().len() == 0 ==> match r {
                Ok(ReadResult::Accepted(b)) => spec_read_bundle(source.pending(), 0) == Ok::<
                    (PrimaryBlockView, Seq<CanonicalBlockView>),
                    Error,
                >((b.bundle().primary, b.bundle().blocks)),
                Ok(ReadResult::Rejected(x)) => spec_read_bundle(source.pending(), 0) == Err::<
                    (PrimaryBlockView, Seq<CanonicalBlockView>),
                    Error,
                >(Error::FilterRejected(x)),
                Err(e) => spec_read_bundle(source.pending(), 0) == Err::<
                    (PrimaryBlockView, Seq<CanonicalBlockView>),
                    Error,
                >(e) || (!(source.reliable() && retention.reliable()) && io_failure(e)),
            },
            self.chain().filters().len() == 0 ==> !(r matches Ok(ReadResult::Rejected(_))),
            self.chain().filters().len() == 0 && self.chain().mutators().len() == 0 ==> (r matches Ok(
                ReadResult::Accepted(b),
            ) ==> holds_copy(b.spec_retention().written(), retention.written(), source.pending(), b.bundle().blocks)),
            (self.chain().filters().len() > 0 || self.chain().mutators().len() > 0) && spec_read_headers(
                source.pending(),
            ) is Ok ==> (r matches Ok(ReadResult::Accepted(b)) ==> holds_filtered_copy(
                b.spec_retention().written(),
                retention.written(),
                source.pending(),
                self.chain().mutators(),
                spec_read_headers(source.pending())->Ok_0,
                b.bundle().blocks,
            )),
            self.chain().filters().len() > 0 || self.chain().mutators().len() > 0 ==> filtered_read(
                self.chain().filters(),
                self.chain().mutators(),
                spec_read_headers(source.pending()),
                r,
                source.reliable() && retention.reliable(),
            ),
    {
        self.open(source, retention).into_bundle()
    }

    /// Open a source for step-by-step parsing, storing wire bytes in the retention.
    pub fn open<R: Read, S: Retention>(&self, source: R, retention: S) -> (r: OpenBundleReader<R, S>)
        ensures
            r.wf(),
            r.is_initial(),
            !r.in_payload_data(),
            r.payload_index() is None,
            r.spec_blocks() == Seq::<CanonicalBlockView>::empty(),
            r.stream() == source.pending(),
            r.filters() == self.chain().filters(),
            r.mutators() == self.chain().mutators(),
            r.deferred() == (self.chain().filters().len() > 0 || self.chain().mutators().len() > 0),
            r.deferred() ==> r.held_retention() == Some(retention),
            !r.deferred() ==> r.held_retention() is None,
            r.spec_outcome() == spec_read_bundle(source.pending(), 0),
            r.headers_outcome() == spec_read_headers(source.pending()),
            !r.deferred() ==> r.copies_stream() && r.start_stream() == source.pending() && r.start_retained()
                == retention.written(),
            r.deferred() ==> r.copies_stream() && r.start_stream() == source.pending(),
            !r.deferred() ==> r.tees_source() && (r.reliable() == (source.reliable() && retention.reliable())),
            r.deferred() ==> r.reliable() == source.reliable() && !r.tees_source(),
    {
        OpenBundleReader::open(source, retention, self.chain.share())
    }
}

impl Default for BundleReader {
    fn default() -> (r: Self)
        ensures
            r.chain().filters().len() == 0,
            r.chain().mutators().len() == 0,
    {
        Self::new()
    }
}

/// An active parsing session, created by [`BundleReader::open`].
pub struct OpenBundleReader<R, S: Retention> {
    dec: StreamDecoder<DeferredReader<R, S>>,
    state: State,
    primary: Option<PrimaryBlock>,
    blocks: Vec<CanonicalBlock>,
    payload_idx: Option<usize>,
    payload_crc_type: u64,
    payload_remaining: u64,
    retention: Option<S>,
    chain: FilterChain,
}

impl<R: Read, S: Retention> OpenBundleReader<R, S> {
    /// The bytes still to be parsed.
    pub closed spec fn stream(&self) -> Seq<u8> {
        self.dec.stream()
    }

    /// Nothing parsed yet: the bundle's start and primary block come next.
    pub closed spec fn is_initial(&self) -> bool {
        self.state == State::Initial
    }

    /// Between blocks.
    pub closed spec fn in_blocks(&self) -> bool {
        self.state == State::Blocks
    }

    /// Inside the payload data, which the caller must walk.
    pub closed spec fn in_payload_data(&self) -> bool {
        self.state == State::PayloadData
    }

    /// The payload data has been walked; its CRC comes next.
    pub closed spec fn payload_consumed(&self) -> bool {
        self.state == State::PayloadConsumed
    }

    /// The bundle's end was read.
    pub closed spec fn is_done(&self) -> bool {
        self.state == State::Done
    }

    /// The primary block, once read.
    pub closed spec fn spec_primary(&self) -> Option<PrimaryBlockView> {
        match self.primary {
            Some(p) => Some(p@),
            None => None,
        }
    }

    /// The canonical blocks read so far.
    pub closed spec fn spec_blocks(&self) -> Seq<CanonicalBlockView> {
        blocks_view(self.blocks@)
    }

    /// The index of the payload block among the blocks, once read.
    pub closed spec fn payload_index(&self) -> Option<usize> {
        self.payload_idx
    }

    /// Payload data bytes not yet walked.
    pub closed spec fn remaining(&self) -> u64 {
        self.payload_remaining
    }

    /// The retention, while it is held back for the filters.
    pub closed spec fn held_retention(&self) -> Option<S> {
        self.retention
    }

    /// Whether retention waits for the filters' decision.
    pub closed spec fn deferred(&self) -> bool {
        self.chain.filters().len() > 0 || self.chain.mutators().len() > 0
    }

    pub closed spec fn filters(&self) -> Seq<std::sync::Arc<Box<dyn BundleFilter>>> {
        self.chain.filters()
    }

    pub closed spec fn mutators(&self) -> Seq<std::sync::Arc<Box<dyn BundleMutator>>> {
        self.chain.mutators()
    }

    /// The session's internal consistency.
    pub closed spec fn wf(&self) -> bool {
        &&& match self.payload_idx {
            Some(i) => i < self.blocks@.len() && self.blocks@[i as int].data is Retained,
            None => true,
        }
        &&& (self.state == State::PayloadData || self.state == State::PayloadConsumed)
            ==> self.payload_idx is Some
        &&& self.state != State::Initial ==> self.primary is Some
        &&& !(self.chain.filters().len() > 0 || self.chain.mutators().len() > 0) ==> self.retention is None
        &&& !(self.chain.filters().len() > 0 || self.chain.mutators().len() > 0) ==> payload_shape(
            blocks_view(self.blocks@),
            self.payload_idx,
        )
        &&& self.state == State::PayloadData ==> self.dec.peeked() is None
        &&& self.state == State::Initial ==> self.blocks@.len() == 0 && self.payload_idx is None
    }

    /// The decoder's position in the stream.
    pub closed spec fn position(&self) -> u64 {
        self.dec.pos()
    }

    /// Whether the source is read through a copy into the retention.
    pub closed spec fn tees_source(&self) -> bool {
        self.dec.spec_reader().copies()
    }

    /// Whether the source fails only by running short, and the retention
    /// receiving its bytes never fails.
    pub closed spec fn reliable(&self) -> bool {
        self.dec.spec_reader().reliable()
    }

    /// The bytes the source was to yield when the session began (without
    /// filters or mutators, where the retention copies them from the start).
    pub closed spec fn start_stream(&self) -> Seq<u8> {
        self.dec.spec_reader().copy_origin().0
    }

    /// What the retention held when the session began (without filters or
    /// mutators).
    pub closed spec fn start_retained(&self) -> Seq<u8> {
        self.dec.spec_reader().copy_origin().1
    }

    /// Without filters or mutators: the retention holds what it held at the
    /// start, then exactly the bytes taken from the source since; the bytes
    /// still to be parsed follow those parsed, and the position counts the
    /// latter; the data of the retained blocks lies within what has been
    /// parsed (and what is left of the payload data).
    pub closed spec fn copies_stream(&self) -> bool {
        let s0 = self.start_stream();
        let k = s0.len() - self.dec.stream().len();
        &&& self.dec.spec_reader().faithful()
        &&& self.dec.stream().len() <= s0.len()
        &&& s0.skip(k) == self.dec.stream()
        &&& self.dec.pos() == advance_pos(0, k as nat)
        &&& s0.len() < 0x1_0000_0000_0000_0000 ==> retained_within(
            blocks_view(self.blocks@),
            if self.state == State::PayloadData {
                k + self.payload_remaining
            } else {
                k
            },
        )
    }

    /// Whether `self` carries on `old`'s copy of the source: from the same
    /// start, and exactly if `old`'s was exact.
    pub closed spec fn continues_copy(self, old: Self) -> bool {
        &&& self.tees_source() == old.tees_source()
        &&& old.reliable() ==> self.reliable()
        &&& self.start_stream() == old.start_stream()
        &&& self.start_retained() == old.start_retained()
        &&& old.copies_stream() ==> self.copies_stream()
    }

    /// With filters or mutators, once the retention has taken over at the
    /// payload block: it holds what it was handed then, followed by exactly
    /// the bytes taken from the source since; the bytes still to be parsed
    /// follow those; and the payload's data, which starts where the
    /// retention took over, has been taken or is what is left of it.
    pub closed spec fn tees_payload(&self) -> bool {
        let s1 = self.start_stream();
        let k = s1.len() - self.dec.stream().len();
        &&& self.dec.spec_reader().faithful()
        &&& self.retention is None
        &&& self.dec.stream().len() <= s1.len()
        &&& s1.skip(k) == self.dec.stream()
        &&& self.payload_idx is Some
        &&& self.payload_idx->0 < self.blocks@.len()
        &&& self.blocks@[self.payload_idx->0 as int]@.data is Retained
        &&& if self.state == State::PayloadData {
            k + self.payload_remaining == self.blocks@[self.payload_idx->0 as int]@.data->len
        } else {
            k >= self.blocks@[self.payload_idx->0 as int]@.data->len
        }
    }

    /// Whether `self` carries on `old`'s retention past the payload block:
    /// from the same start, with the same payload block data, and exactly
    /// if `old`'s was exact.
    pub closed spec fn continues_tee(self, old: Self) -> bool {
        &&& self.start_stream() == old.start_stream()
        &&& self.start_retained() == old.start_retained()
        &&& self.payload_idx == old.payload_idx
        &&& old.payload_idx is Some && old.payload_idx->0 < old.blocks@.len() ==> {
            &&& self.payload_idx->0 < self.blocks@.len()
            &&& self.blocks@[self.payload_idx->0 as int]@.data == old.blocks@[old.payload_idx->0 as int]@.data
        }
        &&& old.tees_payload() ==> self.tees_payload()
    }

    /// Whether `self`, just past the header of the payload block `v` (of
    /// `len` data bytes), read with filters or mutators from a source that
    /// was to yield `s0` into a retention that held `w0`, with mutators `ms`
    /// run on the primary block `p` and extension blocks `exts`: the
    /// retention holds `w0` and the headers it keeps (see [`kept_headers`]),
    /// the rest of the source is teed into it from the payload data on, and
    /// the payload block names that data where the retention holds it.
    #[verifier::opaque]
    pub closed spec fn took_over_with(
        self,
        s0: Seq<u8>,
        w0: Seq<u8>,
        ms: Seq<std::sync::Arc<Box<dyn BundleMutator>>>,
        p: PrimaryBlockView,
        exts: Seq<CanonicalBlockView>,
        v: CanonicalBlockView,
        len: u64,
    ) -> bool {
        let k = s0.len() - self.stream().len();
        let pb = self.spec_blocks().last();
        let (p2, e2, changed) = spec_run_mutators(ms, p, exts);
        let hd = kept_headers(changed, p2, e2, v, len, s0.take(k));
        &&& self.tees_payload()
        &&& self.stream().len() <= s0.len()
        &&& self.start_stream() == s0.skip(k)
        &&& self.start_retained() == w0 + hd
        &&& pb.data->len == len
        &&& s0.len() < 0x1_0000_0000_0000_0000 ==> pb.data->offset == hd.len() && v.data->offset == k
    }

    /// [`took_over_with`](Self::took_over_with), seen from the
    /// state `mid` just after the payload block `pre` was decoded.
    spec fn entered_payload(self, mid: Self, pre: CanonicalBlockView, len: u64) -> bool {
        let s0 = mid.start_stream();
        let k = s0.len() - mid.stream().len();
        let (p2, e2, changed) = spec_run_mutators(mid.mutators(), mid.spec_primary()->0, mid.spec_blocks());
        let hd = kept_headers(changed, p2, e2, pre, len, s0.take(k));
        let pb = self.spec_blocks().last();
        &&& self.tees_payload()
        &&& self.start_stream() == mid.stream()
        &&& self.stream() == mid.stream()
        &&& self.start_retained() == mid.held_retention()->0.written() + hd
        &&& spec_block_head(pb, len) == spec_block_head(pre, len)
        &&& pb.data->len == len
        &&& changed ==> pb.data->offset == hd.len()
        &&& !changed ==> pb.data->offset == pre.data->offset
    }

    #[verifier::rlimit(100)]
    proof fn lemma_took_over(old: Self, mid: Self, fin: Self, pre: CanonicalBlockView, n: nat, len: u64)
        requires
            old.copies_stream(),
            mid.start_stream() == old.start_stream(),
            mid.copies_stream(),
            n <= old.stream().len(),
            mid.stream() == old.stream().skip(n as int),
            spec_parse_block_stream(old.stream(), old.position()) == Ok::<((CanonicalBlockView, bool), nat), Error>(
                ((pre, true), n),
            ),
            mid.held_retention() == old.held_retention(),
            mid.mutators() == old.mutators(),
            mid.spec_primary() == old.spec_primary(),
            mid.spec_blocks() == old.spec_blocks(),
            fin.entered_payload(mid, pre, len),
        ensures
            fin.took_over_with(
                old.start_stream(),
                old.held_retention()->0.written(),
                old.mutators(),
                old.spec_primary()->0,
                old.spec_blocks(),
                pre,
                len,
            ),
    {
        reveal(OpenBundleReader::took_over_with);
        let ss = old.start_stream();
        let k0 = ss.len() - old.stream().len();
        let k = ss.len() - fin.stream().len();
        let pb = fin.spec_blocks().last();
        let (p2, e2, changed) = spec_run_mutators(old.mutators(), old.spec_primary()->0, old.spec_blocks());
        let hd = kept_headers(changed, p2, e2, pb, len, ss.take(k));
        assert(fin.stream() == mid.stream());
        assert(fin.start_stream() == ss.skip(k)) by {
            assert(ss.skip(ss.len() - mid.stream().len()) == mid.stream());
        }
        assert(hd == kept_headers(changed, p2, e2, pre, len, ss.take(k))) by {
            if changed {
                assert(spec_block_head(pb, len) == spec_block_head(pre, len));
            }
        }
        assert(fin.start_retained() == old.held_retention()->0.written() + hd);
        assert(ss.len() < 0x1_0000_0000_0000_0000 ==> pre.data->offset == k) by {
            if ss.len() < 0x1_0000_0000_0000_0000 {
                lemma_parse_payload_offset(old.stream(), old.position());
                assert(pre.data->offset == advance_pos(old.position(), n));
                lemma_advance_pos_add(0, k0 as nat, n);
                vstd::arithmetic::div_mod::lemma_small_mod((k0 + n) as nat, 0x1_0000_0000_0000_0000nat);
            }
        }
        assert(ss.len() < 0x1_0000_0000_0000_0000 ==> pb.data->offset == hd.len());
    }

    /// The CRC type code of the payload block, once read.
    pub closed spec fn payload_crc_code(&self) -> u64 {
        self.payload_crc_type
    }

    /// What parsing the rest of the bundle gives from this session's state
    /// (without filters or mutators): the primary block and all blocks.
    pub closed spec fn spec_outcome(&self) -> Result<(PrimaryBlockView, Seq<CanonicalBlockView>), Error> {
        let blocks = blocks_view(self.blocks@);
        match self.state {
            State::Initial => spec_read_bundle(self.dec.stream(), self.dec.pos()),
            State::Blocks => lift_outcome(
                self.primary->0@,
                spec_rest_blocks(blocks, self.payload_idx, self.dec.stream(), self.dec.pos()),
            ),
            State::PayloadData => if self.payload_remaining > self.dec.stream().len() {
                Err(Error::Cbor(CborError::UnexpectedEof))
            } else {
                lift_outcome(
                    self.primary->0@,
                    spec_rest_crc(
                        blocks,
                        self.payload_idx,
                        self.payload_crc_type,
                        self.dec.stream().skip(self.payload_remaining as int),
                        advance_pos(self.dec.pos(), self.payload_remaining as nat),
                    ),
                )
            },
            State::PayloadConsumed => lift_outcome(
                self.primary->0@,
                spec_rest_crc(blocks, self.payload_idx, self.payload_crc_type, self.dec.stream(), self.dec.pos()),
            ),
            State::Done => Ok((self.primary->0@, blocks)),
        }
    }

    /// What reading the bundle's headers gives from this session's state,
    /// before the payload block: the primary block, the extension blocks and
    /// the payload block's header.
    pub closed spec fn headers_outcome(&self) -> Result<
        (PrimaryBlockView, Seq<CanonicalBlockView>, CanonicalBlockView),
        Error,
    > {
        match self.state {
            State::Initial => spec_read_headers_at(self.dec.stream(), self.dec.pos()),
            _ => match spec_rest_headers(blocks_view(self.blocks@), self.dec.stream(), self.dec.pos()) {
                Err(e) => Err(e),
                Ok((exts, v)) => Ok((self.primary->0@, exts, v)),
            },
        }
    }

    fn open(source: R, retention: S, chain: FilterChain) -> (r: Self)
        ensures
            r.wf(),
            r.is_initial(),
            !r.in_payload_data(),
            r.payload_index() is None,
            r.spec_blocks() == Seq::<CanonicalBlockView>::empty(),
            r.stream() == source.pending(),
            r.filters() == chain.filters(),
            r.mutators() == chain.mutators(),
            r.deferred() ==> r.held_retention() == Some(retention),
            !r.deferred() ==> r.held_retention() is None,
            r.spec_outcome() == spec_read_bundle(source.pending(), 0),
            r.headers_outcome() == spec_read_headers(source.pending()),
            !r.deferred() ==> r.copies_stream() && r.start_stream() == source.pending() && r.start_retained()
                == retention.written(),
            r.deferred() ==> r.copies_stream() && r.start_stream() == source.pending(),
            !r.deferred() ==> r.tees_source() && (r.reliable() == (source.reliable() && retention.reliable())),
            r.deferred() ==> r.reliable() == source.reliable() && !r.tees_source(),
    {
        let ghost w0 = retention.written();
        let ghost s0 = source.pending();
        let r = if chain.is_empty() {
            let tee = TeeReader::new(source, retention);
            OpenBundleReader {
                dec: StreamDecoder::new(DeferredReader::Teeing(tee)),
                state: State::Initial,
                primary: None,
                blocks: Vec::new(),
                payload_idx: None,
                payload_crc_type: 0,
                payload_remaining: 0,
                retention: None,
                chain,
            }
        } else {
            let capture = CaptureReader::new(source);
            OpenBundleReader {
                dec: StreamDecoder::new(DeferredReader::Capturing(capture)),
                state: State::Initial,
                primary: None,
                blocks: Vec::new(),
                payload_idx: None,
                payload_crc_type: 0,
                payload_remaining: 0,
                retention: Some(retention),
                chain,
            }
        };
        proof {
            assert(r.spec_blocks() =~= Seq::<CanonicalBlockView>::empty());
            assert(s0.skip(0) =~= s0);
            lemma_advance_pos_add(0, 0, 0);
        }
        r
    }

    pub fn primary(&self) -> (r: Option<&PrimaryBlock>)
        ensures
            match r {
                Some(p) => self.spec_primary() == Some(p@),
                None => self.spec_primary() is None,
            },
    {
        self.primary.as_ref()
    }

    pub fn blocks(&self) -> (r: &[CanonicalBlock])
        ensures
            blocks_view(r@) == self.spec_blocks(),
    {
        self.blocks.as_slice()
    }

    /// Read payload data into `buf`: inside the payload's data, up to what is
    /// left of it; once it is all read, nothing. Outside the payload's data
    /// this is an error.
    pub fn read_payload(&mut self, buf: &mut [u8]) -> (r: Result<usize, Error>)
        requires
            old(self).wf(),
        ensures
            final(self).wf(),
            final(buf)@.len() == old(buf)@.len(),
            final(self).spec_primary() == old(self).spec_primary(),
            final(self).spec_blocks() == old(self).spec_blocks(),
            final(self).payload_index() == old(self).payload_index(),
            final(self).held_retention() == old(self).held_retention(),
            final(self).filters() == old(self).filters(),
            final(self).mutators() == old(self).mutators(),
            final(self).deferred() == old(self).deferred(),
            !old(self).in_payload_data() && !old(self).payload_consumed() ==> r == Err::<usize, Error>(
                Error::PayloadNotConsumed,
            ) && final(self).stream() == old(self).stream(),
            old(self).payload_consumed() ==> r == Ok::<usize, Error>(0) && final(self).stream() == old(
                self,
            ).stream() && final(self).payload_consumed(),
            old(self).in_payload_data() ==> match r {
                Ok(n) => {
                    &&& n <= old(buf)@.len()
                    &&& n <= old(self).remaining()
                    &&& n <= old(self).stream().len()
                    &&& final(buf)@.take(n as int) == old(self).stream().take(n as int)
                    &&& final(self).stream() == old(self).stream().skip(n as int)
                    &&& final(self).remaining() == old(self).remaining() - n
                    &&& final(self).in_payload_data() == (final(self).remaining() != 0)
                    &&& final(self).payload_consumed() == (final(self).remaining() == 0)
                    &&& (n == 0 && old(buf)@.len() > 0 && old(self).remaining() > 0 ==> old(self).stream().len() == 0)
                    &&& final(self).spec_outcome() == old(self).spec_outcome()
                },
                Err(e) => io_failure(e) && !old(self).reliable(),
            },
            r is Ok && !old(self).deferred() ==> final(self).continues_copy(*old(self)),
            r is Ok ==> final(self).continues_tee(*old(self)),
    {
        match self.state {
            State::PayloadData => {},
            State::PayloadConsumed => {
                return Ok(0);
            },
            _ => {
                return Err(Error::PayloadNotConsumed);
            },
        }
        let ghost s0 = self.dec.stream();
        let ghost pos0 = self.dec.pos();
        let ghost rem0 = self.payload_remaining;
        let want: usize = if (buf.len() as u64) < self.payload_remaining {
            buf.len()
        } else {
            self.payload_remaining as usize
        };
        let mut tmp: Vec<u8> = Vec::new();
        let mut k: usize = 0;
        while k < want
            invariant
                k <= want,
                tmp@.len() == k,
            decreases want - k,
        {
            tmp.push(0u8);
            k = k + 1;
        }
        let n = match self.dec.inner().read(tmp.as_mut_slice()) {
            Ok(n) => n,
            Err(e) => {
                return Err(Error::Cbor(from_io(e)));
            },
        };
        let mut i: usize = 0;
        while i < n
            invariant
                i <= n,
                n <= tmp@.len(),
                tmp@.len() == want,
                want <= buf@.len(),
                buf@.len() == old(buf)@.len(),
                forall|j: int| 0 <= j < i ==> buf@[j] == tmp@[j],
            decreases n - i,
        {
            buf[i] = tmp[i];
            i = i + 1;
        }
        self.dec.advance(n as u64);
        self.payload_remaining = self.payload_remaining - n as u64;
        if self.payload_remaining == 0 {
            self.state = State::PayloadConsumed;
        }
        proof {
            assert(buf@.take(n as int) =~= tmp@.take(n as int));
            lemma_advance_pos_add(pos0, n as nat, (rem0 - n) as nat);
            if rem0 <= s0.len() {
                assert(s0.skip(n as int).skip(rem0 - n) =~= s0.skip(rem0 as int));
            }
            if !old(self).deferred() && old(self).copies_stream() {
                lemma_copy_advance(old(self).start_stream(), s0, pos0, n as nat);
            }
            if old(self).tees_payload() {
                lemma_suffix_advance(old(self).start_stream(), s0, n as nat);
            }
        }
        Ok(n)
    }

    /// Skip `len` bytes of payload data (or of the stream).
    pub fn walk(&mut self, len: u64) -> (r: Result<(), Error>)
        requires
            old(self).wf(),
        ensures
            final(self).wf(),
            final(self).spec_primary() == old(self).spec_primary(),
            final(self).spec_blocks() == old(self).spec_blocks(),
            final(self).payload_index() == old(self).payload_index(),
            final(self).held_retention() == old(self).held_retention(),
            final(self).filters() == old(self).filters(),
            final(self).mutators() == old(self).mutators(),
            match r {
                Ok(()) => {
                    &&& len <= old(self).stream().len()
                    &&& final(self).stream().len() == old(self).stream().len() - len
                    &&& if old(self).in_payload_data() {
                        &&& final(self).remaining() == if len < old(self).remaining() {
                            old(self).remaining() - len
                        } else {
                            0
                        }
                        &&& final(self).payload_consumed() == (final(self).remaining() == 0)
                        &&& final(self).in_payload_data() == (final(self).remaining() != 0)
                    } else {
                        &&& final(self).remaining() == old(self).remaining()
                        &&& final(self).is_initial() == old(self).is_initial()
                        &&& final(self).in_blocks() == old(self).in_blocks()
                        &&& final(self).payload_consumed() == old(self).payload_consumed()
                        &&& final(self).is_done() == old(self).is_done()
                    }
                },
                Err(e) => io_failure(e),
            },
            old(self).in_payload_data() && len <= old(self).remaining() ==> match r {
                Ok(()) => final(self).spec_outcome() == old(self).spec_outcome(),
                Err(e) => io_failure(e) && (old(self).reliable() ==> old(self).spec_outcome() == Err::<
                    (PrimaryBlockView, Seq<CanonicalBlockView>),
                    Error,
                >(e)),
            },
            r is Ok && !old(self).deferred() && old(self).in_payload_data() ==> final(self).continues_copy(
                *old(self),
            ),
            r is Ok && old(self).in_payload_data() ==> final(self).continues_tee(*old(self)),
    {
        let ghost s0 = self.dec.stream();
        let ghost pos0 = self.dec.pos();
        let ghost rem0 = self.payload_remaining;
        cbor_result(self.dec.skip(len))?;
        proof {
            if !old(self).deferred() && old(self).in_payload_data() && old(self).copies_stream() {
                assert(self.dec.stream() == s0.skip(len as int));
                lemma_copy_advance(old(self).start_stream(), s0, pos0, len as nat);
            }
            if old(self).in_payload_data() && old(self).tees_payload() {
                assert(self.dec.stream() == s0.skip(len as int));
                lemma_suffix_advance(old(self).start_stream(), s0, len as nat);
            }
        }
        proof {
            if old(self).in_payload_data() && len <= rem0 {
                lemma_advance_pos_add(pos0, len as nat, (rem0 - len) as nat);
                assert(self.dec.stream() == s0.skip(len as int));
                if rem0 <= s0.len() {
                    assert(s0.skip(len as int).skip(rem0 - len) =~= s0.skip(rem0 as int));
                }
            }
        }
        if self.state == State::PayloadData {
            self.payload_remaining = if len < self.payload_remaining {
                self.payload_remaining - len
            } else {
                0
            };
            if self.payload_remaining == 0 {
                self.state = State::PayloadConsumed;
            }
        }
        Ok(())
    }

    /// Read the bundle's start and its primary block, and check the
    /// primary block's CRC.
    #[verifier::rlimit(40)]
    fn read_start(&mut self) -> (r: Result<(), Error>)
        requires
            old(self).wf(),
            old(self).is_initial(),
        ensures
            final(self).wf(),
            final(self).chain == old(self).chain,
            final(self).retention == old(self).retention,
            final(self).blocks@ == old(self).blocks@,
            final(self).payload_idx == old(self).payload_idx,
            final(self).payload_remaining == old(self).payload_remaining,
            r is Ok ==> {
                &&& final(self).in_blocks()
                &&& spec_parse_primary(old(self).stream().skip(1)) matches Ok((p, _))
                &&& final(self).spec_primary() == Some(p)
                &&& primary_crc_ok(p)
                &&& final(self).stream().len() < old(self).stream().len()
            },
            r is Err ==> final(self).is_initial(),
            match r {
                Ok(()) => final(self).spec_outcome() == old(self).spec_outcome(),
                Err(e) => old(self).spec_outcome() == Err::<(PrimaryBlockView, Seq<CanonicalBlockView>), Error>(e)
                    || (!old(self).reliable() && io_failure(e)),
            },
            match r {
                Ok(()) => final(self).headers_outcome() == old(self).headers_outcome(),
                Err(e) => old(self).headers_outcome() == Err::<
                    (PrimaryBlockView, Seq<CanonicalBlockView>, CanonicalBlockView),
                    Error,
                >(e) || (!old(self).reliable() && io_failure(e)),
            },
            !(r matches Err(Error::FilterRejected(_))),
            r is Ok ==> final(self).continues_copy(*old(self)),
    {
        let ghost s0 = self.dec.stream();
        let ghost pos0 = self.dec.pos();
        proof {
            lemma_read_bundle_step(s0, pos0);
            lemma_read_headers_step(s0, pos0);
        }
        cbor_result(self.dec.read_indefinite_array_start())?;
        let ghost s1 = self.dec.stream();
        proof {
            assert(s1 == old(self).stream().skip(1));
            lemma_parse_primary_not_rejected(s1);
        }
        let primary = PrimaryBlock::decode_stream(&mut self.dec)?;
        proof {
            assert(spec_parse_primary(s1) matches Ok((p, n)) && primary@ == p && self.dec.stream() == s1.skip(n as int));
            let n = spec_parse_primary(s1)->Ok_0.1;
            lemma_advance_pos_add(pos0, 1, n);
            assert(s1.skip(n as int) =~= s0.skip((n + 1) as int));
            assert(blocks_view(self.blocks@) =~= Seq::<CanonicalBlockView>::empty());
        }
        primary.verify_crc()?;
        proof {
            reveal(primary_crc_ok);
            if old(self).copies_stream() {
                let ss = old(self).start_stream();
                let n = spec_parse_primary(s1)->Ok_0.1;
                lemma_copy_advance(ss, s0, pos0, 1);
                lemma_copy_advance(ss, s1, advance_pos(pos0, 1), n);
            }
        }
        self.primary = Some(primary);
        self.state = State::Blocks;
        Ok(())
    }

    /// Read the CRC that follows the payload data into the payload block.
    fn read_payload_crc(&mut self) -> (r: Result<(), Error>)
        requires
            old(self).wf(),
            old(self).payload_consumed(),
        ensures
            final(self).wf(),
            final(self).chain == old(self).chain,
            final(self).retention == old(self).retention,
            final(self).primary == old(self).primary,
            final(self).payload_idx == old(self).payload_idx,
            final(self).payload_remaining == old(self).payload_remaining,
            final(self).blocks@.len() == old(self).blocks@.len(),
            forall|j: int|
                0 <= j < old(self).blocks@.len() && Some(j as usize) != old(self).payload_idx
                    ==> #[trigger] final(self).blocks@[j] == old(self).blocks@[j],
            forall|j: int|
                0 <= j < old(self).blocks@.len() ==> (#[trigger] final(self).blocks@[j])@.block_type
                    == old(self).blocks@[j]@.block_type && final(self).blocks@[j]@.data == old(self).blocks@[j]@.data,
            r is Ok ==> final(self).in_blocks() && final(self).stream().len() <= old(self).stream().len(),
            r is Err ==> final(self).payload_consumed(),
            match r {
                Ok(()) => final(self).spec_outcome() == old(self).spec_outcome(),
                Err(e) => old(self).spec_outcome() == Err::<(PrimaryBlockView, Seq<CanonicalBlockView>), Error>(e)
                    || (!old(self).reliable() && io_failure(e)),
            },
            !(r matches Err(Error::FilterRejected(_))),
            r is Ok && !old(self).deferred() ==> final(self).continues_copy(*old(self)),
            r is Ok ==> final(self).continues_tee(*old(self)),
    {
        let ghost s0 = self.dec.stream();
        let ghost pos0 = self.dec.pos();
        let ghost b0 = blocks_view(self.blocks@);
        proof {
            lemma_rest_crc_step(b0, self.payload_idx, self.payload_crc_type, s0, pos0);
            reveal(p_bstr);
            lemma_p_within(s0);
        }
        let idx = match self.payload_idx {
            Some(i) => i,
            None => {
                return Err(Error::InvalidPayloadCount(0));
            },
        };
        let crc = if self.payload_crc_type != 0 {
            Crc::decode_stream(&mut self.dec, self.payload_crc_type)?
        } else {
            Crc::NoCrc
        };
        let mut b = self.blocks[idx].duplicate();
        b.crc = crc;
        self.blocks.set(idx, b);
        self.state = State::Blocks;
        proof {
            assert(blocks_view(self.blocks@) =~= set_crc(b0, Some(idx), crc));
            if self.payload_crc_type == 0 {
                assert(s0.skip(0) =~= s0);
                lemma_advance_pos_add(pos0, 0, 0);
            }
        }
        proof {
            let v0 = blocks_view(old(self).blocks@);
            let v1 = blocks_view(self.blocks@);
            assert forall|j: int| 0 <= j < v1.len() implies (#[trigger] v1[j]).block_type == v0[j].block_type
                && v1[j].data == v0[j].data by {
                assert(v1[j] == self.blocks@[j]@);
                assert(v0[j] == old(self).blocks@[j]@);
            }
            if old(self).tees_payload() {
                if self.payload_crc_type != 0 {
                    lemma_suffix_advance(old(self).start_stream(), s0, spec_read_bstr(s0).1);
                }
                assert(self.blocks@[idx as int]@.data == old(self).blocks@[idx as int]@.data);
            }
            if !old(self).deferred() && old(self).copies_stream() {
                let ss = old(self).start_stream();
                if self.payload_crc_type != 0 {
                    lemma_copy_advance(ss, s0, pos0, spec_read_bstr(s0).1);
                }
                let k = ss.len() - self.dec.stream().len();
                assert(self.dec.stream().len() <= s0.len());
                if ss.len() < 0x1_0000_0000_0000_0000 {
                    assert forall|j: int| 0 <= j < v1.len() && (#[trigger] v1[j]).data is Retained implies v1[j].data->offset
                        + v1[j].data->len <= k by {
                        assert(v0[j].data is Retained);
                        assert(v0[j].data->offset + v0[j].data->len <= ss.len() - s0.len());
                    }
                }
            }
        }
        Ok(())
    }

    /// Deferred mode, at the payload block: let the filters decide on the
    /// primary block, the extension blocks read and the payload length; run
    /// the mutators; hand the retention the bytes read so far, or the
    /// re-encoded blocks when a mutator changed them (the payload data then
    /// follows them, at the offset given to `block`).
    #[verifier::rlimit(40)]
    fn filter_and_retain(&mut self, block: &mut CanonicalBlock, data_len: u64) -> (r: Result<(), Error>)
        requires
            old(self).wf(),
            old(self).in_blocks(),
            old(self).payload_idx is None,
            old(self).dec.peeked() is None,
            old(block).data matches BlockData::Retained { len, .. } && len == data_len,
        ensures
            final(self).wf(),
            final(self).in_blocks(),
            final(self).chain == old(self).chain,
            final(self).payload_idx == old(self).payload_idx,
            final(self).payload_remaining == old(self).payload_remaining,
            final(self).dec.peeked() == old(self).dec.peeked(),
            final(block).data matches BlockData::Retained { len, .. } && len == data_len,
            final(block).block_type == old(block).block_type,
            final(block).block_number == old(block).block_number,
            final(block).flags == old(block).flags,
            final(block).crc == old(block).crc,
            ({
                let meta = BundleMetadataView {
                    primary: old(self).spec_primary()->0,
                    extensions: old(self).spec_blocks(),
                    payload_len: data_len,
                };
                let (p2, e2, _) = spec_run_mutators(
                    old(self).mutators(),
                    old(self).spec_primary()->0,
                    old(self).spec_blocks(),
                );
                match spec_run_filters(old(self).filters(), meta) {
                    Err(rej) => {
                        &&& r matches Err(Error::FilterRejected(x)) && x@ == rej
                        &&& final(self).held_retention() == old(self).held_retention()
                        &&& final(self).spec_primary() == old(self).spec_primary()
                        &&& final(self).spec_blocks() == old(self).spec_blocks()
                    },
                    Ok(()) => {
                        &&& final(self).spec_primary() == Some(p2)
                        &&& final(self).spec_blocks() == e2
                        &&& r is Ok ==> final(self).held_retention() is None && final(self).stream()
                            == old(self).stream()
                        &&& r matches Err(e) ==> io_failure(e)
                    },
                }
            }),
            r is Ok && old(self).copies_stream() && old(self).held_retention() is Some ==> {
                let s0 = old(self).start_stream();
                let k = s0.len() - old(self).stream().len();
                let (p2, e2, changed) = spec_run_mutators(
                    old(self).mutators(),
                    old(self).spec_primary()->0,
                    old(self).spec_blocks(),
                );
                let hd = kept_headers(changed, p2, e2, old(block)@, data_len, s0.take(k));
                &&& final(self).dec.spec_reader().faithful()
                &&& final(self).start_stream() == old(self).stream()
                &&& final(self).start_retained() == old(self).held_retention()->0.written() + hd
                &&& changed ==> final(block)@.data->offset == hd.len()
                &&& !changed ==> final(block)@.data->offset == old(block)@.data->offset
            },
    {
        let ghost p0 = self.spec_primary()->0;
        let ghost b0 = self.spec_blocks();
        let ghost s0 = self.start_stream();
        let ghost st0 = self.stream();
        let primary_ref = match &self.primary {
            Some(p) => p,
            None => {
                return Err(Error::IncompleteRead);
            },
        };
        let meta = BundleMetadata {
            primary: primary_ref,
            extensions: self.blocks.as_slice(),
            payload_len: data_len,
        };
        match self.chain.run_filters(&meta) {
            Ok(()) => {},
            Err(rej) => {
                return Err(Error::FilterRejected(rej));
            },
        }
        let mut primary = match self.primary.take() {
            Some(p) => p,
            None => {
                return Err(Error::IncompleteRead);
            },
        };
        let mutated = self.chain.run_mutators(&mut primary, &mut self.blocks);
        match self.retention.take() {
            Some(retention) => {
                if mutated {
                    let mut enc = Encoder::with_capacity(256);
                    enc.write_indefinite_array();
                    primary.encode(&mut enc);
                    let ghost start = enc@;
                    let ghost exts = blocks_view(self.blocks@);
                    let mut i: usize = 0;
                    while i < self.blocks.len()
                        invariant
                            i <= self.blocks@.len(),
                            exts == blocks_view(self.blocks@),
                            enc@ == start + spec_encode_blocks(exts.take(i as int)),
                        decreases self.blocks@.len() - i,
                    {
                        self.blocks[i].encode(&mut enc);
                        proof {
                            assert(exts.take(i + 1).drop_last() =~= exts.take(i as int));
                            assert(exts.take(i + 1).last() == self.blocks@[i as int]@);
                        }
                        i = i + 1;
                    }
                    proof {
                        assert(exts.take(self.blocks@.len() as int) =~= exts);
                    }
                    let has_crc = block.crc.crc_type() != 0;
                    enc.write_array(
                        if has_crc {
                            6
                        } else {
                            5
                        },
                    );
                    enc.write_uint(block.block_type);
                    enc.write_uint(block.block_number);
                    enc.write_uint(block.flags.bits());
                    enc.write_uint(block.crc.crc_type());
                    enc.write_bstr_header(data_len);
                    let new_offset = enc.position() as u64;
                    block.data = BlockData::Retained { offset: new_offset, len: data_len };
                    self.primary = Some(primary);
                    match self.dec.inner().activate_retention_replacing(retention, enc.as_bytes()) {
                        Ok(()) => {},
                        Err(e) => {
                            return Err(Error::Cbor(from_io(e)));
                        },
                    }
                } else {
                    self.primary = Some(primary);
                    match self.dec.inner().activate_retention(retention) {
                        Ok(()) => {},
                        Err(e) => {
                            return Err(Error::Cbor(from_io(e)));
                        },
                    }
                }
            },
            None => {
                self.primary = Some(primary);
            },
        }
        Ok(())
    }

    /// Decode the next canonical block (its header only, for the payload
    /// block), keeping the retention's copy of the source.
    fn decode_block(&mut self) -> (r: Result<(CanonicalBlock, bool), Error>)
        requires
            old(self).wf(),
            old(self).in_blocks(),
        ensures
            final(self).wf(),
            final(self).state == old(self).state,
            final(self).primary == old(self).primary,
            final(self).blocks == old(self).blocks,
            final(self).payload_idx == old(self).payload_idx,
            final(self).payload_crc_type == old(self).payload_crc_type,
            final(self).payload_remaining == old(self).payload_remaining,
            final(self).retention == old(self).retention,
            final(self).chain == old(self).chain,
            r matches Ok((b, q)) ==> (spec_parse_block_stream(old(self).dec.stream(), old(self).dec.pos()) matches Ok(
                ((v, p), n),
            ) && b@ == v && q == p && 1 <= n <= old(self).dec.stream().len() && final(self).dec.consumed(
                old(self).dec,
                n,
            )),
            r matches Ok((_, true)) ==> final(self).dec.peeked() is None,
            r matches Err(e) ==> stream_failure(
                e,
                spec_parse_block_stream(old(self).dec.stream(), old(self).dec.pos()),
                old(self).dec.spec_reader().reliable(),
            ),
            r is Ok ==> final(self).continues_copy(*old(self)),
            r is Ok ==> final(self).continues_tee(*old(self)),
    {
        let ghost s0 = self.dec.stream();
        let ghost pos0 = self.dec.pos();
        let r = CanonicalBlock::decode_stream(&mut self.dec);
        proof {
            if r is Ok && old(self).tees_payload() {
                let s1 = self.dec.stream();
                let n = (s0.len() - s1.len()) as nat;
                assert(s1 == s0.skip(n as int));
                lemma_suffix_advance(old(self).start_stream(), s0, n);
            }
            if r is Ok && old(self).copies_stream() {
                let s1 = self.dec.stream();
                let n = (s0.len() - s1.len()) as nat;
                assert(s1 == s0.skip(n as int));
                lemma_copy_advance(old(self).start_stream(), s0, pos0, n);
                let ss = old(self).start_stream();
                if ss.len() < 0x1_0000_0000_0000_0000 {
                    let v0 = self.spec_blocks();
                    assert forall|j: int| 0 <= j < v0.len() && (#[trigger] v0[j]).data is Retained implies v0[j].data->offset
                        + v0[j].data->len <= ss.len() - s1.len() by {
                        assert(v0[j].data->offset + v0[j].data->len <= ss.len() - s0.len());
                    }
                }
            }
        }
        r
    }

    /// Check an extension block's CRC and append it to the blocks read.
    fn push_extension(&mut self, block: CanonicalBlock) -> (r: Result<(), Error>)
        requires
            old(self).wf(),
            old(self).in_blocks(),
            block@.data is Inline,
            block@.block_type != PAYLOAD_BLOCK_TYPE,
        ensures
            r == ext_crc_check(block@),
            final(self).wf(),
            final(self).dec == old(self).dec,
            final(self).state == old(self).state,
            final(self).primary == old(self).primary,
            final(self).payload_idx == old(self).payload_idx,
            final(self).payload_crc_type == old(self).payload_crc_type,
            final(self).payload_remaining == old(self).payload_remaining,
            final(self).retention == old(self).retention,
            final(self).chain == old(self).chain,
            r is Ok ==> final(self).spec_blocks() == old(self).spec_blocks().push(block@),
            r is Err ==> final(self).blocks == old(self).blocks,
            r is Ok ==> final(self).continues_copy(*old(self)),
            r is Ok ==> final(self).continues_tee(*old(self)),
    {
        block.verify_crc()?;
        let ghost before = self.spec_blocks();
        self.blocks.push(block);
        proof {
            assert(self.spec_blocks() =~= before.push(block@));
            if old(self).copies_stream() {
                let ss = old(self).start_stream();
                let k1 = ss.len() - self.dec.stream().len();
                if ss.len() < 0x1_0000_0000_0000_0000 {
                    let v1 = self.spec_blocks();
                    assert forall|j: int| 0 <= j < v1.len() && (#[trigger] v1[j]).data is Retained implies v1[j].data->offset
                        + v1[j].data->len <= k1 by {
                        if j < v1.len() - 1 {
                            assert(v1[j] == before[j]);
                        }
                    }
                }
            }
            if old(self).payload_idx is Some {
                assert(self.blocks@[self.payload_idx->0 as int] == old(self).blocks@[self.payload_idx->0 as int]);
            }
        }
        Ok(())
    }

    /// Between blocks: read the end of the bundle, an extension block, or
    /// the payload block's header.
    #[verifier::rlimit(100)]
    #[verifier::spinoff_prover]
    fn read_block(&mut self) -> (r: Result<Option<BlockEvent>, Error>)
        requires
            old(self).wf(),
            old(self).in_blocks(),
        ensures
            final(self).wf(),
            final(self).chain == old(self).chain,
            r matches Ok(None) ==> {
                &&& final(self).is_done()
                &&& final(self).spec_blocks() == old(self).spec_blocks()
                &&& final(self).spec_primary() == old(self).spec_primary()
                &&& final(self).held_retention() == old(self).held_retention()
            },
            r matches Ok(Some(BlockEvent::Extension(i))) ==> {
                &&& final(self).in_blocks()
                &&& i == old(self).spec_blocks().len()
                &&& final(self).spec_blocks().len() == i + 1
                &&& final(self).spec_blocks().drop_last() == old(self).spec_blocks()
                &&& final(self).spec_blocks()[i as int].data is Inline
                &&& final(self).spec_blocks()[i as int].block_type != PAYLOAD_BLOCK_TYPE
                &&& final(self).spec_primary() == old(self).spec_primary()
                &&& final(self).held_retention() == old(self).held_retention()
                &&& final(self).payload_index() == old(self).payload_index()
            },
            r matches Ok(Some(BlockEvent::Payload { len })) ==> {
                &&& old(self).payload_index() is None
                &&& final(self).in_payload_data()
                &&& final(self).remaining() == len
                &&& final(self).spec_blocks().len() > 0
                &&& final(self).payload_index() == Some((final(self).spec_blocks().len() - 1) as usize)
                &&& final(self).spec_blocks().last().block_type == PAYLOAD_BLOCK_TYPE
                &&& final(self).spec_blocks().last().data matches BlockDataView::Retained { len: l, .. } && l == len
                &&& final(self).held_retention() is None
                &&& !old(self).deferred() ==> {
                    &&& final(self).spec_blocks().drop_last() == old(self).spec_blocks()
                    &&& final(self).spec_primary() == old(self).spec_primary()
                }
                &&& old(self).deferred() ==> {
                    let meta = BundleMetadataView {
                        primary: old(self).spec_primary()->0,
                        extensions: old(self).spec_blocks(),
                        payload_len: len,
                    };
                    let (p2, e2, _) = spec_run_mutators(
                        old(self).mutators(),
                        old(self).spec_primary()->0,
                        old(self).spec_blocks(),
                    );
                    &&& spec_run_filters(old(self).filters(), meta) is Ok
                    &&& final(self).spec_primary() == Some(p2)
                    &&& final(self).spec_blocks().drop_last() == e2
                }
            },
            r matches Ok(Some(_)) ==> final(self).stream().len() < old(self).stream().len(),
            r matches Err(Error::FilterRejected(_)) ==> final(self).held_retention() == old(self).held_retention(),
            !old(self).deferred() ==> match r {
                Ok(_) => final(self).spec_outcome() == old(self).spec_outcome(),
                Err(e) => old(self).spec_outcome() == Err::<(PrimaryBlockView, Seq<CanonicalBlockView>), Error>(e)
                    || (!old(self).reliable() && io_failure(e)),
            },
            r matches Err(Error::FilterRejected(_)) ==> old(self).payload_index() is None,
            r matches Ok(None) || r matches Ok(Some(BlockEvent::Extension(_))) || (r is Ok && !old(self).deferred())
                ==> final(self).continues_copy(*old(self)),
            r is Ok && old(self).payload_idx is Some ==> final(self).continues_tee(*old(self)),
            old(self).deferred() && old(self).copies_stream() && old(self).held_retention() is Some ==> match r {
                Ok(Some(BlockEvent::Payload { len })) => spec_parse_block_stream(
                    old(self).stream(),
                    old(self).position(),
                ) matches Ok(((v, true), _)) && final(self).took_over_with(
                    old(self).start_stream(),
                    old(self).held_retention()->0.written(),
                    old(self).mutators(),
                    old(self).spec_primary()->0,
                    old(self).spec_blocks(),
                    v,
                    len,
                ),
                _ => true,
            },
            old(self).payload_index() is None ==> block_read(
                old(self).stream(),
                old(self).position(),
                r,
                final(self).spec_blocks().last(),
                final(self).stream(),
                final(self).position(),
                old(self).deferred(),
                old(self).filters(),
                BundleMetadataView {
                    primary: old(self).spec_primary()->0,
                    extensions: old(self).spec_blocks(),
                    payload_len: 0,
                },
                old(self).reliable(),
            ),
    {
        let ghost s0 = self.dec.stream();
        let ghost pos0 = self.dec.pos();
        proof {
            lemma_rest_blocks_step(blocks_view(self.blocks@), self.payload_idx, s0, pos0);
        }
        if cbor_result(self.dec.is_break())? {
            let ghost s1 = self.dec.stream();
            cbor_result(self.dec.read_break())?;
            self.state = State::Done;
            proof {
                if old(self).copies_stream() {
                    let ss = old(self).start_stream();
                    lemma_copy_advance(ss, s0, pos0, 0);
                    lemma_copy_advance(ss, s1, advance_pos(pos0, 0), 1);
                }
                if old(self).tees_payload() {
                    let ss = old(self).start_stream();
                    lemma_suffix_advance(ss, s0, 0);
                    lemma_suffix_advance(ss, s1, 1);
                }
            }
            return Ok(None);
        }
        proof {
            assert(s0.skip(0) =~= s0);
            lemma_advance_pos_add(pos0, 0, 0);
            assert(self.dec.stream() == s0);
            assert(self.dec.pos() == pos0);
            lemma_parse_block_not_rejected(s0, pos0);
        }
        let (mut block, has_data) = self.decode_block()?;
        let ghost s1 = self.dec.stream();
        let ghost n = (s0.len() - s1.len()) as nat;
        proof {
            assert(s1 == s0.skip(n as int));
            assert(self.dec.pos() == advance_pos(pos0, n));
        }
        if has_data {
            if self.payload_idx.is_some() {
                return Err(Error::InvalidPayloadCount(2));
            }
            let data_len = match block.retained_range() {
                Some(range) => range.1,
                None => {
                    return Err(Error::PayloadNotInline);
                },
            };
            let ghost pre = block@;
            let ghost mid = *self;
            if !self.chain.is_empty() {
                self.filter_and_retain(&mut block, data_len)?;
            }
            self.payload_crc_type = block.crc.crc_type();
            self.payload_remaining = data_len;
            self.payload_idx = Some(self.blocks.len());
            let ghost before = self.spec_blocks();
            self.blocks.push(block);
            proof {
                assert(self.spec_blocks() =~= before.push(block@));
                assert(self.spec_blocks().drop_last() =~= before);
            }
            self.state = State::PayloadData;
            proof {
                lemma_advance_pos_add(pos0, n, data_len as nat);
                if data_len <= s1.len() {
                    assert(s1.skip(data_len as int) =~= s0.skip(n + data_len));
                }
                if old(self).deferred() && old(self).copies_stream() && old(self).held_retention() is Some {
                    assert(self.start_stream().skip(0) =~= self.start_stream());
                    assert(self.spec_blocks().last() == block@);
                    assert(self.entered_payload(mid, pre, data_len));
                    OpenBundleReader::lemma_took_over(*old(self), mid, *self, pre, n, data_len);
                }
                if !old(self).deferred() && old(self).copies_stream() {
                    let ss = old(self).start_stream();
                    let k0 = ss.len() - s0.len();
                    let k1 = ss.len() - s1.len();
                    lemma_advance_pos_add(0, k0 as nat, n);
                    if ss.len() < 0x1_0000_0000_0000_0000 {
                        let v1 = self.spec_blocks();
                        assert forall|j: int| 0 <= j < v1.len() && (#[trigger] v1[j]).data is Retained implies v1[j].data->offset
                            + v1[j].data->len <= k1 + data_len by {
                            if j < v1.len() - 1 {
                                assert(v1[j] == before[j]);
                            }
                        }
                    }
                }
            }
            Ok(Some(BlockEvent::Payload { len: data_len }))
        } else {
            self.push_extension(block)?;
            Ok(Some(BlockEvent::Extension(self.blocks.len() - 1)))
        }
    }

    /// Parse up to the next block boundary: the bundle's start and primary
    /// block first, then one extension block, the payload block's header,
    /// or the bundle's end. After a payload event the caller walks the
    /// payload data before asking for the next block.
    ///
    /// With filters or mutators, the filters decide at the payload block on
    /// the primary block, the extension blocks read and the payload length;
    /// a rejection leaves the retention untouched.
    pub fn next_block(&mut self) -> (r: Result<Option<BlockEvent>, Error>)
        requires
            old(self).wf(),
        ensures
            final(self).wf(),
            final(self).filters() == old(self).filters(),
            final(self).mutators() == old(self).mutators(),
            final(self).deferred() == old(self).deferred(),
            old(self).is_done() ==> {
                &&& r == Ok::<Option<BlockEvent>, Error>(None)
                &&& final(self).is_done()
                &&& final(self).stream() == old(self).stream()
                &&& final(self).spec_blocks() == old(self).spec_blocks()
                &&& final(self).spec_primary() == old(self).spec_primary()
                &&& final(self).held_retention() == old(self).held_retention()
            },
            old(self).in_payload_data() ==> {
                &&& r == Err::<Option<BlockEvent>, Error>(Error::PayloadNotConsumed)
                &&& final(self).in_payload_data()
                &&& final(self).stream() == old(self).stream()
                &&& final(self).spec_blocks() == old(self).spec_blocks()
                &&& final(self).spec_primary() == old(self).spec_primary()
                &&& final(self).held_retention() == old(self).held_retention()
                &&& final(self).remaining() == old(self).remaining()
            },
            old(self).is_initial() && r is Ok ==> (spec_parse_primary(old(self).stream().skip(1)) matches Ok((p, _))
                && primary_crc_ok(p)),
            r matches Ok(None) ==> final(self).is_done(),
            r is Ok && !old(self).deferred() ==> final(self).spec_primary() == if old(self).is_initial() {
                Some(spec_parse_primary(old(self).stream().skip(1))->Ok_0.0)
            } else {
                old(self).spec_primary()
            },
            !old(self).is_initial() && (r matches Ok(None) || r matches Ok(Some(BlockEvent::Extension(_))))
                ==> final(self).spec_primary() == old(self).spec_primary(),
            r matches Ok(None) ==> {
                &&& final(self).spec_blocks().len() == old(self).spec_blocks().len()
                &&& forall|j: int|
                    0 <= j < old(self).spec_blocks().len() && Some(j as usize) != old(self).payload_index()
                        ==> #[trigger] final(self).spec_blocks()[j] == old(self).spec_blocks()[j]
            },
            r matches Ok(Some(BlockEvent::Extension(i))) ==> {
                &&& final(self).in_blocks()
                &&& !final(self).in_payload_data()
                &&& i == old(self).spec_blocks().len()
                &&& final(self).spec_blocks().len() == i + 1
                &&& forall|j: int|
                    0 <= j < i && Some(j as usize) != old(self).payload_index() ==> #[trigger] final(self).spec_blocks()[j]
                        == old(self).spec_blocks()[j]
                &&& forall|j: int|
                    0 <= j < i ==> (#[trigger] final(self).spec_blocks()[j]).block_type == old(self).spec_blocks()[j].block_type
                        && final(self).spec_blocks()[j].data == old(self).spec_blocks()[j].data
                &&& final(self).payload_index() == old(self).payload_index()
                &&& final(self).spec_blocks()[i as int].data is Inline
                &&& final(self).spec_blocks()[i as int].block_type != PAYLOAD_BLOCK_TYPE
                &&& final(self).held_retention() == old(self).held_retention()
            },
            r matches Ok(Some(BlockEvent::Payload { len })) ==> {
                let p0 = if old(self).is_initial() {
                    spec_parse_primary(old(self).stream().skip(1))->Ok_0.0
                } else {
                    old(self).spec_primary()->0
                };
                &&& old(self).payload_index() is None
                &&& final(self).in_payload_data()
                &&& final(self).remaining() == len
                &&& final(self).spec_blocks().len() > 0
                &&& final(self).payload_index() == Some((final(self).spec_blocks().len() - 1) as usize)
                &&& final(self).spec_blocks().last().block_type == PAYLOAD_BLOCK_TYPE
                &&& final(self).spec_blocks().last().data matches BlockDataView::Retained { len: l, .. } && l == len
                &&& final(self).held_retention() is None
                &&& !old(self).deferred() ==> {
                    &&& final(self).spec_blocks().drop_last() == old(self).spec_blocks()
                    &&& final(self).spec_primary() == Some(p0)
                }
                &&& old(self).deferred() ==> {
                    let meta = BundleMetadataView {
                        primary: p0,
                        extensions: old(self).spec_blocks(),
                        payload_len: len,
                    };
                    let (p2, e2, _) = spec_run_mutators(old(self).mutators(), p0, old(self).spec_blocks());
                    &&& spec_run_filters(old(self).filters(), meta) is Ok
                    &&& final(self).spec_primary() == Some(p2)
                    &&& final(self).spec_blocks().drop_last() == e2
                }
            },
            r matches Ok(Some(_)) ==> final(self).stream().len() < old(self).stream().len(),
            r matches Ok(Some(_)) ==> !final(self).is_initial(),
            r matches Err(Error::FilterRejected(_)) ==> old(self).deferred() && old(self).filters().len() > 0,
            r is Ok && !old(self).deferred() ==> final(self).continues_copy(*old(self)),
            r is Ok && old(self).payload_index() is None && !(r matches Ok(Some(BlockEvent::Payload { .. })))
                ==> final(self).continues_copy(*old(self)),
            r is Ok && old(self).payload_index() is Some ==> final(self).continues_tee(*old(self)),
            r matches Ok(Some(BlockEvent::Extension(_))) ==> final(self).held_retention() == old(self).held_retention(),
            r matches Ok(None) && old(self).payload_index() is None ==> final(self).held_retention() == old(
                self,
            ).held_retention(),
            old(self).deferred() && old(self).copies_stream() && old(self).held_retention() is Some
                && old(self).payload_index() is None ==> match r {
                Ok(Some(BlockEvent::Payload { len })) => old(self).headers_outcome() matches Ok((p, exts, v))
                    && final(self).took_over_with(
                    old(self).start_stream(),
                    old(self).held_retention()->0.written(),
                    old(self).mutators(),
                    p,
                    exts,
                    v,
                    len,
                ),
                _ => true,
            },
            r matches Err(Error::FilterRejected(_)) ==> final(self).held_retention() == old(self).held_retention(),
            r matches Err(Error::FilterRejected(_)) ==> old(self).payload_index() is None && (old(self).is_initial()
                || old(self).in_blocks()),
            (old(self).is_initial() || old(self).in_blocks()) && old(self).payload_index() is None ==> {
                let p0 = if old(self).is_initial() {
                    spec_parse_primary(old(self).stream().skip(1))->Ok_0.0
                } else {
                    old(self).spec_primary()->0
                };
                match r {
                    Ok(Some(BlockEvent::Extension(_))) => final(self).headers_outcome() == old(self).headers_outcome(),
                    Ok(Some(BlockEvent::Payload { len })) => old(self).headers_outcome() matches Ok((p, exts, v))
                        && p == p0 && exts == old(self).spec_blocks() && v.data is Retained && v.data->len == len,
                    Ok(None) => old(self).headers_outcome() == Err::<
                        (PrimaryBlockView, Seq<CanonicalBlockView>, CanonicalBlockView),
                        Error,
                    >(Error::IncompleteRead),
                    Err(Error::FilterRejected(x)) => old(self).headers_outcome() matches Ok((p, exts, v)) && p == p0
                        && exts == old(self).spec_blocks() && spec_run_filters(
                        old(self).filters(),
                        BundleMetadataView { primary: p, extensions: exts, payload_len: v.data->len },
                    ) == Err::<(), FilterRejectionView>(x@),
                    Err(e) => old(self).headers_outcome() == Err::<
                        (PrimaryBlockView, Seq<CanonicalBlockView>, CanonicalBlockView),
                        Error,
                    >(e) || (io_failure(e) && (!old(self).reliable() || old(self).headers_outcome() is Ok)),
                }
            },
            !old(self).deferred() && !old(self).in_payload_data() ==> match r {
                Ok(_) => final(self).spec_outcome() == old(self).spec_outcome(),
                Err(e) => old(self).spec_outcome() == Err::<(PrimaryBlockView, Seq<CanonicalBlockView>), Error>(e)
                    || (!old(self).reliable() && io_failure(e)),
            },
    {
        let ghost b0 = self.spec_blocks();
        match self.state {
            State::Initial => {
                self.read_start()?;
                proof {
                    assert(self.spec_blocks() =~= b0);
                }
            },
            State::Blocks => {},
            State::PayloadConsumed => {
                self.read_payload_crc()?;
                proof {
                    assert forall|j: int|
                        0 <= j < b0.len() && Some(j as usize) != old(self).payload_index() implies #[trigger] self.spec_blocks()[j]
                        == b0[j] by {
                        assert(self.spec_blocks()[j] == self.blocks@[j]@);
                        assert(b0[j] == old(self).blocks@[j]@);
                    }
                    assert forall|j: int| 0 <= j < b0.len() implies (#[trigger] self.spec_blocks()[j]).block_type
                        == b0[j].block_type && self.spec_blocks()[j].data == b0[j].data by {
                        assert(self.spec_blocks()[j] == self.blocks@[j]@);
                        assert(b0[j] == old(self).blocks@[j]@);
                    }
                }
            },
            State::PayloadData => {
                return Err(Error::PayloadNotConsumed);
            },
            State::Done => {
                return Ok(None);
            },
        }
        let ghost b1 = self.spec_blocks();
        proof {
            if self.payload_idx is None {
                lemma_rest_headers_step(b1, self.dec.stream(), self.dec.pos());
            }
        }
        let r = self.read_block();
        proof {
            if self.spec_blocks().len() > 0 {
                assert(self.spec_blocks() == self.spec_blocks().drop_last().push(self.spec_blocks().last()));
            }
        }
        proof {
            if let Ok(Some(BlockEvent::Extension(i))) = r {
                assert forall|j: int|
                    0 <= j < i && Some(j as usize) != old(self).payload_index() implies #[trigger] self.spec_blocks()[j]
                    == b0[j] by {
                    assert(self.spec_blocks().drop_last()[j] == self.spec_blocks()[j]);
                    assert(b1[j] == b0[j]);
                }
                assert forall|j: int| 0 <= j < i implies (#[trigger] self.spec_blocks()[j]).block_type
                    == b0[j].block_type && self.spec_blocks()[j].data == b0[j].data by {
                    assert(self.spec_blocks().drop_last()[j] == self.spec_blocks()[j]);
                }
            }
        }
        r
    }

    /// Discard whatever the retention received, and fail with `e`.
    fn fail(self, e: Error) -> (r: Result<ReadResult<S>, Error>)
        ensures
            r == Err::<ReadResult<S>, Error>(e),
    {
        let mut retention = match self.dec.into_inner().into_retention() {
            Some(ret) => Some(ret),
            None => self.retention,
        };
        match retention {
            Some(ret) => {
                let mut ret = ret;
                let _ = ret.discard();
            },
            None => {},
        }
        Err(e)
    }

    /// Parse the rest of the bundle, walking over the payload data.
    ///
    /// A bundle that a filter rejects is answered with the rejection and
    /// its retention discarded; any other failure discards the retention
    /// too. Without filters or mutators, an accepted bundle holds the
    /// primary block read and its CRC matched, and exactly its payload
    /// blocks hold retained data, at most one of them. With them, from the
    /// session's start, the outcome follows the headers read (see
    /// [`filtered_read`]).
    #[verifier::loop_isolation(false)]
    pub fn into_bundle(self) -> (r: Result<ReadResult<S>, Error>)
        requires
            self.wf(),
        ensures
            r matches Ok(ReadResult::Accepted(b)) ==> {
                &&& !self.deferred() ==> single_retained_payload(b.bundle().blocks)
                &&& !self.deferred() && self.is_initial() ==> (spec_parse_primary(self.stream().skip(1)) matches Ok((p, _))
                    && b.bundle().primary == p && primary_crc_ok(p))
            },
            self.deferred() && self.is_initial() ==> filtered_read(
                self.filters(),
                self.mutators(),
                self.headers_outcome(),
                r,
                self.reliable() && !self.tees_source() && self.held_retention() is Some
                    && self.held_retention()->0.reliable(),
            ),
            self.filters().len() == 0 ==> !(r matches Ok(ReadResult::Rejected(_))),
            self.deferred() && self.is_initial() && self.copies_stream() && self.held_retention() is Some ==> (r matches Ok(
                ReadResult::Accepted(b),
            ) ==> (self.headers_outcome() is Ok ==> holds_filtered_copy(
                b.spec_retention().written(),
                self.held_retention()->0.written(),
                self.start_stream(),
                self.mutators(),
                self.headers_outcome()->Ok_0,
                b.bundle().blocks,
            ))),
            !self.deferred() && self.copies_stream() ==> (r matches Ok(ReadResult::Accepted(b)) ==> holds_copy(
                b.spec_retention().written(),
                self.start_retained(),
                self.start_stream(),
                b.bundle().blocks,
            )),
            !self.deferred() && !self.in_payload_data() ==> match r {
                Ok(ReadResult::Accepted(b)) => self.spec_outcome() == Ok::<
                    (PrimaryBlockView, Seq<CanonicalBlockView>),
                    Error,
                >((b.bundle().primary, b.bundle().blocks)),
                Ok(ReadResult::Rejected(x)) => self.spec_outcome() == Err::<
                    (PrimaryBlockView, Seq<CanonicalBlockView>),
                    Error,
                >(Error::FilterRejected(x)),
                Err(e) => self.spec_outcome() == Err::<(PrimaryBlockView, Seq<CanonicalBlockView>), Error>(e)
                    || (!self.reliable() && io_failure(e)) || (!self.tees_source() && e == Error::IncompleteRead),
            },
    {
        let ghost o0 = self.spec_outcome();
        let ghost tees0 = self.tees_source();
        let ghost held0 = self.held_retention();
        let ghost rel0 = self.reliable();
        let ghost pd0 = self.in_payload_data();
        let ghost s0 = self.stream();
        let ghost init = self.is_initial();
        let ghost deferred = self.deferred();
        let ghost h0 = self.headers_outcome();
        let ghost fs = self.filters();
        let ghost ms = self.mutators();
        let ghost copy0 = !self.deferred() && self.copies_stream();
        let ghost fil0 = self.deferred() && self.is_initial() && self.copies_stream() && self.held_retention() is Some;
        let ghost w0 = if self.held_retention() is Some {
            self.held_retention()->0.written()
        } else {
            Seq::empty()
        };
        let ghost ss0 = self.start_stream();
        let ghost sr0 = self.start_retained();
        let mut this = self;
        loop
            invariant
                this.wf(),
                this.deferred() == deferred,
                this.filters() == fs,
                this.mutators() == ms,
                copy0 ==> this.copies_stream() && this.start_stream() == ss0 && this.start_retained() == sr0,
                !deferred && tees0 ==> this.tees_source(),
                !deferred && rel0 ==> this.reliable(),
                deferred && init && this.payload_index() is None ==> {
                    &&& this.held_retention() == held0
                    &&& this.tees_source() == tees0
                    &&& rel0 ==> this.reliable()
                },
                fil0 && this.payload_index() is None ==> {
                    &&& this.copies_stream()
                    &&& this.start_stream() == ss0
                    &&& this.held_retention() is Some
                    &&& this.held_retention()->0.written() == w0
                },
                fil0 && this.payload_index() is Some ==> {
                    let (p, exts, v) = h0->Ok_0;
                    let (p2, e2, changed) = spec_run_mutators(ms, p, exts);
                    let len = v.data->len;
                    let ka = ss0.len() - this.start_stream().len();
                    &&& this.tees_payload()
                    &&& this.start_stream().len() <= ss0.len()
                    &&& this.start_stream() == ss0.skip(ka)
                    &&& this.start_retained() == w0 + kept_headers(changed, p2, e2, v, len, ss0.take(ka))
                    &&& this.spec_blocks()[e2.len() as int].data->len == len
                    &&& ss0.len() < 0x1_0000_0000_0000_0000 ==> this.spec_blocks()[e2.len() as int].data->offset
                        == kept_headers(changed, p2, e2, v, len, ss0.take(ka)).len() && v.data->offset == ka
                },
                this.is_initial() ==> this.stream() == s0 && init,
                init && !deferred && !this.is_initial() ==> (spec_parse_primary(s0.skip(1)) matches Ok((p, _))
                    && this.spec_primary() == Some(p) && primary_crc_ok(p)),
                !deferred && !pd0 ==> !this.in_payload_data() && this.spec_outcome() == o0,
                deferred && init && this.is_initial() ==> this.headers_outcome() == h0 && this.payload_index() is None,
                deferred && init && this.payload_index() is None && !this.is_initial() ==> {
                    &&& this.in_blocks()
                    &&& this.headers_outcome() == h0
                },
                deferred && init && this.payload_index() is Some ==> {
                    &&& h0 is Ok
                    &&& {
                        let (p, exts, v) = h0->Ok_0;
                        let (p2, e2, _) = spec_run_mutators(ms, p, exts);
                        &&& spec_run_filters(
                            fs,
                            BundleMetadataView { primary: p, extensions: exts, payload_len: v.data->len },
                        ) is Ok
                        &&& this.spec_primary() == Some(p2)
                        &&& this.payload_index() == Some(e2.len() as usize)
                        &&& this.spec_blocks().len() > e2.len()
                        &&& this.spec_blocks().take(e2.len() as int) == e2
                    }
                },
            decreases this.stream().len(),
        {
            let ghost blocks_before = this.spec_blocks();
            let ghost index_before = this.payload_index();
            assert(blocks_before.len() <= usize::MAX) by {
                assert(blocks_before.len() == this.blocks.len());
            }
            match this.next_block() {
                Ok(Some(BlockEvent::Payload { len })) => {
                    proof {
                        if fil0 && index_before is None {
                            reveal(OpenBundleReader::took_over_with);
                        }
                    }
                    match this.walk(len) {
                        Ok(()) => {},
                        Err(e) => {
                            return this.fail(e);
                        },
                    }
                },
                Ok(Some(BlockEvent::Extension(_))) => {},
                Ok(None) => {
                    let ghost d = this.deferred();
                    let ghost prim = this.spec_primary();
                    let ghost at_end = this;
                    let r = this.accept();
                    proof {
                        if deferred && init && index_before is None && r is Err {
                            assert(h0 == Err::<(PrimaryBlockView, Seq<CanonicalBlockView>, CanonicalBlockView), Error>(
                                Error::IncompleteRead,
                            ));
                            assert(at_end.held_retention() == held0);
                            assert(at_end.tees_source() == tees0);
                        }
                        assert(d == deferred);
                        if fil0 && index_before is Some && r is Ok && r->Ok_0 is Accepted && h0 is Ok {
                            let b = r->Ok_0->Accepted_0;
                            let ret = b.spec_retention().written();
                            let (p, exts, v) = h0->Ok_0;
                            let (p2, e2, changed) = spec_run_mutators(ms, p, exts);
                            let len = v.data->len;
                            let ka = ss0.len() - at_end.start_stream().len();
                            let hd = kept_headers(changed, p2, e2, v, len, ss0.take(ka));
                            let k = ret.len() - at_end.start_retained().len();
                            if ss0.len() < 0x1_0000_0000_0000_0000 {
                                assert(ss0.skip(ka).take(k) =~= ss0.subrange(ka, ka + k));
                                assert(ret =~= w0 + hd + ss0.subrange(ka, ka + k));
                            }
                        }
                        if deferred && init && index_before is Some {
                            let k = index_before->0 as int;
                            let (p, exts, v) = h0->Ok_0;
                            let (p2, e2, _) = spec_run_mutators(ms, p, exts);
                            assert(this.spec_blocks().take(k) =~= blocks_before.take(k));
                        }
                        if !d && r is Ok && r->Ok_0 is Accepted {
                            assert(single_retained_payload(r->Ok_0->Accepted_0.bundle().blocks));
                        }
                    }
                    return r;
                },
                Err(Error::FilterRejected(rej)) => {
                    match this.retention.take() {
                        Some(ret) => {
                            let mut ret = ret;
                            let _ = ret.discard();
                        },
                        None => {},
                    }
                    return Ok(ReadResult::Rejected(rej));
                },
                Err(e) => {
                    return this.fail(e);
                },
            }
        }
    }

    /// At the bundle's end: hand over the bundle with its retention.
    fn accept(self) -> (r: Result<ReadResult<S>, Error>)
        requires
            self.wf(),
            self.is_done(),
        ensures
            r matches Ok(ReadResult::Accepted(b)) ==> {
                &&& Some(b.bundle().primary) == self.spec_primary()
                &&& b.bundle().blocks == self.spec_blocks()
                &&& !self.deferred() ==> single_retained_payload(b.bundle().blocks)
            },
            r matches Err(e) ==> e == Error::IncompleteRead || io_failure(e),
            !self.deferred() && self.tees_source() ==> (r matches Err(e) ==> !self.reliable() && io_failure(e)),
            !self.deferred() && !self.tees_source() && self.is_done() ==> r == Err::<ReadResult<S>, Error>(
                Error::IncompleteRead,
            ),
            self.deferred() && !self.tees_source() && self.is_done() && self.held_retention() is Some ==> (r matches Err(
                e,
            ) ==> io_failure(e) && !self.held_retention()->0.reliable()),
            !(r matches Ok(ReadResult::Rejected(_))),
            !self.deferred() && self.copies_stream() ==> (r matches Ok(ReadResult::Accepted(b)) ==> holds_copy(
                b.spec_retention().written(),
                self.start_retained(),
                self.start_stream(),
                b.bundle().blocks,
            )),
            self.tees_payload() ==> (r matches Ok(ReadResult::Accepted(b)) ==> {
                let ret = b.spec_retention().written();
                let k = ret.len() - self.start_retained().len();
                &&& self.start_retained().len() <= ret.len()
                &&& k <= self.start_stream().len()
                &&& ret == self.start_retained() + self.start_stream().take(k)
                &&& k >= self.spec_blocks()[self.payload_idx->0 as int].data->len
            }),
    {
        let ghost tee = self.tees_payload();
        let ghost copy = !self.deferred() && self.copies_stream();
        let ghost ss = self.start_stream();
        let ghost sr = self.start_retained();
        let ghost kd = ss.len() - self.dec.stream().len();
        let ghost kd_len = self.dec.stream().len();
        let ghost rd = self.dec.spec_reader();
        if self.state != State::Done {
            return self.fail(Error::IncompleteRead);
        }
        let primary = match self.primary {
            Some(p) => p,
            None => {
                return Err(Error::InvalidPayloadCount(0));
            },
        };
        let mut retention = match self.dec.into_inner().into_retention() {
            Some(ret) => ret,
            None => match self.retention {
                Some(ret) => ret,
                None => {
                    return Err(Error::IncompleteRead);
                },
            },
        };
        match retention.flush() {
            Ok(()) => {},
            Err(e) => {
                let _ = retention.discard();
                return Err(Error::Cbor(CborError::Io(e)));
            },
        }
        let n = self.blocks.len();
        proof {
            if !self.deferred() {
                lemma_shape_single(blocks_view(self.blocks@), self.payload_idx);
            }
            if tee {
                assert(rd is Teeing);
                let t = rd->Teeing_0;
                let kr = ss.len() - t.pending().len();
                assert(retention.written() == sr + ss.take(kr));
                assert(t.pending().len() <= kd_len);
                assert((sr + ss.take(kr)).len() - sr.len() == kr);
            }
            if copy {
                assert(rd is Teeing);
                let t = rd->Teeing_0;
                let kr = ss.len() - t.pending().len();
                assert(retention.written() == sr + ss.take(kr));
                assert(t.pending().len() <= self.dec.stream().len());
                assert((sr + ss.take(kr)).len() - sr.len() == kr);
            }
        }
        let b = Bundle::from_parts(primary, self.blocks, retention);
        Ok(ReadResult::Accepted(b))
    }
}

} // verus!
