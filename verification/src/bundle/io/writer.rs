//! Streaming bundle writer with optional egress filter pipeline.

use vstd::prelude::*;

use crate::cbor::spec::{encode_head, BREAK, INDEFINITE_ARRAY, MAJOR_ARRAY, MAJOR_BSTR, MAJOR_UINT};
use crate::cbor::{Encoder, Error as CborError, StreamEncoder, ToCbor};
use crate::io::{OutputBuffer, Write};

use crate::bpv7::bundle::canonical::{
    blocks_view, first_match, is_first_match, is_retained, lemma_first_match, spec_encode_block, BlockData, BlockDataView, BlockFlags, CanonicalBlock, CanonicalBlockView,
    PAYLOAD_BLOCK_NUMBER, PAYLOAD_BLOCK_TYPE,
};
use crate::bpv7::bundle::primary::{spec_encode_primary, PrimaryBlock, PrimaryBlockView};
use crate::bpv7::bundle::spec_encode_blocks;
use crate::bpv7::crc::{Crc, CrcHasher};
use crate::bpv7::error::Error;
use crate::bpv7::filter::traits::BundleMetadataView;
use crate::bpv7::filter::{BundleFilter, BundleMetadata, BundleMutator};

use crate::cbor::stream::from_io;
use crate::io::Read;

use crate::bpv7::bundle::{spec_encode_bundle, Bundle as Bpv7Bundle, BundleView};
use crate::bundle::filter::{spec_run_filters, spec_run_mutators, FilterChain};
use crate::bundle::retention::Retention;
use crate::bundle::stored::{resolve_block, resolve_blocks, Bundle};

verus! {

/// The head of the payload block that the writer streams: the block's
/// fields and the header of its data byte string.
pub open spec fn spec_payload_header(flags: BlockFlags, crc: Crc, len: u64) -> Seq<u8> {
    encode_head(
        MAJOR_ARRAY,
        if crc == Crc::NoCrc {
            5
        } else {
            6
        },
    ) + encode_head(MAJOR_UINT, PAYLOAD_BLOCK_TYPE) + encode_head(MAJOR_UINT, PAYLOAD_BLOCK_NUMBER)
        + encode_head(MAJOR_UINT, flags.spec_bits()) + encode_head(MAJOR_UINT, crc.spec_crc_type())
        + encode_head(MAJOR_BSTR, len)
}

/// Whether an error is a failure of the underlying writer or reader.
pub open spec fn io_failure(e: Error) -> bool {
    ||| e == Error::Cbor(CborError::UnexpectedEof)
    ||| (e matches Error::Cbor(c) && c is Io)
}

/// A CBOR-level result as a bundle-level one.
pub fn cbor_result<T>(r: Result<T, CborError>) -> (o: Result<T, Error>)
    ensures
        match r {
            Ok(v) => o == Ok::<T, Error>(v),
            Err(e) => o == Err::<T, Error>(Error::Cbor(e)),
        },
{
    match r {
        Ok(v) => Ok(v),
        Err(e) => Err(Error::Cbor(e)),
    }
}

#[derive(Debug, Clone, Copy, PartialEq, Eq, Structural)]
enum State {
    Init,
    Blocks,
    Payload,
}

/// Streaming bundle writer with optional egress filter pipeline.
///
/// Filters run before the first byte hits the wire.
/// Rejected bundles waste zero network I/O.
pub struct BundleWriter {
    chain: FilterChain,
}

impl BundleWriter {
    /// The filters and mutators that every bundle written goes through.
    pub closed spec fn chain(&self) -> FilterChain {
        self.chain
    }

    pub fn new() -> (r: Self)
        ensures
            r.chain().filters().len() == 0,
            r.chain().mutators().len() == 0,
    {
        BundleWriter { chain: FilterChain::new() }
    }

    /// Add a filter; it runs after those added before.
    pub fn filter<F: BundleFilter + 'static>(self, f: F) -> (r: Self)
        ensures
            r.chain().mutators() == self.chain().mutators(),
            r.chain().filters().len() == self.chain().filters().len() + 1,
            r.chain().filters().take(self.chain().filters().len() as int) == self.chain().filters(),
    {
        let mut s = self;
        s.chain.add_filter(f);
        s
    }

    /// Add a mutator; it runs after those added before.
    pub fn mutator<M: BundleMutator + 'static>(self, m: M) -> (r: Self)
        ensures
            r.chain().filters() == self.chain().filters(),
            r.chain().mutators().len() == self.chain().mutators().len() + 1,
            r.chain().mutators().take(self.chain().mutators().len() as int) == self.chain().mutators(),
    {
        let mut s = self;
        s.chain.add_mutator(m);
        s
    }

    /// Open a destination for step-by-step writing.
    pub fn open<W: Write>(&self, writer: W) -> (r: OpenBundleWriter<W>)
        ensures
            r.wf(),
            r.is_init(),
            r.written() == writer.written(),
            r.deferred() == (self.chain().filters().len() > 0 || self.chain().mutators().len() > 0),
            r.filters() == self.chain().filters(),
            r.mutators() == self.chain().mutators(),
            r.held_primary() is None,
            r.held_extensions() == Seq::<CanonicalBlockView>::empty(),
    {
        OpenBundleWriter::new(writer, self.chain.share())
    }
}

/// The bytes that the writer streams for a retained payload block are the
/// block's encoding with its data read from the retained bytes.
proof fn lemma_retained_block_encoding(b: CanonicalBlockView, retained: Seq<u8>)
    requires
        b.data matches BlockDataView::Retained { offset, len } && offset + len <= retained.len(),
    ensures
        ({
            let offset = b.data->offset;
            let len = b.data->len;
            let d = retained.subrange(offset as int, offset + len);
            let header = spec_payload_header(b.flags, b.crc, len);
            spec_encode_block(resolve_block(b, retained)) == header + d + if b.crc != Crc::NoCrc {
                b.crc.spec_crc_field(header + d)
            } else {
                Seq::<u8>::empty()
            }
        }),
{
    let offset = b.data->offset;
    let len = b.data->len;
    let d = retained.subrange(offset as int, offset + len);
    let rb = resolve_block(b, retained);
    assert(d.len() == len);
    assert(crate::bpv7::bundle::canonical::spec_block_body(rb, d) =~= spec_payload_header(
        b.flags,
        b.crc,
        len,
    ) + d);
}

/// Stream `len` bytes from `reader` into the open payload block.
fn stream_payload<R: Read, W: Write>(w: &mut OpenBundleWriter<W>, reader: &mut R, len: u64) -> (r: Result<(), Error>)
    requires
        old(w).wf(),
        old(w).in_payload(),
        old(w).remaining() == len,
        (*old(reader)).pending().len() == len,
    ensures
        final(w).wf(),
        final(w).in_payload(),
        final(w).deferred() == old(w).deferred(),
        final(w).filters() == old(w).filters(),
        final(w).mutators() == old(w).mutators(),
        final(w).held_primary() == old(w).held_primary(),
        final(w).payload_crc() == old(w).payload_crc(),
        final(w).hashing() == old(w).hashing(),
        r is Ok ==> final(w).payload_bytes() == old(w).payload_bytes() + (*old(reader)).pending()
            && final(w).written() == old(w).written() + (*old(reader)).pending(),
        r matches Err(e) ==> io_failure(e),
{
    let ghost p0 = reader.pending();
    let ghost h = w.payload_bytes();
    let ghost ws = w.written();
    let mut buf: Vec<u8> = vec![0u8; 65536];
    let mut done: u64 = 0;
    proof {
        assert(p0.take(0) =~= Seq::<u8>::empty());
        assert(p0.skip(0) =~= p0);
    }
    loop
        invariant
            w.wf(),
            w.in_payload(),
            w.deferred() == old(w).deferred(),
            w.filters() == old(w).filters(),
            w.mutators() == old(w).mutators(),
            w.held_primary() == old(w).held_primary(),
            w.payload_crc() == old(w).payload_crc(),
            w.hashing() == old(w).hashing(),
            p0 == (*old(reader)).pending(),
            h == old(w).payload_bytes(),
            ws == old(w).written(),
            p0.len() == len,
            done <= len,
            w.remaining() == len - done,
            reader.pending() == p0.skip(done as int),
            w.payload_bytes() == h + p0.take(done as int),
            w.written() == ws + p0.take(done as int),
            buf@.len() == 65536,
        ensures
            w.payload_bytes() == h + p0,
            w.written() == ws + p0,
        decreases reader.pending().len(),
    {
        let n = match reader.read(buf.as_mut_slice()) {
            Ok(n) => n,
            Err(e) => {
                return Err(Error::Cbor(from_io(e)));
            },
        };
        if n == 0 {
            proof {
                assert(p0.take(done as int) =~= p0);
            }
            break;
        }
        w.write_payload_data(&buf.as_slice()[0..n])?;
        proof {
            assert(p0.take(done + n) =~= p0.take(done as int) + p0.skip(done as int).take(n as int));
            assert(p0.skip(done as int).skip(n as int) =~= p0.skip(done + n));
        }
        done = done + n as u64;
    }
    Ok(())
}

/// Write a block whose data is retained: the payload header, the data read
/// from the retention, and the CRC.
fn write_retained<S: Retention, W: Write>(w: &mut OpenBundleWriter<W>, retention: &S, block: &CanonicalBlock) -> (r: Result<(), Error>)
    requires
        old(w).wf(),
        old(w).in_blocks(),
        block.data is Retained,
    ensures
        final(w).wf(),
        final(w).deferred() == old(w).deferred(),
        final(w).filters() == old(w).filters(),
        final(w).mutators() == old(w).mutators(),
        r is Ok ==> final(w).in_blocks(),
        r is Ok && old(w).deferred() ==> final(w).held_primary() is None,
        r is Ok && !old(w).deferred() ==> final(w).written() == old(w).written() + spec_encode_block(
            resolve_block(block@, retention.written()),
        ),
        r matches Err(Error::FilterRejected(_)) ==> old(w).deferred() && old(w).held_primary() is Some
            && final(w).written() == old(w).written(),
        old(w).deferred() && old(w).held_primary() is None ==> r == Err::<(), Error>(Error::IncompleteRead),
        old(w).deferred() && old(w).held_primary() is Some ==> {
            let meta = BundleMetadataView {
                primary: old(w).held_primary()->0,
                extensions: old(w).held_extensions(),
                payload_len: block@.data->len,
            };
            let (p, e, _) = spec_run_mutators(old(w).mutators(), old(w).held_primary()->0, old(w).held_extensions());
            match spec_run_filters(old(w).filters(), meta) {
                Err(rej) => r matches Err(Error::FilterRejected(x)) && x@ == rej,
                Ok(()) => r is Ok ==> final(w).written() == old(w).written() + seq![INDEFINITE_ARRAY]
                    + spec_encode_primary(p) + spec_encode_blocks(e) + spec_encode_block(
                    resolve_block(block@, retention.written()),
                ),
            }
        },
{
    let (offset, len) = match &block.data {
        BlockData::Retained { offset, len } => (*offset, *len),
        BlockData::Inline(_) => (0, 0),
    };
    w.begin_payload(block.flags, block.crc, len)?;
    let ghost w1 = w.written();
    let mut reader = match retention.reader(offset, len) {
        Ok(rd) => rd,
        Err(e) => {
            return Err(Error::Cbor(from_io(e)));
        },
    };
    let ghost d = reader.pending();
    stream_payload(w, &mut reader, len)?;
    w.end_payload()?;
    proof {
        lemma_retained_block_encoding(block@, retention.written());
    }
    Ok(())
}

impl BundleWriter {
    /// Write a complete bundle to the destination: its primary block, its
    /// blocks in order, the payload data read from its retention, and the
    /// break that ends it.
    ///
    /// Returns the destination. Without filters or mutators the bytes
    /// written are the bundle's encoding. With them, the blocks are held
    /// back until the first block whose data is retained (the payload): the
    /// filters decide on the primary block, the blocks before it and the
    /// payload's length; the mutated blocks are then written with the
    /// payload block, and the blocks after it are held back for good (a
    /// second retained block is an error).
    #[verifier::rlimit(40)]
    pub fn write_to<S: Retention, W: Write>(&self, bundle: &Bundle<S>, writer: W) -> (r: Result<W, Error>)
        ensures
            self.chain().filters().len() == 0 && self.chain().mutators().len() == 0 ==> (r matches Ok(w)
                ==> w.written() == writer.written() + spec_encode_bundle(
                BundleView {
                    primary: bundle.bundle().primary,
                    blocks: resolve_blocks(bundle.bundle().blocks, bundle.spec_retention().written()),
                },
            )),
            !(self.chain().filters().len() == 0 && self.chain().mutators().len() == 0) ==> {
                let bv = bundle.bundle();
                match first_match(bv.blocks, is_retained()) {
                    None => r matches Ok(w) ==> w.written() == writer.written() + seq![BREAK],
                    Some(k) => {
                        let meta = BundleMetadataView {
                            primary: bv.primary,
                            extensions: bv.blocks.take(k),
                            payload_len: bv.blocks[k].data->len,
                        };
                        let (p, e, _) = spec_run_mutators(self.chain().mutators(), bv.primary, bv.blocks.take(k));
                        match spec_run_filters(self.chain().filters(), meta) {
                            Err(rej) => r matches Err(Error::FilterRejected(x)) && x@ == rej,
                            Ok(()) => {
                                &&& r matches Ok(w) ==> w.written() == writer.written() + seq![INDEFINITE_ARRAY]
                                    + spec_encode_primary(p) + spec_encode_blocks(e) + spec_encode_block(
                                    resolve_block(bv.blocks[k], bundle.spec_retention().written()),
                                ) + seq![BREAK]
                                &&& (exists|j: int| k < j < bv.blocks.len() && (#[trigger] bv.blocks[j]).data is Retained)
                                    ==> r is Err
                            },
                        }
                    },
                }
            },
    {
        let ghost w0 = writer.written();
        let ghost retained = bundle.spec_retention().written();
        let ghost bv = bundle.bundle();
        let ghost rb = resolve_blocks(bv.blocks, retained);
        let ghost first = first_match(bv.blocks, is_retained());
        proof {
            if first is Some {
                assert(is_first_match(bv.blocks, is_retained(), first->0));
            }
        }
        let inner: &Bpv7Bundle = core::ops::Deref::deref(bundle);
        let mut w = OpenBundleWriter::new(writer, self.chain.share());
        w.write_primary(inner.primary())?;
        let blocks = inner.blocks();
        proof {
            assert(rb.take(0) =~= Seq::<CanonicalBlockView>::empty());
            assert(bv.blocks.take(0) =~= Seq::<CanonicalBlockView>::empty());
        }
        let mut i: usize = 0;
        while i < blocks.len()
            invariant
                w.wf(),
                i <= blocks@.len(),
                blocks_view(blocks@) == bv.blocks,
                rb == resolve_blocks(bv.blocks, retained),
                retained == bundle.spec_retention().written(),
                bv == bundle.bundle(),
                first == first_match(bv.blocks, is_retained()),
                first is Some ==> is_first_match(bv.blocks, is_retained(), first->0),
                first is None ==> forall|j: int| 0 <= j < i ==> (#[trigger] bv.blocks[j]).data !is Retained,
                w.deferred() == (self.chain().filters().len() > 0 || self.chain().mutators().len() > 0),
                w.filters() == self.chain().filters(),
                w.mutators() == self.chain().mutators(),
                w.in_blocks(),
                !w.deferred() ==> w.written() == w0 + seq![INDEFINITE_ARRAY] + spec_encode_primary(bv.primary)
                    + spec_encode_blocks(rb.take(i as int)),
                w.deferred() && (first is None || i <= first->0) ==> {
                    &&& w.held_primary() == Some(bv.primary)
                    &&& w.held_extensions() == bv.blocks.take(i as int)
                    &&& w.written() == w0
                },
                w.deferred() && first is Some && i > first->0 ==> {
                    let k = first->0;
                    let meta = BundleMetadataView {
                        primary: bv.primary,
                        extensions: bv.blocks.take(k),
                        payload_len: bv.blocks[k].data->len,
                    };
                    let (p, e, _) = spec_run_mutators(self.chain().mutators(), bv.primary, bv.blocks.take(k));
                    &&& w.held_primary() is None
                    &&& spec_run_filters(self.chain().filters(), meta) is Ok
                    &&& w.written() == w0 + seq![INDEFINITE_ARRAY] + spec_encode_primary(p) + spec_encode_blocks(e)
                        + spec_encode_block(resolve_block(bv.blocks[k], retained))
                    &&& forall|j: int| k < j < i ==> (#[trigger] bv.blocks[j]).data !is Retained
                },
            decreases blocks@.len() - i,
        {
            let block = &blocks[i];
            proof {
                assert(bv.blocks[i as int] == block@);
                assert(rb[i as int] == resolve_block(block@, retained));
                assert(rb.take(i + 1).drop_last() =~= rb.take(i as int));
                assert(rb.take(i + 1).last() == rb[i as int]);
                assert(bv.blocks.take(i as int).push(block@) =~= bv.blocks.take(i + 1));
                if first is Some && i < first->0 {
                    assert(!is_retained()(bv.blocks[i as int]));
                }
            }
            match &block.data {
                BlockData::Inline(_) => {
                    w.write_extension(block)?;
                },
                BlockData::Retained { .. } => {
                    proof {
                        if first is None {
                            assert(is_first_match(bv.blocks, is_retained(), i as int));
                            lemma_first_match(bv.blocks, is_retained(), i as int);
                        }
                    }
                    write_retained(&mut w, bundle.retention(), block)?;
                },
            }
            i = i + 1;
        }
        let out = w.finish()?;
        proof {
            assert(rb.take(blocks@.len() as int) =~= rb);
        }
        Ok(out)
    }
}

impl Default for BundleWriter {
    fn default() -> (r: Self)
        ensures
            r.chain().filters().len() == 0,
            r.chain().mutators().len() == 0,
    {
        Self::new()
    }
}

/// An active writing session, created by [`BundleWriter::open`].
pub struct OpenBundleWriter<W> {
    enc: StreamEncoder<W>,
    state: State,
    payload_hasher: Option<CrcHasher>,
    payload_crc: Crc,
    payload_remaining: u64,
    chain: FilterChain,
    primary: Option<PrimaryBlock>,
    extensions: Vec<CanonicalBlock>,
    deferred: bool,
    payload_bytes: Ghost<Seq<u8>>,
}

impl OpenBundleWriter<OutputBuffer> {
    /// The bytes written and not yet taken out.
    pub closed spec fn unsent(&self) -> Seq<u8> {
        self.enc.spec_writer().held()
    }

    /// Take out the bytes written so far, to send them on; the session is
    /// otherwise unchanged.
    pub fn take_output(&mut self) -> (r: Vec<u8>)
        ensures
            r@ == old(self).unsent(),
            final(self).unsent() == Seq::<u8>::empty(),
            final(self).written() == old(self).written(),
            final(self).wf() == old(self).wf(),
            final(self).is_init() == old(self).is_init(),
            final(self).in_blocks() == old(self).in_blocks(),
            final(self).in_payload() == old(self).in_payload(),
            final(self).deferred() == old(self).deferred(),
            final(self).filters() == old(self).filters(),
            final(self).mutators() == old(self).mutators(),
            final(self).held_primary() == old(self).held_primary(),
            final(self).held_extensions() == old(self).held_extensions(),
            final(self).remaining() == old(self).remaining(),
            final(self).payload_crc() == old(self).payload_crc(),
            final(self).hashing() == old(self).hashing(),
            final(self).payload_bytes() == old(self).payload_bytes(),
    {
        self.enc.inner().take()
    }
}

impl<W: Write> OpenBundleWriter<W> {
    /// The bytes the destination has accepted.
    pub closed spec fn written(&self) -> Seq<u8> {
        self.enc.written()
    }

    /// Nothing written yet: the primary block comes next.
    pub closed spec fn is_init(&self) -> bool {
        self.state == State::Init
    }

    /// Between blocks: an extension block or the payload block comes next.
    pub closed spec fn in_blocks(&self) -> bool {
        self.state == State::Blocks
    }

    /// Inside the payload block's data.
    pub closed spec fn in_payload(&self) -> bool {
        self.state == State::Payload
    }

    /// Whether blocks are held back until the payload begins, for the filters.
    pub closed spec fn deferred(&self) -> bool {
        self.deferred
    }

    pub closed spec fn filters(&self) -> Seq<std::sync::Arc<Box<dyn BundleFilter>>> {
        self.chain.filters()
    }

    pub closed spec fn mutators(&self) -> Seq<std::sync::Arc<Box<dyn BundleMutator>>> {
        self.chain.mutators()
    }

    /// The primary block held back (deferred mode).
    pub closed spec fn held_primary(&self) -> Option<PrimaryBlockView> {
        match self.primary {
            Some(p) => Some(p@),
            None => None,
        }
    }

    /// The extension blocks held back (deferred mode).
    pub closed spec fn held_extensions(&self) -> Seq<CanonicalBlockView> {
        blocks_view(self.extensions@)
    }

    /// Payload bytes still announced but not written.
    pub closed spec fn remaining(&self) -> u64 {
        self.payload_remaining
    }

    /// The payload block's CRC kind.
    pub closed spec fn payload_crc(&self) -> Crc {
        self.payload_crc
    }

    /// Whether the payload's CRC is being computed, to be written at its end.
    pub closed spec fn hashing(&self) -> bool {
        self.payload_hasher is Some
    }

    /// The payload block's bytes written so far: its header and data.
    pub closed spec fn payload_bytes(&self) -> Seq<u8> {
        self.payload_bytes@
    }

    /// The session's internal consistency.
    pub closed spec fn wf(&self) -> bool {
        &&& self.deferred == (self.chain.filters().len() > 0 || self.chain.mutators().len() > 0)
        &&& (self.state == State::Payload ==> match self.payload_hasher {
            Some(h) => {
                &&& h.has_hashed(self.payload_bytes@)
                &&& h.spec_crc_type() == self.payload_crc.spec_crc_type()
                &&& self.payload_crc != Crc::NoCrc
            },
            None => true,
        })
    }

    fn new(writer: W, chain: FilterChain) -> (r: Self)
        ensures
            r.wf(),
            r.is_init(),
            r.written() == writer.written(),
            r.deferred() == (chain.filters().len() > 0 || chain.mutators().len() > 0),
            r.filters() == chain.filters(),
            r.mutators() == chain.mutators(),
            r.held_primary() is None,
            r.held_extensions() == Seq::<CanonicalBlockView>::empty(),
    {
        let deferred = !chain.is_empty();
        let r = Self {
            enc: StreamEncoder::new(writer),
            state: State::Init,
            payload_hasher: None,
            payload_crc: Crc::NoCrc,
            payload_remaining: 0,
            chain,
            primary: None,
            extensions: Vec::new(),
            deferred,
            payload_bytes: Ghost(Seq::empty()),
        };
        proof {
            assert(r.held_extensions() =~= Seq::<CanonicalBlockView>::empty());
        }
        r
    }

    /// Start the bundle with its primary block.
    pub fn write_primary(&mut self, primary: &PrimaryBlock) -> (r: Result<(), Error>)
        requires
            old(self).wf(),
        ensures
            final(self).wf(),
            final(self).deferred() == old(self).deferred(),
            final(self).filters() == old(self).filters(),
            final(self).mutators() == old(self).mutators(),
            final(self).held_extensions() == old(self).held_extensions(),
            !old(self).is_init() ==> r == Err::<(), Error>(Error::IncompleteRead) && final(self).written()
                == old(self).written() && final(self).in_blocks() == old(self).in_blocks()
                && final(self).in_payload() == old(self).in_payload(),
            old(self).is_init() && old(self).deferred() ==> {
                &&& r is Ok
                &&& final(self).in_blocks()
                &&& final(self).held_primary() == Some(primary@)
                &&& final(self).written() == old(self).written()
            },
            old(self).is_init() && !old(self).deferred() ==> match r {
                Ok(()) => {
                    &&& final(self).in_blocks()
                    &&& final(self).held_primary() == old(self).held_primary()
                    &&& final(self).written() == old(self).written() + seq![INDEFINITE_ARRAY]
                        + spec_encode_primary(primary@)
                },
                Err(e) => io_failure(e) && final(self).is_init(),
            },
    {
        if self.state != State::Init {
            return Err(Error::IncompleteRead);
        }
        if self.deferred {
            self.primary = Some(primary.duplicate());
        } else {
            cbor_result(self.enc.write_indefinite_array())?;
            let mut buf = Encoder::with_capacity(128);
            primary.encode(&mut buf);
            cbor_result(self.enc.write_raw(buf.as_bytes()))?;
            proof {
                assert(self.written() =~= old(self).written() + seq![INDEFINITE_ARRAY]
                    + spec_encode_primary(primary@));
            }
        }
        self.state = State::Blocks;
        Ok(())
    }

    /// Add an extension block.
    pub fn write_extension(&mut self, block: &CanonicalBlock) -> (r: Result<(), Error>)
        requires
            old(self).wf(),
        ensures
            final(self).wf(),
            final(self).deferred() == old(self).deferred(),
            final(self).filters() == old(self).filters(),
            final(self).mutators() == old(self).mutators(),
            final(self).held_primary() == old(self).held_primary(),
            final(self).is_init() == old(self).is_init(),
            final(self).in_blocks() == old(self).in_blocks(),
            final(self).in_payload() == old(self).in_payload(),
            !old(self).in_blocks() ==> r == Err::<(), Error>(Error::IncompleteRead) && final(self).written()
                == old(self).written() && final(self).held_extensions() == old(self).held_extensions(),
            old(self).in_blocks() && old(self).deferred() ==> {
                &&& r is Ok
                &&& final(self).held_extensions() == old(self).held_extensions().push(block@)
                &&& final(self).written() == old(self).written()
            },
            old(self).in_blocks() && !old(self).deferred() ==> {
                &&& final(self).held_extensions() == old(self).held_extensions()
                &&& match r {
                    Ok(()) => final(self).written() == old(self).written() + spec_encode_block(block@),
                    Err(e) => io_failure(e),
                }
            },
    {
        if self.state != State::Blocks {
            return Err(Error::IncompleteRead);
        }
        if self.deferred {
            self.extensions.push(block.duplicate());
            proof {
                assert(self.held_extensions() =~= old(self).held_extensions().push(block@));
            }
        } else {
            let mut buf = Encoder::with_capacity(64);
            block.encode(&mut buf);
            cbor_result(self.enc.write_raw(buf.as_bytes()))?;
            proof {
                assert(buf@ =~= spec_encode_block(block@));
            }
        }
        Ok(())
    }

    /// Deferred mode, at the start of the payload: let the filters decide on
    /// the held blocks, run the mutators, and write the bundle's start and
    /// the (mutated) held blocks.
    #[verifier::rlimit(40)]
    fn write_held(&mut self, data_len: u64) -> (r: Result<(), Error>)
        requires
            old(self).wf(),
            old(self).in_blocks(),
            old(self).deferred(),
        ensures
            final(self).wf(),
            final(self).in_blocks(),
            final(self).deferred() == old(self).deferred(),
            final(self).filters() == old(self).filters(),
            final(self).mutators() == old(self).mutators(),
            final(self).held_primary() is None,
            old(self).held_primary() is None ==> r == Err::<(), Error>(Error::IncompleteRead)
                && final(self).written() == old(self).written(),
            old(self).held_primary() is Some ==> {
                let meta = BundleMetadataView {
                    primary: old(self).held_primary()->0,
                    extensions: old(self).held_extensions(),
                    payload_len: data_len,
                };
                let (p, e, _) = spec_run_mutators(
                    old(self).mutators(),
                    old(self).held_primary()->0,
                    old(self).held_extensions(),
                );
                match spec_run_filters(old(self).filters(), meta) {
                    Err(rej) => {
                        &&& r matches Err(Error::FilterRejected(x)) && x@ == rej
                        &&& final(self).written() == old(self).written()
                    },
                    Ok(()) => match r {
                        Ok(()) => final(self).written() == old(self).written() + seq![INDEFINITE_ARRAY]
                            + spec_encode_primary(p) + spec_encode_blocks(e),
                        Err(e) => io_failure(e),
                    },
                }
            },
    {
        let ghost w0 = self.written();
            let mut primary = match self.primary.take() {
                Some(p) => p,
                None => {
                    return Err(Error::IncompleteRead);
                },
            };
            let mut extensions: Vec<CanonicalBlock> = Vec::new();
            core::mem::swap(&mut extensions, &mut self.extensions);
            let meta = BundleMetadata {
                primary: &primary,
                extensions: extensions.as_slice(),
                payload_len: data_len,
            };
            match self.chain.run_filters(&meta) {
                Ok(()) => {},
                Err(rej) => {
                    return Err(Error::FilterRejected(rej));
                },
            }
            self.chain.run_mutators(&mut primary, &mut extensions);
            cbor_result(self.enc.write_indefinite_array())?;
            let mut buf = Encoder::with_capacity(128);
            primary.encode(&mut buf);
            cbor_result(self.enc.write_raw(buf.as_bytes()))?;
            let ghost ev = blocks_view(extensions@);
            let ghost w1 = self.written();
            proof {
                assert(w1 =~= w0 + seq![INDEFINITE_ARRAY] + spec_encode_primary(primary@));
                assert(ev.take(0) =~= Seq::<CanonicalBlockView>::empty());
                assert(w1 + spec_encode_blocks(ev.take(0)) =~= w1);
            }
            let mut i: usize = 0;
            while i < extensions.len()
                invariant
                    i <= extensions@.len(),
                    ev == blocks_view(extensions@),
                    self.state == State::Blocks,
                    self.wf(),
                    self.written() == w1 + spec_encode_blocks(ev.take(i as int)),
                    self.deferred == old(self).deferred,
                    self.chain == old(self).chain,
                    self.primary is None,
                    old(self).state == State::Blocks,
                    old(self).deferred,
                    old(self).primary is Some,
                    spec_run_filters(
                        old(self).chain.filters(),
                        BundleMetadataView {
                            primary: old(self).held_primary()->0,
                            extensions: old(self).held_extensions(),
                            payload_len: data_len,
                        },
                    ) is Ok,
                decreases extensions@.len() - i,
            {
                let mut b = Encoder::with_capacity(64);
                extensions[i].encode(&mut b);
                cbor_result(self.enc.write_raw(b.as_bytes()))?;
                proof {
                    assert(ev.take(i + 1).drop_last() =~= ev.take(i as int));
                    assert(ev.take(i + 1).last() == extensions@[i as int]@);
                    assert(self.written() =~= w1 + spec_encode_blocks(ev.take(i + 1)));
                }
                i = i + 1;
            }
            proof {
                assert(ev.take(extensions@.len() as int) =~= ev);
            }
        Ok(())
    }

    /// Begin the payload block, announcing `data_len` bytes of data.
    ///
    /// In deferred mode the filters decide first, on the held blocks and
    /// the announced length; a rejection writes nothing. Accepted blocks go
    /// through the mutators and are written before the payload header.
    #[verifier::rlimit(40)]
    pub fn begin_payload(&mut self, flags: BlockFlags, crc: Crc, data_len: u64) -> (r: Result<(), Error>)
        requires
            old(self).wf(),
        ensures
            final(self).wf(),
            final(self).deferred() == old(self).deferred(),
            final(self).filters() == old(self).filters(),
            final(self).mutators() == old(self).mutators(),
            !old(self).in_blocks() ==> r == Err::<(), Error>(Error::IncompleteRead) && final(self).written()
                == old(self).written() && final(self).is_init() == old(self).is_init()
                && final(self).in_payload() == old(self).in_payload(),
            old(self).in_blocks() && old(self).deferred() && old(self).held_primary() is None ==> r
                == Err::<(), Error>(Error::IncompleteRead) && final(self).written() == old(self).written()
                && final(self).in_blocks(),
            old(self).in_blocks() && old(self).deferred() && old(self).held_primary() is Some ==> {
                let meta = BundleMetadataView {
                    primary: old(self).held_primary()->0,
                    extensions: old(self).held_extensions(),
                    payload_len: data_len,
                };
                let (p, e, _) = spec_run_mutators(
                    old(self).mutators(),
                    old(self).held_primary()->0,
                    old(self).held_extensions(),
                );
                match spec_run_filters(old(self).filters(), meta) {
                    Err(rej) => {
                        &&& r matches Err(Error::FilterRejected(x)) && x@ == rej
                        &&& final(self).written() == old(self).written()
                        &&& final(self).in_blocks()
                    },
                    Ok(()) => match r {
                        Ok(()) => {
                            &&& final(self).held_primary() is None
                            &&& final(self).in_payload()
                            &&& final(self).remaining() == data_len
                            &&& final(self).payload_crc() == crc
                            &&& final(self).hashing() == (crc != Crc::NoCrc)
                            &&& final(self).payload_bytes() == spec_payload_header(flags, crc, data_len)
                            &&& final(self).written() == old(self).written() + seq![INDEFINITE_ARRAY]
                                + spec_encode_primary(p) + spec_encode_blocks(e)
                                + spec_payload_header(flags, crc, data_len)
                        },
                        Err(e) => io_failure(e),
                    },
                }
            },
            old(self).in_blocks() && !old(self).deferred() ==> match r {
                Ok(()) => {
                    &&& final(self).in_payload()
                    &&& final(self).remaining() == data_len
                    &&& final(self).payload_crc() == crc
                    &&& final(self).hashing() == (crc != Crc::NoCrc)
                    &&& final(self).payload_bytes() == spec_payload_header(flags, crc, data_len)
                    &&& final(self).written() == old(self).written() + spec_payload_header(
                        flags,
                        crc,
                        data_len,
                    )
                },
                Err(e) => io_failure(e),
            },
    {
        if self.state != State::Blocks {
            return Err(Error::IncompleteRead);
        }
        if self.deferred {
            self.write_held(data_len)?;
        }
        let ghost w2 = self.written();
        let has_crc = !crc.is_none();
        let mut header = Encoder::with_capacity(16);
        header.write_array(
            if has_crc {
                6
            } else {
                5
            },
        );
        header.write_uint(PAYLOAD_BLOCK_TYPE);
        header.write_uint(PAYLOAD_BLOCK_NUMBER);
        header.write_uint(flags.bits());
        header.write_uint(crc.crc_type());
        header.write_bstr_header(data_len);
        proof {
            assert(header@ =~= spec_payload_header(flags, crc, data_len));
        }
        cbor_result(self.enc.write_raw(header.as_bytes()))?;
        self.payload_hasher = match CrcHasher::new(&crc) {
            Some(h) => {
                let mut h = h;
                h.update(header.as_bytes());
                proof {
                    assert(Seq::<u8>::empty() + header@ =~= header@);
                }
                Some(h)
            },
            None => None,
        };
        self.payload_crc = crc;
        self.payload_remaining = data_len;
        self.state = State::Payload;
        self.payload_bytes = Ghost(header@);
        proof {
            assert(self.written() =~= w2 + spec_payload_header(flags, crc, data_len));
        }
        Ok(())
    }

    /// Write payload data; no more than announced.
    pub fn write_payload_data(&mut self, data: &[u8]) -> (r: Result<(), Error>)
        requires
            old(self).wf(),
        ensures
            final(self).wf(),
            final(self).deferred() == old(self).deferred(),
            final(self).filters() == old(self).filters(),
            final(self).mutators() == old(self).mutators(),
            final(self).is_init() == old(self).is_init(),
            final(self).in_blocks() == old(self).in_blocks(),
            final(self).in_payload() == old(self).in_payload(),
            final(self).payload_crc() == old(self).payload_crc(),
            final(self).hashing() == old(self).hashing(),
            final(self).held_primary() == old(self).held_primary(),
            final(self).held_extensions() == old(self).held_extensions(),
            !old(self).in_payload() ==> r == Err::<(), Error>(Error::PayloadNotConsumed)
                && final(self).written() == old(self).written(),
            old(self).in_payload() && data@.len() > old(self).remaining() ==> r == Err::<(), Error>(
                Error::PayloadOverflow,
            ) && final(self).written() == old(self).written() && final(self).remaining()
                == old(self).remaining(),
            old(self).in_payload() && data@.len() <= old(self).remaining() ==> match r {
                Ok(()) => {
                    &&& final(self).written() == old(self).written() + data@
                    &&& final(self).remaining() == old(self).remaining() - data@.len()
                    &&& final(self).payload_bytes() == old(self).payload_bytes() + data@
                },
                Err(e) => io_failure(e) && final(self).payload_bytes() == old(self).payload_bytes(),
            },
    {
        if self.state != State::Payload {
            return Err(Error::PayloadNotConsumed);
        }
        let len = data.len() as u64;
        if len > self.payload_remaining {
            return Err(Error::PayloadOverflow);
        }
        cbor_result(self.enc.write_raw(data))?;
        match self.payload_hasher.take() {
            Some(h) => {
                let mut h = h;
                h.update(data);
                self.payload_hasher = Some(h);
            },
            None => {},
        }
        self.payload_remaining = self.payload_remaining - len;
        self.payload_bytes = Ghost(self.payload_bytes@ + data@);
        Ok(())
    }

    /// End the payload block: write its CRC, if it has one.
    pub fn end_payload(&mut self) -> (r: Result<(), Error>)
        requires
            old(self).wf(),
        ensures
            final(self).wf(),
            final(self).held_primary() == old(self).held_primary(),
            final(self).held_extensions() == old(self).held_extensions(),
            final(self).deferred() == old(self).deferred(),
            final(self).filters() == old(self).filters(),
            final(self).mutators() == old(self).mutators(),
            !old(self).in_payload() ==> r == Err::<(), Error>(Error::PayloadNotConsumed)
                && final(self).written() == old(self).written() && final(self).is_init()
                == old(self).is_init() && final(self).in_blocks() == old(self).in_blocks(),
            old(self).in_payload() ==> match r {
                Ok(()) => {
                    &&& final(self).in_blocks()
                    &&& final(self).written() == old(self).written() + if old(self).hashing() {
                        old(self).payload_crc().spec_crc_field(old(self).payload_bytes())
                    } else {
                        Seq::<u8>::empty()
                    }
                },
                Err(e) => io_failure(e),
            },
    {
        if self.state != State::Payload {
            return Err(Error::PayloadNotConsumed);
        }
        if let Some(hasher) = self.payload_hasher.take() {
            let mut hasher = hasher;
            let crc_size = self.payload_crc.value_size();
            let zeros = [0u8; 4];
            let mut field = Encoder::with_capacity(5);
            field.write_bstr(&zeros[0..crc_size]);
            proof {
                assert(zeros@.subrange(0, crc_size as int) =~= Seq::new(
                    self.payload_crc.spec_value_size(),
                    |i: int| 0u8,
                ));
            }
            let ghost block = self.payload_bytes@;
            proof {
                assert(field@ =~= encode_head(MAJOR_BSTR, crc_size as u64) + Seq::new(
                    self.payload_crc.spec_value_size(),
                    |i: int| 0u8,
                ));
            }
            hasher.update(field.as_bytes());
            let ghost data = block + field@;
            proof {
                assert(hasher.has_hashed(data));
                assert(data =~= block + encode_head(MAJOR_BSTR, self.payload_crc.spec_value_size() as u64)
                    + Seq::new(self.payload_crc.spec_value_size(), |i: int| 0u8));
            }
            let computed = hasher.finalize();
            proof {
                assert(computed == self.payload_crc.spec_computed(data));
                assert(computed == self.payload_crc.spec_finalized(block));
            }
            let mut crc_buf = [0u8; 4];
            let n = computed.write_value(&mut crc_buf);
            cbor_result(self.enc.write_bstr(&crc_buf[0..n]))?;
            proof {
                assert(crc_buf@.subrange(0, n as int) =~= computed.spec_value_bytes());
            }
        } else {
            proof {
                assert(self.written() =~= old(self).written() + Seq::<u8>::empty());
            }
        }
        self.state = State::Blocks;
        Ok(())
    }

    /// Close the bundle: write the break that ends it and flush.
    pub fn finish(self) -> (r: Result<W, Error>)
        requires
            self.wf(),
        ensures
            self.in_payload() ==> r == Err::<W, Error>(Error::PayloadNotConsumed),
            !self.in_payload() ==> match r {
                Ok(w) => w.written() == self.written() + if self.is_init() {
                    Seq::<u8>::empty()
                } else {
                    seq![BREAK]
                },
                Err(e) => io_failure(e),
            },
    {
        if self.state == State::Payload {
            return Err(Error::PayloadNotConsumed);
        }
        let mut enc = self.enc;
        if self.state != State::Init {
            cbor_result(enc.write_break())?;
        } else {
            proof {
                assert(enc.written() =~= self.written() + Seq::<u8>::empty());
            }
        }
        cbor_result(enc.flush())?;
        Ok(enc.into_inner())
    }
}

} // verus!
