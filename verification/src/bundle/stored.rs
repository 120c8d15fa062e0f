//! A bundle whose payload lives in a retention store.

use vstd::prelude::*;

use crate::io::{Error as IoError, Read, Write};

use crate::bpv7::bundle::canonical::{
    blocks_view, first_match, of_type, BlockDataView, CanonicalBlock, CanonicalBlockView,
    PAYLOAD_BLOCK_NUMBER, PAYLOAD_BLOCK_TYPE,
};
use crate::bpv7::bundle::primary::PrimaryBlock;
use crate::bpv7::bundle::{Bundle as Bpv7Bundle, BundleView};

use crate::bpv7::bundle::{all_inline, spec_bundle_bytes, spec_encode_bundle};
use crate::bpv7::error::Error;

use super::io::writer::BundleWriter;
use super::retention::Retention;

verus! {

/// A BPv7 bundle backed by a retention storage.
///
/// Wraps the in-memory [`Bpv7Bundle`] with a retention backend for payload
/// access. All metadata methods are available via `Deref`.
#[derive(Debug)]
pub struct Bundle<S> {
    inner: Bpv7Bundle,
    retention: S,
}

/// A block as it is written out: retained data is read from the retained
/// bytes, and the payload block goes out with its canonical type and number.
pub open spec fn resolve_block(b: CanonicalBlockView, retained: Seq<u8>) -> CanonicalBlockView {
    match b.data {
        BlockDataView::Inline(_) => b,
        BlockDataView::Retained { offset, len } => CanonicalBlockView {
            block_type: PAYLOAD_BLOCK_TYPE,
            block_number: PAYLOAD_BLOCK_NUMBER,
            flags: b.flags,
            crc: b.crc,
            data: BlockDataView::Inline(retained.subrange(offset as int, offset + len)),
        },
    }
}

/// The blocks as they are written out, given the retained bytes.
pub open spec fn resolve_blocks(s: Seq<CanonicalBlockView>, retained: Seq<u8>) -> Seq<CanonicalBlockView> {
    s.map_values(|b: CanonicalBlockView| resolve_block(b, retained))
}

/// Where the payload data lies in the retention: the range of the first
/// payload block, when that block's data is retained.
pub open spec fn spec_payload_range(b: BundleView) -> Option<(u64, u64)> {
    match first_match(b.blocks, of_type(PAYLOAD_BLOCK_TYPE)) {
        Some(i) => match b.blocks[i].data {
            BlockDataView::Retained { offset, len } => Some((offset, len)),
            BlockDataView::Inline(_) => None,
        },
        None => None,
    }
}

impl<S> Bundle<S> {
    /// The bundle's blocks.
    pub closed spec fn bundle(&self) -> BundleView {
        self.inner@
    }

    /// The retention backend holding the payload.
    pub closed spec fn spec_retention(&self) -> S {
        self.retention
    }

    pub fn from_parts(primary: PrimaryBlock, blocks: Vec<CanonicalBlock>, retention: S) -> (r: Self)
        ensures
            r.bundle() == (BundleView { primary: primary@, blocks: blocks_view(blocks@) }),
            r.spec_retention() == retention,
    {
        Bundle { inner: Bpv7Bundle::from_parts(primary, blocks), retention }
    }

    pub fn retention(&self) -> (r: &S)
        ensures
            *r == self.spec_retention(),
    {
        &self.retention
    }

    /// The same bundle, backed by another retention.
    pub fn with_retention<T>(self, retention: T) -> (r: Bundle<T>)
        ensures
            r.bundle() == self.bundle(),
            r.spec_retention() == retention,
    {
        Bundle { inner: self.inner, retention }
    }

    /// Mutable access to the bundle's blocks.
    pub fn blocks_mut_bundle(&mut self) -> (r: &mut Bpv7Bundle)
        ensures
            r@ == old(self).bundle(),
            final(self).bundle() == final(r)@,
            final(self).spec_retention() == old(self).spec_retention(),
    {
        &mut self.inner
    }
}

impl<S> core::ops::Deref for Bundle<S> {
    type Target = Bpv7Bundle;

    fn deref(&self) -> (r: &Bpv7Bundle)
        ensures
            r@ == self.bundle(),
    {
        &self.inner
    }
}

impl<S: Retention> Bundle<S> {
    /// Stream the payload to a destination.
    ///
    /// Reads from retention in 64KB chunks and writes to `dest`.
    /// Returns the number of bytes written.
    pub fn payload<D: Write>(&self, dest: &mut D) -> (r: Result<u64, IoError>)
        ensures
            spec_payload_range(self.bundle()) is None ==> r == Err::<u64, IoError>(IoError::UnexpectedEof)
                && (*final(dest)).written() == (*old(dest)).written(),
            r matches Ok(n) ==> spec_payload_range(self.bundle()) matches Some((offset, len)) && n
                == len && (*final(dest)).written() == (*old(dest)).written()
                + self.spec_retention().written().subrange(offset as int, offset + len),
    {
        let (offset, len) = match self.inner.payload_block() {
            Some(b) => match b.retained_range() {
                Some(range) => range,
                None => {
                    return Err(IoError::UnexpectedEof);
                },
            },
            None => {
                return Err(IoError::UnexpectedEof);
            },
        };
        proof {
            assert(spec_payload_range(self.bundle()) == Some((offset, len)));
        }
        let mut reader = self.retention.reader(offset, len)?;
        let ghost p0 = reader.pending();
        let ghost d0 = dest.written();
        let mut buf: Vec<u8> = vec![0u8; 65536];
        let mut written: u64 = 0;
        proof {
            assert(p0.take(0) =~= Seq::<u8>::empty());
            assert(p0.skip(0) =~= p0);
        }
        loop
            invariant
                spec_payload_range(self.bundle()) == Some((offset, len)),
                p0 == self.retention.written().subrange(offset as int, offset + len),
                p0.len() == len,
                written <= len,
                reader.pending() == p0.skip(written as int),
                dest.written() == d0 + p0.take(written as int),
                buf@.len() == 65536,
                offset + len <= self.retention.written().len(),
            ensures
                written == len,
                dest.written() == d0 + p0,
            decreases reader.pending().len(),
        {
            let n = match reader.read(buf.as_mut_slice()) {
                Ok(n) => n,
                Err(e) => {
                    return Err(e);
                },
            };
            if n == 0 {
                proof {
                    assert(p0.take(written as int) =~= p0);
                }
                break;
            }
            match dest.write_all(&buf.as_slice()[0..n]) {
                Ok(()) => {},
                Err(e) => {
                    return Err(e);
                },
            }
            proof {
                assert(p0.take(written + n) =~= p0.take(written as int) + p0.skip(
                    written as int,
                ).take(n as int));
                assert(p0.skip(written as int).skip(n as int) =~= p0.skip(written + n));
            }
            written = written + n as u64;
        }
        Ok(written)
    }

    /// Write the bundle to `writer` (payload from the retention); returns
    /// the writer.
    pub fn encode_to<W: Write>(&self, writer: W) -> (r: Result<W, Error>)
        ensures
            r matches Ok(w) ==> w.written() == writer.written() + spec_encode_bundle(
                BundleView {
                    primary: self.bundle().primary,
                    blocks: resolve_blocks(self.bundle().blocks, self.spec_retention().written()),
                },
            ),
    {
        BundleWriter::new().write_to(self, writer)
    }
}

/// Blocks held in memory are written out as they are: for a bundle with
/// no retained data, streaming it out writes exactly the bytes of the
/// in-memory encoding, whatever the retention holds.
pub proof fn lemma_streamed_matches_in_memory(b: BundleView, retained: Seq<u8>)
    requires
        spec_bundle_bytes(b) is Ok,
    ensures
        resolve_blocks(b.blocks, retained) == b.blocks,
        spec_bundle_bytes(b) == Ok::<Seq<u8>, Error>(
            spec_encode_bundle(BundleView { primary: b.primary, blocks: resolve_blocks(b.blocks, retained) }),
        ),
{
    assert(all_inline(b.blocks));
    assert(resolve_blocks(b.blocks, retained) =~= b.blocks);
}

} // verus!
