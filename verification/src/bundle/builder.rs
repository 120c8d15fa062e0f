//! Building a new bundle around a payload.

use vstd::prelude::*;

use crate::cbor::stream::from_io;
use crate::io::Write;

use crate::bpv7::bundle::canonical::{
    blocks_view, BlockData, BlockDataView, BlockFlags, CanonicalBlock, CanonicalBlockView,
    PAYLOAD_BLOCK_NUMBER, PAYLOAD_BLOCK_TYPE,
};
use crate::bpv7::bundle::primary::{
    spec_validate_primary, BundleFlags, CreationTimestamp, PrimaryBlock, PrimaryBlockView, REPORT_MASK,
};
use crate::bpv7::bundle::{spec_validate_bundle, Bundle as Bpv7Bundle, BundleView};
use crate::bpv7::crc::Crc;
use crate::bpv7::eid::{Eid, EidView};
use crate::bpv7::error::Error;
use crate::bpv7::extension::Extension;

use super::io::writer::io_failure;
use super::retention::Retention;
use super::stored::Bundle;

verus! {

/// The primary block of a new bundle: version 7, not to be fragmented,
/// protected by a CRC-32C, no report-to endpoint, created at time 0.
pub open spec fn spec_new_primary(dest: EidView, src: EidView, lifetime: u64) -> PrimaryBlockView {
    PrimaryBlockView {
        version: 7,
        flags: BundleFlags::spec_from_bits(0x000004),
        crc: Crc::Crc32c(0),
        dest_eid: dest,
        src_node_id: src,
        rpt_eid: EidView::Null,
        creation_ts: CreationTimestamp { time: 0, seq: 0 },
        lifetime,
        fragment: None,
    }
}

/// A new bundle is addressed as asked and lives as long as asked: its
/// primary block carries the destination, the source and the lifetime it
/// was built with, and it passes the primary block's consistency check.
pub proof fn lemma_new_primary_as_asked(dest: EidView, src: EidView, lifetime: u64)
    ensures
        spec_new_primary(dest, src, lifetime).dest_eid == dest,
        spec_new_primary(dest, src, lifetime).src_node_id == src,
        spec_new_primary(dest, src, lifetime).lifetime == lifetime,
        spec_validate_primary(spec_new_primary(dest, src, lifetime)) == Ok::<(), Error>(()),
{
    let f = BundleFlags::spec_from_bits(0x000004);
    BundleFlags::lemma_bits(0x000004, f);
    assert(0x000004u64 & 0x000001u64 == 0 && 0x000004u64 & 0x000002u64 == 0
        && 0x000004u64 & 0x000004u64 != 0 && 0x000004u64 & REPORT_MASK == 0) by (bit_vector);
}

/// The payload block of a built bundle: its data is the first `len`
/// retained bytes.
pub open spec fn spec_built_payload_block(len: u64) -> CanonicalBlockView {
    CanonicalBlockView {
        block_type: PAYLOAD_BLOCK_TYPE,
        block_number: PAYLOAD_BLOCK_NUMBER,
        flags: BlockFlags::spec_from_bits(0),
        crc: Crc::NoCrc,
        data: BlockDataView::Retained { offset: 0, len },
    }
}

/// Builder of a new bundle: a payload stored in a retention, extension
/// blocks numbered from 2 in the order they are added.
pub struct BundleBuilder<S> {
    primary: PrimaryBlock,
    extensions: Vec<CanonicalBlock>,
    payload_len: u64,
    next_number: u64,
    retention: S,
}

impl<S: Retention> BundleBuilder<S> {
    pub closed spec fn spec_primary(&self) -> PrimaryBlockView {
        self.primary@
    }

    pub closed spec fn spec_extensions(&self) -> Seq<CanonicalBlockView> {
        blocks_view(self.extensions@)
    }

    pub closed spec fn spec_payload_len(&self) -> u64 {
        self.payload_len
    }

    /// The number the next extension block gets.
    pub closed spec fn spec_next_number(&self) -> u64 {
        self.next_number
    }

    pub closed spec fn spec_retention(&self) -> S {
        self.retention
    }

    /// Start a bundle to `dest` from `src` that lives `lifetime`
    /// microseconds, storing `payload` in `retention`.
    pub fn new(dest: Eid, src: Eid, lifetime: u64, payload: &[u8], retention: S) -> (r: Result<Self, Error>)
        ensures
            match r {
                Ok(b) => {
                    &&& b.spec_primary() == spec_new_primary(dest@, src@, lifetime)
                    &&& b.spec_extensions() == Seq::<CanonicalBlockView>::empty()
                    &&& b.spec_payload_len() == payload@.len()
                    &&& b.spec_next_number() == 2
                    &&& b.spec_retention().written() == retention.written() + payload@
                },
                Err(e) => io_failure(e),
            },
    {
        let mut retention = retention;
        match retention.write_all(payload) {
            Ok(()) => {},
            Err(e) => {
                return Err(Error::Cbor(from_io(e)));
            },
        }
        let primary = PrimaryBlock {
            version: 7,
            flags: BundleFlags::from_bits(0x000004),
            crc: Crc::crc32c(),
            dest_eid: dest,
            src_node_id: src,
            rpt_eid: Eid::Null,
            creation_ts: CreationTimestamp { time: 0, seq: 0 },
            lifetime,
            fragment: None,
        };
        let b = BundleBuilder {
            primary,
            extensions: Vec::new(),
            payload_len: payload.len() as u64,
            next_number: 2,
            retention,
        };
        proof {
            assert(b.spec_extensions() =~= Seq::<CanonicalBlockView>::empty());
        }
        Ok(b)
    }

    /// Add an extension block with the next block number.
    pub fn extension<E: Extension>(self, ext: E, flags: BlockFlags, crc: Crc) -> (r: Self)
        ensures
            r.spec_primary() == self.spec_primary(),
            r.spec_payload_len() == self.spec_payload_len(),
            r.spec_retention() == self.spec_retention(),
            r.spec_extensions() == self.spec_extensions().push(
                CanonicalBlockView {
                    block_type: E::BLOCK_TYPE,
                    block_number: self.spec_next_number(),
                    flags,
                    crc,
                    data: BlockDataView::Inline(E::spec_encode(ext@)),
                },
            ),
            r.spec_next_number() == if self.spec_next_number() < u64::MAX {
                self.spec_next_number() + 1
            } else {
                self.spec_next_number() as int
            },
    {
        let mut b = self;
        let block = CanonicalBlock::from_ext(b.next_number, flags, crc, &ext);
        b.extensions.push(block);
        if b.next_number < u64::MAX {
            b.next_number = b.next_number + 1;
        }
        proof {
            assert(b.spec_extensions() =~= self.spec_extensions().push(block@));
        }
        b
    }

    /// The bundle: the extension blocks followed by the payload block;
    /// it must pass the structural check.
    pub fn build(self) -> (r: Result<Bundle<S>, Error>)
        ensures
            ({
                let bv = BundleView {
                    primary: self.spec_primary(),
                    blocks: self.spec_extensions().push(spec_built_payload_block(self.spec_payload_len())),
                };
                match r {
                    Ok(b) => b.bundle() == bv && b.spec_retention() == self.spec_retention()
                        && spec_validate_bundle(bv) is Ok,
                    Err(e) => spec_validate_bundle(bv) == Err::<(), Error>(e),
                }
            }),
    {
        let mut blocks = self.extensions;
        let payload = CanonicalBlock {
            block_type: PAYLOAD_BLOCK_TYPE,
            block_number: PAYLOAD_BLOCK_NUMBER,
            flags: BlockFlags::from_bits(0),
            crc: Crc::NoCrc,
            data: BlockData::Retained { offset: 0, len: self.payload_len },
        };
        let ghost ev = blocks_view(blocks@);
        let ghost pv = payload@;
        blocks.push(payload);
        proof {
            assert(blocks_view(blocks@) =~= ev.push(pv));
        }
        let ghost bv = BundleView {
            primary: self.spec_primary(),
            blocks: self.spec_extensions().push(spec_built_payload_block(self.spec_payload_len())),
        };
        let bundle = Bundle::from_parts(self.primary, blocks, self.retention);
        proof {
            assert(bundle.bundle().blocks =~= bv.blocks);
        }
        let inner: &Bpv7Bundle = core::ops::Deref::deref(&bundle);
        match inner.validate() {
            Ok(()) => Ok(bundle),
            Err(e) => Err(e),
        }
    }
}

} // verus!
