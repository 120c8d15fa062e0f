//! Built-in filters and mutators.

use vstd::prelude::*;

use crate::bpv7::bundle::canonical::{
    blocks_view, find_type, first_match, is_first_match, lemma_first_match, of_type, BlockData, BlockDataView, BlockFlags,
    CanonicalBlock, CanonicalBlockView,
};
use crate::bpv7::bundle::primary::{PrimaryBlock, PrimaryBlockView};
use crate::bpv7::crc::Crc;
use crate::bpv7::eid::{spec_encode_eid, Eid};
use crate::bpv7::extension::hop_count::{lemma_hop_count_roundtrip, spec_encode_hop_count, spec_parse_hop_count};
use crate::bpv7::extension::{Extension, HopCount, PreviousNode};

use super::error::{FilterRejection, FilterRejectionView};
use super::traits::{BundleFilter, BundleMetadata, BundleMetadataView, BundleMutator};

verus! {

/// The hop count that a block's in-memory data parses to, if any.
pub open spec fn block_hop_count(b: CanonicalBlockView) -> Option<HopCount> {
    match b.data {
        BlockDataView::Inline(d) => match spec_parse_hop_count(d) {
            Ok(h) => Some(h),
            Err(_) => None,
        },
        BlockDataView::Retained { .. } => None,
    }
}

/// The block with its data replaced by `data`, held in memory.
pub open spec fn with_data(b: CanonicalBlockView, data: Seq<u8>) -> CanonicalBlockView {
    CanonicalBlockView { data: BlockDataView::Inline(data), ..b }
}

/// A new extension block with no flags and no CRC.
pub open spec fn new_ext_block(block_type: u64, block_number: u64, data: Seq<u8>) -> CanonicalBlockView {
    CanonicalBlockView {
        block_type,
        block_number,
        flags: BlockFlags::spec_from_bits(0),
        crc: Crc::NoCrc,
        data: BlockDataView::Inline(data),
    }
}

/// The largest block number among `s`, and at least the payload block's (1).
pub open spec fn max_block_number(s: Seq<CanonicalBlockView>) -> u64
    decreases s.len(),
{
    if s.len() == 0 {
        1
    } else {
        let m = max_block_number(s.drop_last());
        if s.last().block_number > m {
            s.last().block_number
        } else {
            m
        }
    }
}

/// The largest block number of the blocks, and at least 1.
fn max_number(blocks: &Vec<CanonicalBlock>) -> (r: u64)
    ensures
        r == max_block_number(blocks_view(blocks@)),
{
    let ghost v = blocks_view(blocks@);
    let mut m: u64 = 1;
    let mut i: usize = 0;
    while i < blocks.len()
        invariant
            i <= blocks@.len(),
            v == blocks_view(blocks@),
            m == max_block_number(v.take(i as int)),
        decreases blocks@.len() - i,
    {
        let n = blocks[i].block_number;
        proof {
            assert(v.take(i + 1).drop_last() =~= v.take(i as int));
            assert(v.take(i + 1).last() == v[i as int]);
        }
        if n > m {
            m = n;
        }
        i = i + 1;
    }
    proof {
        assert(v.take(blocks@.len() as int) =~= v);
    }
    m
}

// ---------------------------------------------------------------------------
// Filters
// ---------------------------------------------------------------------------

/// Rejects bundles whose payload is longer than a maximum.
pub struct MaxPayloadSizeFilter {
    pub max: u64,
}

impl MaxPayloadSizeFilter {
    pub fn new(max: u64) -> (r: Self)
        ensures
            r.max == max,
    {
        MaxPayloadSizeFilter { max }
    }
}

impl BundleFilter for MaxPayloadSizeFilter {
    open spec fn spec_check(&self, meta: BundleMetadataView) -> Result<(), FilterRejectionView> {
        if meta.payload_len > self.max {
            Err(
                FilterRejectionView {
                    filter_name: "max_payload_size"@,
                    reason: "payload exceeds the maximum size"@,
                },
            )
        } else {
            Ok(())
        }
    }

    fn check(&self, meta: &BundleMetadata<'_>) -> (r: Result<(), FilterRejection>) {
        if meta.payload_len > self.max {
            Err(
                FilterRejection {
                    filter_name: "max_payload_size",
                    reason: "payload exceeds the maximum size".to_owned(),
                },
            )
        } else {
            Ok(())
        }
    }
}

/// Rejects bundles whose hop count block shows more hops than its limit.
///
/// The first hop count block decides; a bundle without one, or whose first
/// one cannot be read, passes.
pub struct HopCountFilter;

impl BundleFilter for HopCountFilter {
    open spec fn spec_check(&self, meta: BundleMetadataView) -> Result<(), FilterRejectionView> {
        match first_match(meta.extensions, of_type(HopCount::BLOCK_TYPE)) {
            Some(i) => match block_hop_count(meta.extensions[i]) {
                Some(h) => if h.count > h.limit {
                    Err(
                        FilterRejectionView {
                            filter_name: "hop_count"@,
                            reason: "hop limit exceeded"@,
                        },
                    )
                } else {
                    Ok(())
                },
                None => Ok(()),
            },
            None => Ok(()),
        }
    }

    fn check(&self, meta: &BundleMetadata<'_>) -> (r: Result<(), FilterRejection>) {
        match find_type(meta.extensions, HopCount::BLOCK_TYPE) {
            Some(i) => match {
                proof {
                    assert(blocks_view(meta.extensions@)[i as int] == meta.extensions@[i as int]@);
                }
                meta.extensions[i].parse_ext::<HopCount>()
            } {
                Ok(h) => {
                    if h.exceeded() {
                        Err(
                            FilterRejection {
                                filter_name: "hop_count",
                                reason: "hop limit exceeded".to_owned(),
                            },
                        )
                    } else {
                        Ok(())
                    }
                },
                Err(_) => Ok(()),
            },
            None => Ok(()),
        }
    }
}

/// Accepts only bundles addressed to one of a set of endpoints.
pub struct DestinationFilter {
    pub accepted: Vec<Eid>,
}

impl DestinationFilter {
    pub fn new(accepted: Vec<Eid>) -> (r: Self)
        ensures
            r.accepted@ == accepted@,
    {
        DestinationFilter { accepted }
    }
}

impl BundleFilter for DestinationFilter {
    open spec fn spec_check(&self, meta: BundleMetadataView) -> Result<(), FilterRejectionView> {
        if exists|i: int|
            0 <= i < self.accepted@.len() && #[trigger] self.accepted@[i]@ == meta.primary.dest_eid {
            Ok(())
        } else {
            Err(
                FilterRejectionView {
                    filter_name: "destination"@,
                    reason: "destination not accepted"@,
                },
            )
        }
    }

    fn check(&self, meta: &BundleMetadata<'_>) -> (r: Result<(), FilterRejection>) {
        let mut i: usize = 0;
        while i < self.accepted.len()
            invariant
                i <= self.accepted@.len(),
                forall|j: int| 0 <= j < i ==> #[trigger] self.accepted@[j]@ != meta.primary@.dest_eid,
            decreases self.accepted@.len() - i,
        {
            if self.accepted[i].same_as(&meta.primary.dest_eid) {
                return Ok(());
            }
            i = i + 1;
        }
        Err(
            FilterRejection {
                filter_name: "destination",
                reason: "destination not accepted".to_owned(),
            },
        )
    }
}

/// The destination filter accepts a bundle exactly when its destination is
/// one of the accepted endpoints, at whatever position in the list; any
/// other bundle is rejected as "destination".
pub proof fn lemma_destination_filter_accepts_listed(f: DestinationFilter, meta: BundleMetadataView, i: int)
    ensures
        0 <= i < f.accepted@.len() && f.accepted@[i]@ == meta.primary.dest_eid ==> f.spec_check(meta)
            == Ok::<(), FilterRejectionView>(()),
        (forall|j: int| 0 <= j < f.accepted@.len() ==> #[trigger] f.accepted@[j]@ != meta.primary.dest_eid)
            ==> f.spec_check(meta) is Err && f.spec_check(meta)->Err_0.filter_name == "destination"@,
{
}

// ---------------------------------------------------------------------------
// Mutators
// ---------------------------------------------------------------------------

/// Counts one more hop in the first hop count block, or adds a hop count
/// block with the configured limit and one hop where there is none.
pub struct HopCountIncrementMutator {
    pub limit: u8,
}

impl HopCountIncrementMutator {
    pub fn new(limit: u8) -> (r: Self)
        ensures
            r.limit == limit,
    {
        HopCountIncrementMutator { limit }
    }
}

impl BundleMutator for HopCountIncrementMutator {
    open spec fn spec_mutate(
        &self,
        primary: PrimaryBlockView,
        extensions: Seq<CanonicalBlockView>,
    ) -> (PrimaryBlockView, Seq<CanonicalBlockView>, bool) {
        match first_match(extensions, of_type(HopCount::BLOCK_TYPE)) {
            Some(i) => match block_hop_count(extensions[i]) {
                Some(h) => if h.count < 255 {
                    (
                        primary,
                        extensions.update(
                            i,
                            with_data(
                                extensions[i],
                                spec_encode_hop_count(HopCount { limit: h.limit, count: (h.count + 1) as u8 }),
                            ),
                        ),
                        true,
                    )
                } else {
                    (primary, extensions, false)
                },
                None => (primary, extensions, false),
            },
            None => if max_block_number(extensions) < u64::MAX {
                (
                    primary,
                    extensions.push(
                        new_ext_block(
                            HopCount::BLOCK_TYPE,
                            (max_block_number(extensions) + 1) as u64,
                            spec_encode_hop_count(HopCount { limit: self.limit, count: 1 }),
                        ),
                    ),
                    true,
                )
            } else {
                (primary, extensions, false)
            },
        }
    }

    fn mutate(&self, primary: &mut PrimaryBlock, extensions: &mut Vec<CanonicalBlock>) -> (r: bool) {
        let ghost v = blocks_view(extensions@);
        match find_type(extensions.as_slice(), HopCount::BLOCK_TYPE) {
            Some(i) => {
                proof {
                    assert(v[i as int] == extensions@[i as int]@);
                }
                match extensions[i].parse_ext::<HopCount>() {
                    Ok(h) => {
                        if h.count < 255 {
                            let next = HopCount { limit: h.limit, count: h.count + 1 };
                            let mut b = extensions[i].duplicate();
                            b.data = BlockData::Inline(next.encode_data());
                            extensions.set(i, b);
                            proof {
                                assert(blocks_view(extensions@) =~= v.update(
                                    i as int,
                                    with_data(v[i as int], spec_encode_hop_count(next)),
                                ));
                            }
                            true
                        } else {
                            false
                        }
                    },
                    Err(_) => false,
                }
            },
            None => {
                let m = max_number(extensions);
                if m < u64::MAX {
                    let hop = HopCount { limit: self.limit, count: 1 };
                    let b = CanonicalBlock::from_ext(m + 1, BlockFlags::from_bits(0), Crc::NoCrc, &hop);
                    extensions.push(b);
                    proof {
                        assert(blocks_view(extensions@) =~= v.push(b@));
                    }
                    true
                } else {
                    false
                }
            },
        }
    }
}

/// One more hop, the bundle's own limit kept: where the first hop count
/// block reads `{limit: l, count: c}` with `c < 255`, after the mutation it
/// reads `{limit: l, count: c + 1}`, keeps its type, number, flags and CRC,
/// and the primary block and every other block are unchanged. The
/// mutator's configured limit goes only into a block it adds where the
/// bundle has none: that block reads `{limit, count: 1}`.
pub proof fn lemma_hop_count_increment(
    m: HopCountIncrementMutator,
    primary: PrimaryBlockView,
    extensions: Seq<CanonicalBlockView>,
    i: int,
    l: u8,
    c: u8,
)
    ensures
        is_first_match(extensions, of_type(HopCount::BLOCK_TYPE), i) && block_hop_count(extensions[i])
            == Some(HopCount { limit: l, count: c }) && c < 255 ==> ({
            let (p, e, changed) = m.spec_mutate(primary, extensions);
            &&& changed
            &&& p == primary
            &&& e.len() == extensions.len()
            &&& block_hop_count(e[i]) == Some(HopCount { limit: l, count: (c + 1) as u8 })
            &&& e[i].block_type == extensions[i].block_type
            &&& e[i].block_number == extensions[i].block_number
            &&& e[i].flags == extensions[i].flags
            &&& e[i].crc == extensions[i].crc
            &&& forall|j: int| 0 <= j < extensions.len() && j != i ==> e[j] == extensions[j]
        }),
        (forall|j: int| 0 <= j < extensions.len() ==> #[trigger] extensions[j].block_type != HopCount::BLOCK_TYPE)
            && max_block_number(extensions) < u64::MAX ==> ({
            let (p, e, changed) = m.spec_mutate(primary, extensions);
            &&& changed
            &&& p == primary
            &&& e.len() == extensions.len() + 1
            &&& e.drop_last() == extensions
            &&& e.last().block_type == HopCount::BLOCK_TYPE
            &&& block_hop_count(e.last()) == Some(HopCount { limit: m.limit, count: 1 })
        }),
{
    lemma_first_match(extensions, of_type(HopCount::BLOCK_TYPE), i);
    let next = HopCount { limit: l, count: (c + 1) as u8 };
    lemma_hop_count_roundtrip(next, Seq::empty());
    assert(spec_encode_hop_count(next) + Seq::<u8>::empty() == spec_encode_hop_count(next));
    let first = HopCount { limit: m.limit, count: 1 };
    lemma_hop_count_roundtrip(first, Seq::empty());
    assert(spec_encode_hop_count(first) + Seq::<u8>::empty() == spec_encode_hop_count(first));
    if forall|j: int| 0 <= j < extensions.len() ==> #[trigger] extensions[j].block_type != HopCount::BLOCK_TYPE {
        assert forall|j: int| 0 <= j < extensions.len() implies !(#[trigger] of_type(HopCount::BLOCK_TYPE)(
            extensions[j],
        )) by {
            assert(extensions[j].block_type != HopCount::BLOCK_TYPE);
        }
        if max_block_number(extensions) < u64::MAX {
            let e = m.spec_mutate(primary, extensions).1;
            assert(e.drop_last() =~= extensions);
        }
    }
}

/// Records this node as the bundle's previous node: replaces the data of
/// the first previous node block, or adds one where there is none.
pub struct PreviousNodeMutator {
    pub node: Eid,
}

impl PreviousNodeMutator {
    pub fn new(node: Eid) -> (r: Self)
        ensures
            r.node@ == node@,
    {
        PreviousNodeMutator { node }
    }
}

impl BundleMutator for PreviousNodeMutator {
    open spec fn spec_mutate(
        &self,
        primary: PrimaryBlockView,
        extensions: Seq<CanonicalBlockView>,
    ) -> (PrimaryBlockView, Seq<CanonicalBlockView>, bool) {
        match first_match(extensions, of_type(PreviousNode::BLOCK_TYPE)) {
            Some(i) => (
                primary,
                extensions.update(i, with_data(extensions[i], spec_encode_eid(self.node@))),
                true,
            ),
            None => if max_block_number(extensions) < u64::MAX {
                (
                    primary,
                    extensions.push(
                        new_ext_block(
                            PreviousNode::BLOCK_TYPE,
                            (max_block_number(extensions) + 1) as u64,
                            spec_encode_eid(self.node@),
                        ),
                    ),
                    true,
                )
            } else {
                (primary, extensions, false)
            },
        }
    }

    fn mutate(&self, primary: &mut PrimaryBlock, extensions: &mut Vec<CanonicalBlock>) -> (r: bool) {
        let ghost v = blocks_view(extensions@);
        let pn = PreviousNode { node_id: self.node.duplicate() };
        match find_type(extensions.as_slice(), PreviousNode::BLOCK_TYPE) {
            Some(i) => {
                proof {
                    assert(v[i as int] == extensions@[i as int]@);
                }
                let mut b = extensions[i].duplicate();
                b.data = BlockData::Inline(pn.encode_data());
                extensions.set(i, b);
                proof {
                    assert(blocks_view(extensions@) =~= v.update(
                        i as int,
                        with_data(v[i as int], spec_encode_eid(self.node@)),
                    ));
                }
                true
            },
            None => {
                let m = max_number(extensions);
                if m < u64::MAX {
                    let b = CanonicalBlock::from_ext(m + 1, BlockFlags::from_bits(0), Crc::NoCrc, &pn);
                    extensions.push(b);
                    proof {
                        assert(blocks_view(extensions@) =~= v.push(b@));
                    }
                    true
                } else {
                    false
                }
            },
        }
    }
}

} // verus!
