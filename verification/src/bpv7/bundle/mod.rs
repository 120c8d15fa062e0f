//! BPv7 bundle structure (RFC 9171 §4).

pub mod canonical;
pub mod primary;

pub use canonical::{
    BlockData, BlockFlags, CanonicalBlock, PAYLOAD_BLOCK_NUMBER, PAYLOAD_BLOCK_TYPE,
};
pub use primary::{BundleFlags, CreationTimestamp, FragmentInfo, PrimaryBlock};

use vstd::prelude::*;

use crate::cbor::spec::{BREAK, INDEFINITE_ARRAY};
use crate::cbor::{Encoder, ToCbor};

use crate::bpv7::crc::Crc;
use crate::bpv7::error::Error;

use canonical::{
    blocks_view, find_number, find_type, first_match, lemma_filter_step, not_of_type, of_number,
    of_type, spec_encode_block, BlockDataView, CanonicalBlockView,
};
use primary::{spec_encode_primary, spec_validate_primary, PrimaryBlockView};

verus! {

/// A BPv7 bundle (RFC 9171 §4.1).
///
/// Pure data — holds metadata and block descriptors in memory.
/// No I/O, no retention. Constructed from its parts or by the streaming
/// reader of [`crate::bundle`].
#[derive(Debug)]
pub struct Bundle {
    primary: PrimaryBlock,
    blocks: Vec<CanonicalBlock>,
}

/// Model of a bundle: its primary block and its canonical blocks in order.
pub struct BundleView {
    pub primary: PrimaryBlockView,
    pub blocks: Seq<CanonicalBlockView>,
}

impl View for Bundle {
    type V = BundleView;

    closed spec fn view(&self) -> BundleView {
        BundleView { primary: self.primary@, blocks: blocks_view(self.blocks@) }
    }
}

/// The models of a sequence of block references.
pub open spec fn block_refs_view(s: Seq<&CanonicalBlock>) -> Seq<CanonicalBlockView> {
    s.map_values(|b: &CanonicalBlock| b@)
}

/// Whether a later block has the same block number as block `i`.
pub open spec fn has_later_dup(s: Seq<CanonicalBlockView>, i: int) -> bool {
    exists|j: int| i < j < s.len() && #[trigger] s[j].block_number == s[i].block_number
}

/// Whether `i` is the first block that a later block shares its number with.
pub open spec fn is_first_dup(s: Seq<CanonicalBlockView>, i: int) -> bool {
    &&& 0 <= i < s.len()
    &&& has_later_dup(s, i)
    &&& forall|k: int| 0 <= k < i ==> !#[trigger] has_later_dup(s, k)
}

/// The first block whose number a later block repeats, if any.
pub open spec fn first_dup(s: Seq<CanonicalBlockView>) -> Option<int> {
    if exists|i: int| is_first_dup(s, i) {
        Some(choose|i: int| is_first_dup(s, i))
    } else {
        None
    }
}

/// The number of payload blocks.
pub open spec fn payload_count(s: Seq<CanonicalBlockView>) -> nat {
    s.filter(of_type(PAYLOAD_BLOCK_TYPE)).len()
}

/// The structural check of a bundle: a valid primary block, distinct block
/// numbers, and exactly one payload block.
pub open spec fn spec_validate_bundle(b: BundleView) -> Result<(), Error> {
    match spec_validate_primary(b.primary) {
        Err(e) => Err(e),
        Ok(()) => match first_dup(b.blocks) {
            Some(i) => Err(Error::DuplicateBlockNumber(b.blocks[i].block_number)),
            None => if payload_count(b.blocks) != 1 {
                Err(Error::InvalidPayloadCount(payload_count(b.blocks) as usize))
            } else {
                Ok(())
            },
        },
    }
}

/// The encodings of blocks, one after the other.
pub open spec fn spec_encode_blocks(s: Seq<CanonicalBlockView>) -> Seq<u8>
    decreases s.len(),
{
    if s.len() == 0 {
        Seq::empty()
    } else {
        spec_encode_blocks(s.drop_last()) + spec_encode_block(s.last())
    }
}

/// Whether every block's data is held in memory.
pub open spec fn all_inline(s: Seq<CanonicalBlockView>) -> bool {
    forall|i: int| 0 <= i < s.len() ==> #[trigger] s[i].data is Inline
}

/// The bundle as an indefinite-length CBOR array: the primary block, then
/// the canonical blocks, then the break byte.
pub open spec fn spec_encode_bundle(b: BundleView) -> Seq<u8> {
    seq![INDEFINITE_ARRAY] + spec_encode_primary(b.primary) + spec_encode_blocks(b.blocks) + seq![
        BREAK,
    ]
}

/// What encoding a bundle in memory gives: its bytes when it is valid and
/// all its data is in memory.
pub open spec fn spec_bundle_bytes(b: BundleView) -> Result<Seq<u8>, Error> {
    match spec_validate_bundle(b) {
        Err(e) => Err(e),
        Ok(()) => if all_inline(b.blocks) {
            Ok(spec_encode_bundle(b))
        } else {
            Err(Error::PayloadNotInline)
        },
    }
}

/// The length of a payload block's data.
pub open spec fn spec_data_len(b: CanonicalBlockView) -> u64 {
    match b.data {
        BlockDataView::Inline(d) => d.len() as u64,
        BlockDataView::Retained { len, .. } => len,
    }
}

proof fn lemma_encode_blocks_step(s: Seq<CanonicalBlockView>, i: int)
    requires
        0 <= i < s.len(),
    ensures
        spec_encode_blocks(s.take(i + 1)) == spec_encode_blocks(s.take(i)) + spec_encode_block(s[i]),
{
    assert(s.take(i + 1).drop_last() =~= s.take(i));
    assert(s.take(i + 1).last() == s[i]);
}

proof fn lemma_first_dup(s: Seq<CanonicalBlockView>, i: int)
    ensures
        is_first_dup(s, i) ==> first_dup(s) == Some(i),
        (forall|k: int| 0 <= k < s.len() ==> !#[trigger] has_later_dup(s, k)) ==> first_dup(s) is None,
{
    if is_first_dup(s, i) {
        let k = choose|k: int| is_first_dup(s, k);
        assert(is_first_dup(s, k));
        if k < i {
            assert(!has_later_dup(s, k));
        } else if k > i {
            assert(!has_later_dup(s, i));
        }
    }
    if forall|k: int| 0 <= k < s.len() ==> !#[trigger] has_later_dup(s, k) {
        if exists|k: int| is_first_dup(s, k) {
            let k = choose|k: int| is_first_dup(s, k);
            assert(has_later_dup(s, k));
        }
    }
}

impl Bundle {
    pub fn from_parts(primary: PrimaryBlock, blocks: Vec<CanonicalBlock>) -> (r: Self)
        ensures
            r@ == (BundleView { primary: primary@, blocks: blocks_view(blocks@) }),
    {
        Bundle { primary, blocks }
    }

    pub fn primary(&self) -> (r: &PrimaryBlock)
        ensures
            r@ == self@.primary,
    {
        &self.primary
    }

    pub fn primary_mut(&mut self) -> (r: &mut PrimaryBlock)
        ensures
            r@ == old(self)@.primary,
            final(self)@ == (BundleView { primary: final(r)@, blocks: old(self)@.blocks }),
    {
        &mut self.primary
    }

    pub fn blocks(&self) -> (r: &[CanonicalBlock])
        ensures
            blocks_view(r@) == self@.blocks,
    {
        self.blocks.as_slice()
    }

    pub fn blocks_mut(&mut self) -> (r: &mut Vec<CanonicalBlock>)
        ensures
            blocks_view(r@) == old(self)@.blocks,
            final(self)@ == (BundleView { primary: old(self)@.primary, blocks: blocks_view(final(r)@) }),
    {
        &mut self.blocks
    }

    /// The extension blocks, in order: every block but the payload block.
    pub fn extensions(&self) -> (r: Vec<&CanonicalBlock>)
        ensures
            block_refs_view(r@) == self@.blocks.filter(not_of_type(PAYLOAD_BLOCK_TYPE)),
    {
        let ghost v = blocks_view(self.blocks@);
        let ghost f = not_of_type(PAYLOAD_BLOCK_TYPE);
        let mut out: Vec<&CanonicalBlock> = Vec::new();
        let mut i: usize = 0;
        while i < self.blocks.len()
            invariant
                i <= self.blocks@.len(),
                v == blocks_view(self.blocks@),
                f == not_of_type(PAYLOAD_BLOCK_TYPE),
                block_refs_view(out@) == v.take(i as int).filter(f),
            decreases self.blocks@.len() - i,
        {
            let b = &self.blocks[i];
            proof {
                lemma_filter_step(v, f, i as int);
                assert(v[i as int] == b@);
                assert(f(v[i as int]) == (b.block_type != PAYLOAD_BLOCK_TYPE));
            }
            if b.block_type != PAYLOAD_BLOCK_TYPE {
                let ghost before = out@;
                out.push(b);
                proof {
                    assert(block_refs_view(out@) =~= block_refs_view(before).push(b@));
                    assert(v.take(i + 1).filter(f) == v.take(i as int).filter(f).push(v[i as int]));
                }
            } else {
                proof {
                    assert(v.take(i + 1).filter(f) == v.take(i as int).filter(f));
                }
            }
            i = i + 1;
        }
        proof {
            assert(v.take(self.blocks@.len() as int) =~= v);
        }
        out
    }

    /// The payload block: the first block of the payload type.
    pub fn payload_block(&self) -> (r: Option<&CanonicalBlock>)
        ensures
            match first_match(self@.blocks, of_type(PAYLOAD_BLOCK_TYPE)) {
                Some(i) => r matches Some(b) && b@ == self@.blocks[i],
                None => r is None,
            },
    {
        match find_type(self.blocks.as_slice(), PAYLOAD_BLOCK_TYPE) {
            Some(i) => {
                proof {
                    assert(self@.blocks[i as int] == self.blocks@[i as int]@);
                }
                Some(&self.blocks[i])
            },
            None => None,
        }
    }

    /// The length of the payload data; 0 without a payload block.
    pub fn payload_len(&self) -> (r: u64)
        ensures
            r == match first_match(self@.blocks, of_type(PAYLOAD_BLOCK_TYPE)) {
                Some(i) => spec_data_len(self@.blocks[i]),
                None => 0,
            },
    {
        match self.payload_block() {
            Some(b) => match &b.data {
                BlockData::Inline(data) => data.len() as u64,
                BlockData::Retained { len, .. } => *len,
            },
            None => 0,
        }
    }

    /// The payload block's CRC; no CRC without a payload block.
    pub fn payload_crc(&self) -> (r: Crc)
        ensures
            r == match first_match(self@.blocks, of_type(PAYLOAD_BLOCK_TYPE)) {
                Some(i) => self@.blocks[i].crc,
                None => Crc::NoCrc,
            },
    {
        match self.payload_block() {
            Some(b) => b.crc,
            None => Crc::NoCrc,
        }
    }

    /// The first block of the given type.
    pub fn block_by_type(&self, block_type: u64) -> (r: Option<&CanonicalBlock>)
        ensures
            match first_match(self@.blocks, of_type(block_type)) {
                Some(i) => r matches Some(b) && b@ == self@.blocks[i],
                None => r is None,
            },
    {
        match find_type(self.blocks.as_slice(), block_type) {
            Some(i) => {
                proof {
                    assert(self@.blocks[i as int] == self.blocks@[i as int]@);
                }
                Some(&self.blocks[i])
            },
            None => None,
        }
    }

    /// The first block with the given block number.
    pub fn block_by_number(&self, number: u64) -> (r: Option<&CanonicalBlock>)
        ensures
            match first_match(self@.blocks, of_number(number)) {
                Some(i) => r matches Some(b) && b@ == self@.blocks[i],
                None => r is None,
            },
    {
        match find_number(self.blocks.as_slice(), number) {
            Some(i) => {
                proof {
                    assert(self@.blocks[i as int] == self.blocks@[i as int]@);
                }
                Some(&self.blocks[i])
            },
            None => None,
        }
    }

    /// Check the bundle's structure: a valid primary block, distinct block
    /// numbers, and exactly one payload block.
    pub fn validate(&self) -> (r: Result<(), Error>)
        ensures
            r == spec_validate_bundle(self@),
    {
        self.primary.validate()?;
        let ghost v = blocks_view(self.blocks@);
        let ghost f = of_type(PAYLOAD_BLOCK_TYPE);
        let n = self.blocks.len();
        let mut payload_count: usize = 0;
        let mut i: usize = 0;
        while i < n
            invariant
                n == self.blocks@.len(),
                i <= n,
                v == blocks_view(self.blocks@),
                spec_validate_primary(self@.primary) is Ok,
                f == of_type(PAYLOAD_BLOCK_TYPE),
                payload_count == v.take(i as int).filter(f).len(),
                payload_count <= i,
                forall|k: int| 0 <= k < i ==> !#[trigger] has_later_dup(v, k),
            decreases n - i,
        {
            proof {
                lemma_filter_step(v, f, i as int);
                assert(v[i as int] == self.blocks@[i as int]@);
            }
            if self.blocks[i].is_payload() {
                payload_count = payload_count + 1;
            }
            let mut j: usize = i + 1;
            while j < n
                invariant
                    n == self.blocks@.len(),
                    i < n,
                    i < j <= n,
                    v == blocks_view(self.blocks@),
                    spec_validate_primary(self@.primary) is Ok,
                    forall|k: int| 0 <= k < i ==> !#[trigger] has_later_dup(v, k),
                    forall|m: int| i < m < j ==> #[trigger] v[m].block_number != v[i as int].block_number,
                decreases n - j,
            {
                proof {
                    assert(v[j as int] == self.blocks@[j as int]@);
                    assert(v[i as int] == self.blocks@[i as int]@);
                }
                if self.blocks[i].block_number == self.blocks[j].block_number {
                    proof {
                        assert(v[j as int].block_number == v[i as int].block_number);
                        assert(has_later_dup(v, i as int));
                        lemma_first_dup(v, i as int);

                    }
                    return Err(Error::DuplicateBlockNumber(self.blocks[i].block_number));
                }
                j = j + 1;
            }
            proof {
                assert(!has_later_dup(v, i as int));
            }
            i = i + 1;
        }
        proof {
            assert(v.take(n as int) =~= v);
            lemma_first_dup(v, 0);
        }
        if payload_count != 1 {
            return Err(Error::InvalidPayloadCount(payload_count));
        }
        Ok(())
    }

    /// Encode the bundle to bytes. Only works when all blocks are inline.
    pub fn encode(&self) -> (r: Result<Vec<u8>, Error>)
        ensures
            match r {
                Ok(bytes) => spec_bundle_bytes(self@) == Ok::<Seq<u8>, Error>(bytes@),
                Err(e) => spec_bundle_bytes(self@) == Err::<Seq<u8>, Error>(e),
            },
    {
        self.validate()?;
        let ghost v = blocks_view(self.blocks@);
        let mut enc = Encoder::with_capacity(256);
        enc.write_indefinite_array();
        self.primary.encode(&mut enc);
        let ghost head = enc@;
        let mut i: usize = 0;
        while i < self.blocks.len()
            invariant
                i <= self.blocks@.len(),
                v == blocks_view(self.blocks@),
                spec_validate_bundle(self@) is Ok,
                enc@ == head + spec_encode_blocks(v.take(i as int)),
                forall|k: int| 0 <= k < i ==> #[trigger] v[k].data is Inline,
            decreases self.blocks@.len() - i,
        {
            let block = &self.blocks[i];
            proof {
                assert(v[i as int] == block@);
                lemma_encode_blocks_step(v, i as int);
            }
            match &block.data {
                BlockData::Inline(_) => block.encode(&mut enc),
                BlockData::Retained { .. } => {
                    proof {
                        assert(!all_inline(v));
                    }
                    return Err(Error::PayloadNotInline);
                },
            }
            i = i + 1;
        }
        enc.write_break();
        proof {
            assert(v.take(self.blocks@.len() as int) =~= v);
            assert(all_inline(v));
            assert(enc@ =~= spec_encode_bundle(self@));
        }
        Ok(enc.into_bytes())
    }
}

} // verus!
