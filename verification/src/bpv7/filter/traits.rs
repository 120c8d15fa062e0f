//! The filter and mutator interfaces and the metadata they see.

use vstd::prelude::*;

use crate::bpv7::bundle::canonical::{blocks_view, CanonicalBlock, CanonicalBlockView};
use crate::bpv7::bundle::primary::{PrimaryBlock, PrimaryBlockView};

use super::error::{FilterRejection, FilterRejectionView};

verus! {

/// What a filter sees of a bundle before its payload is read: the primary
/// block, the extension blocks read so far and the announced payload length.
pub struct BundleMetadata<'a> {
    pub primary: &'a PrimaryBlock,
    pub extensions: &'a [CanonicalBlock],
    pub payload_len: u64,
}

/// Model of [`BundleMetadata`].
pub struct BundleMetadataView {
    pub primary: PrimaryBlockView,
    pub extensions: Seq<CanonicalBlockView>,
    pub payload_len: u64,
}

impl<'a> View for BundleMetadata<'a> {
    type V = BundleMetadataView;

    open spec fn view(&self) -> BundleMetadataView {
        BundleMetadataView {
            primary: self.primary@,
            extensions: blocks_view(self.extensions@),
            payload_len: self.payload_len,
        }
    }
}

/// A policy that accepts or rejects a bundle from its metadata.
///
/// `spec_check` is the decision as a function of the metadata's model;
/// `check` computes it.
pub trait BundleFilter {
    /// The decision on a bundle with metadata `meta`.
    spec fn spec_check(&self, meta: BundleMetadataView) -> Result<(), FilterRejectionView>;

    /// Accept (`Ok`) or reject the bundle.
    fn check(&self, meta: &BundleMetadata<'_>) -> (r: Result<(), FilterRejection>)
        ensures
            match r {
                Ok(()) => self.spec_check(meta@) is Ok,
                Err(e) => self.spec_check(meta@) == Err::<(), FilterRejectionView>(e@),
            },
    ;
}

/// A transformation of an accepted bundle's primary and extension blocks.
///
/// `spec_mutate` gives the new primary block, the new extension blocks and
/// whether anything changed; a mutator that reports no change made none.
pub trait BundleMutator {
    /// The blocks after mutation, and whether they differ from before.
    spec fn spec_mutate(
        &self,
        primary: PrimaryBlockView,
        extensions: Seq<CanonicalBlockView>,
    ) -> (PrimaryBlockView, Seq<CanonicalBlockView>, bool);

    /// Mutate the blocks in place; returns whether anything changed.
    fn mutate(&self, primary: &mut PrimaryBlock, extensions: &mut Vec<CanonicalBlock>) -> (r: bool)
        ensures
            self.spec_mutate(old(primary)@, blocks_view(old(extensions)@)) == (
                final(primary)@,
                blocks_view(final(extensions)@),
                r,
            ),
            !r ==> final(primary)@ == old(primary)@ && blocks_view(final(extensions)@)
                == blocks_view(old(extensions)@),
    ;
}

} // verus!
