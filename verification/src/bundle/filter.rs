//! The filter pipeline: an ordered collection of filters and mutators.
//!
//! Policies live on the reader (ingress) or writer (egress). Configure
//! once, every bundle follows the same rules. Rejected bundles waste zero
//! I/O.

use std::sync::Arc;

use vstd::prelude::*;

use crate::bpv7::bundle::canonical::{blocks_view, CanonicalBlock, CanonicalBlockView};
use crate::bpv7::bundle::primary::{PrimaryBlock, PrimaryBlockView};
use crate::bpv7::filter::error::FilterRejectionView;
use crate::bpv7::filter::traits::BundleMetadataView;
use crate::bpv7::filter::{BundleFilter, BundleMetadata, BundleMutator, FilterRejection};

verus! {

/// The decision of a sequence of filters run in order: the first rejection,
/// or acceptance when every filter accepts.
pub open spec fn spec_run_filters(
    fs: Seq<Arc<Box<dyn BundleFilter>>>,
    meta: BundleMetadataView,
) -> Result<(), FilterRejectionView>
    decreases fs.len(),
{
    if fs.len() == 0 {
        Ok(())
    } else {
        match spec_run_filters(fs.drop_last(), meta) {
            Err(e) => Err(e),
            Ok(()) => fs.last().spec_check(meta),
        }
    }
}

/// The blocks after a sequence of mutators ran in order, and whether any
/// of them changed something.
pub open spec fn spec_run_mutators(
    ms: Seq<Arc<Box<dyn BundleMutator>>>,
    primary: PrimaryBlockView,
    extensions: Seq<CanonicalBlockView>,
) -> (PrimaryBlockView, Seq<CanonicalBlockView>, bool)
    decreases ms.len(),
{
    if ms.len() == 0 {
        (primary, extensions, false)
    } else {
        let (p1, e1, c1) = spec_run_mutators(ms.drop_last(), primary, extensions);
        let (p2, e2, c2) = ms.last().spec_mutate(p1, e1);
        (p2, e2, c1 || c2)
    }
}

/// An ordered collection of filters and mutators.
///
/// Filters run first (in order). If any rejects, processing stops.
/// Then mutators run in order on accepted bundles.
pub struct FilterChain {
    filters: Vec<Arc<Box<dyn BundleFilter>>>,
    mutators: Vec<Arc<Box<dyn BundleMutator>>>,
}

impl FilterChain {
    /// The filters, in the order they run.
    pub closed spec fn filters(&self) -> Seq<Arc<Box<dyn BundleFilter>>> {
        self.filters@
    }

    /// The mutators, in the order they run.
    pub closed spec fn mutators(&self) -> Seq<Arc<Box<dyn BundleMutator>>> {
        self.mutators@
    }

    pub fn new() -> (r: Self)
        ensures
            r.filters().len() == 0,
            r.mutators().len() == 0,
    {
        FilterChain { filters: Vec::new(), mutators: Vec::new() }
    }

    /// Append a filter; it runs after those added before.
    pub fn add_filter<F: BundleFilter + 'static>(&mut self, f: F)
        ensures
            final(self).mutators() == old(self).mutators(),
            final(self).filters().len() == old(self).filters().len() + 1,
            final(self).filters().take(old(self).filters().len() as int) == old(self).filters(),
    {
        let b: Box<dyn BundleFilter> = Box::new(f);
        let a = Arc::new(b);
        let ghost before = self.filters@;
        self.filters.push(a);
        proof {
            vstd::seq::axiom_seq_push_len(before, a);
            assert(self.filters@.take(before.len() as int) =~= before);
        }
    }

    /// Append a mutator; it runs after those added before.
    pub fn add_mutator<M: BundleMutator + 'static>(&mut self, m: M)
        ensures
            final(self).filters() == old(self).filters(),
            final(self).mutators().len() == old(self).mutators().len() + 1,
            final(self).mutators().take(old(self).mutators().len() as int) == old(self).mutators(),
    {
        let b: Box<dyn BundleMutator> = Box::new(m);
        let a = Arc::new(b);
        let ghost before = self.mutators@;
        self.mutators.push(a);
        proof {
            vstd::seq::axiom_seq_push_len(before, a);
            assert(self.mutators@.take(before.len() as int) =~= before);
        }
    }

    pub fn is_empty(&self) -> (r: bool)
        ensures
            r == (self.filters().len() == 0 && self.mutators().len() == 0),
    {
        self.filters.len() == 0 && self.mutators.len() == 0
    }

    /// A chain with the same filters and mutators.
    pub fn share(&self) -> (r: Self)
        ensures
            r.filters() == self.filters(),
            r.mutators() == self.mutators(),
    {
        let mut filters: Vec<Arc<Box<dyn BundleFilter>>> = Vec::new();
        let mut i: usize = 0;
        while i < self.filters.len()
            invariant
                i <= self.filters@.len(),
                filters@ == self.filters@.take(i as int),
            decreases self.filters@.len() - i,
        {
            let a = self.filters[i].clone();
            let ghost before = filters@;
            filters.push(a);
            proof {
                vstd::seq::axiom_seq_push_len(before, a);
                assert(filters@ =~= self.filters@.take(i + 1));
            }
            i = i + 1;
        }
        let mut mutators: Vec<Arc<Box<dyn BundleMutator>>> = Vec::new();
        let mut j: usize = 0;
        while j < self.mutators.len()
            invariant
                j <= self.mutators@.len(),
                mutators@ == self.mutators@.take(j as int),
            decreases self.mutators@.len() - j,
        {
            let a = self.mutators[j].clone();
            let ghost before = mutators@;
            mutators.push(a);
            proof {
                vstd::seq::axiom_seq_push_len(before, a);
                assert(mutators@ =~= self.mutators@.take(j + 1));
            }
            j = j + 1;
        }
        proof {
            assert(filters@ =~= self.filters@);
            assert(mutators@ =~= self.mutators@);
        }
        FilterChain { filters, mutators }
    }

    /// Run the filters in order; the first rejection stops the run.
    pub fn run_filters(&self, meta: &BundleMetadata<'_>) -> (r: Result<(), FilterRejection>)
        ensures
            match r {
                Ok(()) => spec_run_filters(self.filters(), meta@) is Ok,
                Err(e) => spec_run_filters(self.filters(), meta@) == Err::<(), FilterRejectionView>(e@),
            },
    {
        let ghost fs = self.filters@;
        let mut i: usize = 0;
        while i < self.filters.len()
            invariant
                fs == self.filters@,
                i <= fs.len(),
                spec_run_filters(fs.take(i as int), meta@) is Ok,
            decreases fs.len() - i,
        {
            proof {
                assert(fs.take(i + 1).drop_last() =~= fs.take(i as int));
                assert(fs.take(i + 1).last() == fs[i as int]);
            }
            match self.filters[i].check(meta) {
                Ok(()) => {},
                Err(e) => {
                    proof {
                        lemma_run_filters_rejected(fs, meta@, i as int);
                    }
                    return Err(e);
                },
            }
            i = i + 1;
        }
        proof {
            assert(fs.take(fs.len() as int) =~= fs);
        }
        Ok(())
    }

    /// Run the mutators in order on the blocks; returns whether any changed
    /// something. Blocks that no mutator changed are left as they were.
    pub fn run_mutators(&self, primary: &mut PrimaryBlock, extensions: &mut Vec<CanonicalBlock>) -> (r: bool)
        ensures
            spec_run_mutators(self.mutators(), old(primary)@, blocks_view(old(extensions)@)) == (
                final(primary)@,
                blocks_view(final(extensions)@),
                r,
            ),
            !r ==> final(primary)@ == old(primary)@ && blocks_view(final(extensions)@)
                == blocks_view(old(extensions)@),
    {
        let ghost ms = self.mutators@;
        let ghost p0 = primary@;
        let ghost e0 = blocks_view(extensions@);
        let mut changed = false;
        let mut i: usize = 0;
        while i < self.mutators.len()
            invariant
                ms == self.mutators@,
                i <= ms.len(),
                spec_run_mutators(ms.take(i as int), p0, e0) == (
                    primary@,
                    blocks_view(extensions@),
                    changed,
                ),
                !changed ==> primary@ == p0 && blocks_view(extensions@) == e0,
            decreases ms.len() - i,
        {
            proof {
                assert(ms.take(i + 1).drop_last() =~= ms.take(i as int));
                assert(ms.take(i + 1).last() == ms[i as int]);
            }
            let c = self.mutators[i].mutate(primary, extensions);
            changed = changed || c;
            i = i + 1;
        }
        proof {
            assert(ms.take(ms.len() as int) =~= ms);
        }
        changed
    }
}

/// Once a filter rejects, the run's decision is that rejection whatever
/// filters follow.
proof fn lemma_run_filters_rejected(fs: Seq<Arc<Box<dyn BundleFilter>>>, meta: BundleMetadataView, i: int)
    requires
        0 <= i < fs.len(),
        spec_run_filters(fs.take(i + 1), meta) is Err,
    ensures
        spec_run_filters(fs, meta) == spec_run_filters(fs.take(i + 1), meta),
    decreases fs.len() - i,
{
    if i + 1 < fs.len() {
        assert(fs.take(i + 2).drop_last() =~= fs.take(i + 1));
        lemma_run_filters_rejected(fs, meta, i + 1);
    } else {
        assert(fs.take(i + 1) =~= fs);
    }
}

impl Default for FilterChain {
    fn default() -> (r: Self)
        ensures
            r.filters().len() == 0,
            r.mutators().len() == 0,
    {
        Self::new()
    }
}

} // verus!
