//! Local allocator for resource-container identifiers.

use vstd::prelude::*;

verus! {

/// Issues two independent, zero-based, strictly increasing sequences of
/// identifiers: bucket ids and bucket-reference ids.  The n-th bucket id
/// handed out is exactly `n`, independent of how the two kinds interleave;
/// the execution engine assigns storage to declaration instructions in the
/// same sequential order, so the two numberings coincide.
pub struct IdAllocator {
    bucket_next: usize,
    bucket_ref_next: usize,
}

impl IdAllocator {
    /// Number of bucket ids handed out so far.
    pub closed spec fn buckets_issued(&self) -> int {
        self.bucket_next as int
    }

    /// Number of bucket-reference ids handed out so far.
    pub closed spec fn bucket_refs_issued(&self) -> int {
        self.bucket_ref_next as int
    }

    /// Starts both sequences at zero.
    pub fn new() -> (r: IdAllocator)
        ensures
            r.buckets_issued() == 0,
            r.bucket_refs_issued() == 0,
    {
        IdAllocator { bucket_next: 0, bucket_ref_next: 0 }
    }

    /// Returns the next bucket id: always the number of bucket ids issued
    /// before this call.
    pub fn new_bid(&mut self) -> (r: usize)
        requires
            old(self).buckets_issued() < usize::MAX,
        ensures
            r == old(self).buckets_issued(),
            final(self).buckets_issued() == old(self).buckets_issued() + 1,
            final(self).bucket_refs_issued() == old(self).bucket_refs_issued(),
    {
        let r = self.bucket_next;
        self.bucket_next = self.bucket_next + 1;
        r
    }

    /// Returns the next bucket-reference id: always the number of
    /// bucket-reference ids issued before this call.
    pub fn new_rid(&mut self) -> (r: usize)
        requires
            old(self).bucket_refs_issued() < usize::MAX,
        ensures
            r == old(self).bucket_refs_issued(),
            final(self).bucket_refs_issued() == old(self).bucket_refs_issued() + 1,
            final(self).buckets_issued() == old(self).buckets_issued(),
    {
        let r = self.bucket_ref_next;
        self.bucket_ref_next = self.bucket_ref_next + 1;
        r
    }
}

} // verus!
