//! Inode number allocation.
//!
//! Inode numbers below `STATIC_MAX` are *static*: they are handed out once,
//! while the tree is built, and live until unmount. Numbers from `STATIC_MAX`
//! upward are *dynamic*: they back entries generated at runtime from game
//! snapshots. Both counters only ever grow, so every allocation is fresh.
//!
//! Dynamic numbers can also be drawn as whole disjoint blocks; freed blocks
//! are kept in a FIFO and reused whole.

use vstd::prelude::*;

verus! {

/// First inode number of the dynamic range.
pub const STATIC_MAX: u64 = 5000;

/// Number of inodes handed out per dynamic block.
pub const BLOCK_SIZE: u64 = 2048;

/// Whether an inode number lies in the static range.
pub open spec fn spec_is_static(inode: u64) -> bool {
    inode < STATIC_MAX
}

/// Whether an inode number lies in the static range.
#[verifier::when_used_as_spec(spec_is_static)]
pub fn is_inode_static(inode: u64) -> (r: bool)
    ensures
        r == spec_is_static(inode),
{
    inode < STATIC_MAX
}

/// A contiguous range of dynamic inode numbers `[start, end)`, consumed in
/// order from the front.
pub struct InodeBlock {
    start: u64,
    end: u64,
    next: u64,
}

impl InodeBlock {
    pub closed spec fn wf(self) -> bool {
        &&& STATIC_MAX <= self.start <= self.next <= self.end
    }

    pub closed spec fn spec_start(self) -> u64 {
        self.start
    }

    pub closed spec fn spec_end(self) -> u64 {
        self.end
    }

    pub closed spec fn spec_next(self) -> u64 {
        self.next
    }

    /// Draw the next unconsumed inode of the block, if one is left.
    pub fn take_next(&mut self) -> (r: Option<u64>)
        requires
            old(self).wf(),
        ensures
            final(self).wf(),
            final(self).spec_start() == old(self).spec_start(),
            final(self).spec_end() == old(self).spec_end(),
            old(self).spec_next() < old(self).spec_end() ==> r == Some(old(self).spec_next())
                && final(self).spec_next() == old(self).spec_next() + 1,
            old(self).spec_next() == old(self).spec_end() ==> r is None && *final(self) == *old(
                self,
            ),
    {
        if self.next < self.end {
            let n = self.next;
            self.next = n + 1;
            Some(n)
        } else {
            None
        }
    }

    /// The inodes consumed from this block so far, in order.
    pub fn iter_allocated(&self) -> (r: Vec<u64>)
        requires
            self.wf(),
        ensures
            r@.len() == self.spec_next() - self.spec_start(),
            forall|i: int|
                0 <= i < r@.len() ==> r@[i] == self.spec_start() + i,
    {
        let mut out: Vec<u64> = Vec::new();
        let mut cur: u64 = self.start;
        while cur < self.next
            invariant
                self.start <= cur <= self.next <= self.end,
                out@.len() == cur - self.start,
                forall|i: int| 0 <= i < out@.len() ==> out@[i] == self.start + i,
            decreases self.next - cur,
        {
            out.push(cur);
            cur = cur + 1;
        }
        out
    }

    /// Every inode of the block's whole range, in order, without consuming.
    pub fn iter_all(&self) -> (r: Vec<u64>)
        requires
            self.wf(),
        ensures
            r@.len() == self.spec_end() - self.spec_start(),
            forall|i: int|
                0 <= i < r@.len() ==> r@[i] == self.spec_start() + i,
    {
        let mut out: Vec<u64> = Vec::new();
        let mut cur: u64 = self.start;
        while cur < self.end
            invariant
                self.start <= cur <= self.end,
                out@.len() == cur - self.start,
                forall|i: int| 0 <= i < out@.len() ==> out@[i] == self.start + i,
            decreases self.end - cur,
        {
            out.push(cur);
            cur = cur + 1;
        }
        out
    }
}

/// Issues static inode numbers one by one and dynamic numbers either one by
/// one or as disjoint blocks, with a FIFO freelist of returned blocks.
pub struct InodeBlockAllocator {
    next_dyn: u64,
    next_static: u64,
    freelist: Vec<InodeBlock>,
}

impl InodeBlockAllocator {
    pub closed spec fn wf(self) -> bool {
        &&& 1 <= self.next_static <= STATIC_MAX
        &&& STATIC_MAX <= self.next_dyn
        &&& forall|i: int|
            0 <= i < self.freelist@.len() ==> (#[trigger] self.freelist@[i]).wf()
                && self.freelist@[i].spec_end() <= self.next_dyn
    }

    pub closed spec fn spec_next_static(self) -> u64 {
        self.next_static
    }

    pub closed spec fn spec_next_dyn(self) -> u64 {
        self.next_dyn
    }

    pub closed spec fn spec_freelist_len(self) -> nat {
        self.freelist@.len()
    }

    /// The watermark bounds that well-formedness gives.
    pub proof fn lemma_wf_bounds(self)
        requires
            self.wf(),
        ensures
            STATIC_MAX <= self.spec_next_dyn(),
            1 <= self.spec_next_static() <= STATIC_MAX,
    {
    }

    /// The dynamic watermark: the next dynamic inode to be issued.
    pub fn next_dyn_value(&self) -> (r: u64)
        ensures
            r == self.spec_next_dyn(),
    {
        self.next_dyn
    }

    /// Whether another static inode can still be issued.
    pub fn static_left(&self) -> (r: bool)
        ensures
            r == (self.spec_next_static() < STATIC_MAX),
    {
        self.next_static < STATIC_MAX
    }

    pub fn new() -> (r: Self)
        ensures
            r.wf(),
            r.spec_next_static() == 1,
            r.spec_next_dyn() == STATIC_MAX,
            r.spec_freelist_len() == 0,
    {
        InodeBlockAllocator { next_static: 1, next_dyn: STATIC_MAX, freelist: Vec::new() }
    }

    /// Issue the next static inode. The static range must not be exhausted.
    pub fn allocate_static(&mut self) -> (r: u64)
        requires
            old(self).wf(),
            old(self).spec_next_static() < STATIC_MAX,
        ensures
            final(self).wf(),
            r == old(self).spec_next_static(),
            spec_is_static(r),
            final(self).spec_next_static() == old(self).spec_next_static() + 1,
            final(self).spec_next_dyn() == old(self).spec_next_dyn(),
            final(self).spec_freelist_len() == old(self).spec_freelist_len(),
    {
        let new = self.next_static;
        self.next_static = new + 1;
        new
    }

    /// Issue a single fresh dynamic inode, never seen before.
    pub fn allocate(&mut self) -> (r: u64)
        requires
            old(self).wf(),
            old(self).spec_next_dyn() < u64::MAX,
        ensures
            final(self).wf(),
            r == old(self).spec_next_dyn(),
            !spec_is_static(r),
            final(self).spec_next_dyn() == old(self).spec_next_dyn() + 1,
            final(self).spec_next_static() == old(self).spec_next_static(),
            final(self).spec_freelist_len() == old(self).spec_freelist_len(),
    {
        let new = self.next_dyn;
        self.next_dyn = new + 1;
        new
    }

    /// Issue a whole block of dynamic inodes: the oldest freed block when one
    /// is queued, else a fresh disjoint range of `BLOCK_SIZE` numbers.
    pub fn allocate_block(&mut self) -> (r: InodeBlock)
        requires
            old(self).wf(),
            old(self).spec_next_dyn() + BLOCK_SIZE <= u64::MAX,
        ensures
            final(self).wf(),
            r.wf(),
            r.spec_end() <= final(self).spec_next_dyn(),
            old(self).spec_freelist_len() == 0 ==> {
                &&& r.spec_start() == old(self).spec_next_dyn()
                &&& r.spec_next() == r.spec_start()
                &&& r.spec_end() == r.spec_start() + BLOCK_SIZE
                &&& final(self).spec_next_dyn() == old(self).spec_next_dyn() + BLOCK_SIZE
            },
            old(self).spec_freelist_len() > 0 ==> final(self).spec_freelist_len() == old(
                self,
            ).spec_freelist_len() - 1 && final(self).spec_next_dyn() == old(self).spec_next_dyn(),
    {
        if self.freelist.len() > 0 {
            self.freelist.remove(0)
        } else {
            let start = self.next_dyn;
            self.next_dyn = start + BLOCK_SIZE;
            InodeBlock { start, end: start + BLOCK_SIZE, next: start }
        }
    }

    /// Queue a block for whole reuse, behind earlier freed blocks.
    pub fn free(&mut self, block: InodeBlock)
        requires
            old(self).wf(),
            block.wf(),
            block.spec_end() <= old(self).spec_next_dyn(),
        ensures
            final(self).wf(),
            final(self).spec_freelist_len() == old(self).spec_freelist_len() + 1,
            final(self).spec_next_dyn() == old(self).spec_next_dyn(),
            final(self).spec_next_static() == old(self).spec_next_static(),
    {
        self.freelist.push(block);
    }
}

} // verus!
