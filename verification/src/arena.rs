//! The buffer arena: an append-only registry that gives every device buffer a
//! synthetic, collision-free address range, so that pointer-style bookkeeping
//! (offset arithmetic, pointer-to-owner lookup) keeps working for memory the
//! host cannot address.
//!
//! Regions are appended in ascending address order and never removed.  The
//! first region starts at the element alignment (so no synthetic pointer is
//! null), and each later region starts at the next address at or past the
//! previous region's end that is a multiple of its element alignment, so no
//! two regions ever overlap.

use vstd::prelude::*;
use vstd::arithmetic::div_mod::{
    lemma_fundamental_div_mod, lemma_fundamental_div_mod_converse,
    lemma_mod_division_less_than_divisor,
};
use vstd::arithmetic::mul::{lemma_mul_is_commutative, lemma_mul_is_distributive_add_other_way};

verus! {

/// One registered address range and the buffer handle it resolves to.  The
/// handle type is generic; the device context registers shared `wgpu` buffer
/// handles.
pub struct ArenaRegion<B> {
    /// First synthetic address of the region.
    pub start: usize,
    /// First synthetic address past the region.
    pub end: usize,
    /// The device buffer the region stands for.
    pub buffer: B,
}

/// Whether the synthetic address `ptr` falls inside the region.
pub open spec fn region_contains<B>(r: ArenaRegion<B>, ptr: usize) -> bool {
    r.start <= ptr < r.end
}

/// The registry of all synthetic address ranges handed out so far.
pub struct BufferArena<B> {
    pub regions: Vec<ArenaRegion<B>>,
}

impl<B> BufferArena<B> {
    /// Regions have positive start, nonnegative extent, and appear in
    /// ascending, pairwise non-overlapping address order.
    pub open spec fn wf(self) -> bool {
        &&& forall|i: int|
            0 <= i < self.regions@.len() ==> 1 <= #[trigger] self.regions@[i].start
        &&& forall|i: int|
            0 <= i < self.regions@.len()
                ==> #[trigger] self.regions@[i].start <= self.regions@[i].end
        &&& forall|i: int|
            0 <= i < self.regions@.len() - 1
                ==> #[trigger] self.regions@[i].end <= self.regions@[i + 1].start
    }

    /// Whether some registered region contains `ptr`.
    pub open spec fn resolves(self, ptr: usize) -> bool {
        exists|i: int|
            0 <= i < self.regions@.len() && region_contains(#[trigger] self.regions@[i], ptr)
    }

    /// The start address the next region will get when allocated with the
    /// given element alignment: the next address at or past the previous
    /// region's end that is a multiple of the alignment (or the alignment
    /// itself for the first region).
    pub open spec fn next_start(self, alignment: int) -> int {
        if self.regions@.len() == 0 {
            alignment
        } else {
            ((self.regions@.last().end + alignment - 1) as int / alignment) * alignment
        }
    }

    /// Whether a region of `size_bytes` with the given alignment still fits
    /// in the synthetic address space.
    pub open spec fn can_allocate(self, size_bytes: int, alignment: int) -> bool {
        self.next_start(alignment) + size_bytes <= usize::MAX as int
    }

    /// An empty arena.
    pub fn new() -> (r: BufferArena<B>)
        ensures
            r.regions@.len() == 0,
            r.wf(),
    {
        BufferArena { regions: Vec::new() }
    }

    /// In a well-formed arena any two distinct regions are disjoint: the
    /// earlier one ends no later than the later one starts.
    pub proof fn lemma_sorted(self, i: int, j: int)
        requires
            self.wf(),
            0 <= i < j < self.regions@.len(),
        ensures
            self.regions@[i].end <= self.regions@[j].start,
        decreases j - i,
    {
        if i + 1 < j {
            self.lemma_sorted(i + 1, j);
        }
    }

    /// Append a region of `size_bytes` for `buffer` and return its synthetic
    /// base pointer: the next multiple of `alignment` at or past the previous
    /// region's end (or `alignment` itself for the first region).
    pub fn allocate(&mut self, buffer: B, size_bytes: usize, alignment: usize) -> (ptr: usize)
        requires
            old(self).wf(),
            alignment >= 1,
            old(self).can_allocate(size_bytes as int, alignment as int),
        ensures
            final(self).wf(),
            ptr as int == old(self).next_start(alignment as int),
            final(self).regions@.len() == old(self).regions@.len() + 1,
            final(self).regions@ == old(self).regions@.push(
                ArenaRegion {
                    start: ptr,
                    end: (ptr + size_bytes) as usize,
                    buffer: buffer,
                },
            ),
            final(self).regions@.last().start == ptr,
            final(self).regions@.last().end == ptr + size_bytes,
            final(self).regions@.last().buffer == buffer,
    {
        let n = self.regions.len();
        let start: usize;
        if n == 0 {
            start = alignment;
        } else {
            let last_end = self.regions[n - 1].end;
            let rem = last_end % alignment;
            proof {
                let e = last_end as int;
                let a = alignment as int;
                let q = e / a;
                let r = e % a;
                lemma_mod_division_less_than_divisor(e, a);
                lemma_fundamental_div_mod(e, a);
                lemma_mul_is_commutative(a, q);
                if r == 0 {
                    // The end is already aligned: the ceiling quotient is q,
                    // so the next start is the end itself.
                    lemma_fundamental_div_mod_converse(e + a - 1, a, q, a - 1);
                    assert(((e + a - 1) / a) * a == e);
                } else {
                    // Otherwise the ceiling quotient is q + 1, and the next
                    // start is the end stepped up to the next multiple.
                    lemma_mul_is_distributive_add_other_way(a, q, 1);
                    assert((q + 1) * a == q * a + a);
                    lemma_fundamental_div_mod_converse(e + a - 1, a, q + 1, r - 1);
                    lemma_mul_is_commutative(a, q + 1);
                    assert(((e + a - 1) / a) * a == e + (a - r));
                }
            }
            if rem == 0 {
                start = last_end;
            } else {
                start = last_end + (alignment - rem);
            }
        }
        let end = start + size_bytes;
        self.regions.push(ArenaRegion { start, end, buffer });
        proof {
            if n > 0 {
                assert(old(self).regions@[n - 1].start >= 1);
                assert(old(self).regions@[n - 1].start <= old(self).regions@[n - 1].end);
                assert(old(self).regions@[n - 1].end <= start);
            }
            assert(start >= 1);
            assert forall|i: int| 0 <= i < self.regions@.len() - 1
                implies #[trigger] self.regions@[i].end <= self.regions@[i + 1].start by {
                if i < self.regions@.len() - 2 {
                    assert(old(self).regions@[i].end <= old(self).regions@[i + 1].start);
                }
            }
        }
        start
    }

    /// The shared handle of the buffer whose region contains `ptr`, or `None`
    /// when no region does.
    pub fn resolve_buffer(&self, ptr: usize) -> (r: Option<&B>)
        requires
            self.wf(),
        ensures
            r is Some <==> self.resolves(ptr),
            forall|i: int|
                0 <= i < self.regions@.len() && region_contains(#[trigger] self.regions@[i], ptr)
                    ==> (r matches Some(b) && *b == self.regions@[i].buffer),
    {
        let n = self.regions.len();
        let mut k: usize = 0;
        while k < n
            invariant
                k <= n,
                n == self.regions@.len(),
                self.wf(),
                forall|i: int|
                    0 <= i < k ==> !region_contains(#[trigger] self.regions@[i], ptr),
            decreases n - k,
        {
            let region = &self.regions[k];
            if region.start <= ptr && ptr < region.end {
                proof {
                    assert forall|i: int|
                        0 <= i < self.regions@.len()
                            && region_contains(#[trigger] self.regions@[i], ptr)
                        implies self.regions@[k as int].buffer == self.regions@[i].buffer by {
                        if i < k {
                            self.lemma_sorted(i, k as int);
                        } else if k < i {
                            self.lemma_sorted(k as int, i);
                        }
                    }
                }
                return Some(&region.buffer);
            }
            k = k + 1;
        }
        None
    }

    /// The element offset of `ptr` inside its owning region, in units of
    /// `elem_size` bytes, or `None` when no region contains `ptr`.
    pub fn resolve_offset(&self, ptr: usize, elem_size: usize) -> (r: Option<usize>)
        requires
            self.wf(),
            elem_size >= 1,
        ensures
            r is Some <==> self.resolves(ptr),
            forall|i: int|
                0 <= i < self.regions@.len() && region_contains(#[trigger] self.regions@[i], ptr)
                    ==> r == Some((((ptr - self.regions@[i].start) as int / elem_size as int))
                        as usize),
    {
        let n = self.regions.len();
        let mut k: usize = 0;
        while k < n
            invariant
                k <= n,
                n == self.regions@.len(),
                self.wf(),
                elem_size >= 1,
                forall|i: int|
                    0 <= i < k ==> !region_contains(#[trigger] self.regions@[i], ptr),
            decreases n - k,
        {
            let region = &self.regions[k];
            if region.start <= ptr && ptr < region.end {
                proof {
                    assert forall|i: int|
                        0 <= i < self.regions@.len()
                            && region_contains(#[trigger] self.regions@[i], ptr)
                        implies self.regions@[k as int].start == self.regions@[i].start by {
                        if i < k {
                            self.lemma_sorted(i, k as int);
                        } else if k < i {
                            self.lemma_sorted(k as int, i);
                        }
                    }
                    vstd::arithmetic::div_mod::lemma_div_pos_is_pos(
                        (ptr - region.start) as int,
                        elem_size as int,
                    );
                    vstd::arithmetic::div_mod::lemma_div_is_ordered_by_denominator(
                        (ptr - region.start) as int,
                        1,
                        elem_size as int,
                    );
                }
                return Some((ptr - region.start) / elem_size);
            }
            k = k + 1;
        }
        None
    }
}

} // verus!
