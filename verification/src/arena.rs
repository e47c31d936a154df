//! A region of memory that is handed out piece by piece and never taken
//! back: the allocator of a target without a heap.
//!
//! The arena works on addresses as numbers. What makes an address a piece
//! of memory is left to the program that owns the region.
use vstd::prelude::*;

verus! {

/// The first address at or above `at` that is a multiple of `align`.
pub open spec fn aligned_up(at: int, align: int) -> int
    recommends
        align > 0,
{
    if at % align == 0 {
        at
    } else {
        at + align - at % align
    }
}

/// The address that [`aligned_up`] gives is aligned, and it is the first
/// such address: fewer than `align` addresses lie between `at` and it.
pub proof fn lemma_aligned_up(at: int, align: int)
    requires
        at >= 0,
        align > 0,
    ensures
        aligned_up(at, align) % align == 0,
        at <= aligned_up(at, align) < at + align,
{
    vstd::arithmetic::div_mod::lemma_fundamental_div_mod(at, align);
    if at % align != 0 {
        let q = at / align;
        assert(aligned_up(at, align) == align * (q + 1)) by (nonlinear_arith)
            requires
                at == align * q + at % align,
                aligned_up(at, align) == at + align - at % align,
        ;
        vstd::arithmetic::div_mod::lemma_mod_multiples_basic(q + 1, align);
        assert(align * (q + 1) == (q + 1) * align) by (nonlinear_arith);
    }
}

/// Allocator for single core systems: a pointer that is bumped through a
/// region of memory.
pub struct BumpPointerAlloc {
    head: usize,
    end: usize,
}

impl BumpPointerAlloc {
    /// The first address that was not handed out.
    pub closed spec fn head(&self) -> int {
        self.head as int
    }

    /// The address behind the region.
    pub closed spec fn end(&self) -> int {
        self.end as int
    }

    /// An arena over the addresses from `head` up to `end`.
    pub fn new(head: usize, end: usize) -> (arena: BumpPointerAlloc)
        ensures
            arena.head() == head,
            arena.end() == end,
    {
        BumpPointerAlloc { head, end }
    }

    /// Hands out `size` addresses from the first one that is a multiple of
    /// `align`, and returns that one; nothing where they do not fit into
    /// what is left of the region, and then nothing changes.
    pub fn allocate(&mut self, size: usize, align: usize) -> (r: Option<usize>)
        requires
            align > 0,
        ensures
            final(self).end() == old(self).end(),
            r is Some <==> aligned_up(old(self).head(), align as int) + size <= old(self).end(),
            r matches Some(start) ==> start == aligned_up(old(self).head(), align as int)
                && final(self).head() == start + size,
            r is None ==> final(self).head() == old(self).head(),
    {
        proof {
            lemma_aligned_up(self.head as int, align as int);
        }
        let rest: usize = self.head % align;
        // move start up to the next alignment boundary
        let start: usize = if rest == 0 {
            self.head
        } else {
            match self.head.checked_add(align - rest) {
                Some(start) => start,
                None => {
                    return None;
                },
            }
        };
        match start.checked_add(size) {
            Some(next) => {
                if next > self.end {
                    None
                } else {
                    self.head = next;
                    Some(start)
                }
            },
            None => None,
        }
    }

    /// Takes memory back: this allocator never does, and nothing changes.
    pub fn deallocate(&mut self, _start: usize, _size: usize)
        ensures
            *final(self) == *old(self),
    {
    }
}

} // verus!
