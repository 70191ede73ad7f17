//! A double-ended bump allocator.
//!
//! One range of addresses serves two kinds of request. Bytes are handed out
//! from the low end, pages from the high end, and the two cursors move
//! towards each other:
//!
//! ```text
//! [ bytes in use | free | pages in use ]
//! start     byte_cursor  page_cursor  end
//! ```
//!
//! The byte area keeps only a count of the allocations that are outstanding.
//! When the count falls to zero the whole byte area is free again. Pages are
//! never given back.

use crate::align::{
    align_down, is_aligned, lemma_aligned_to_smaller, lemma_pow2_positive, lemma_round_down,
    lemma_round_up, lemma_round_up_fits, round_down, round_up,
};
use crate::error::AllocError;
use vstd::arithmetic::power2::is_pow2;
use vstd::prelude::*;

verus! {

/// What a bump allocator knows, as plain numbers.
pub struct BumpState {
    /// First address of the managed range.
    pub start: int,
    /// One past the last address of the managed range.
    pub end: int,
    /// Next free byte address; bytes in use lie below it.
    pub byte_cursor: int,
    /// Lowest address handed out as a page; pages in use lie at and above it.
    pub page_cursor: int,
    /// Number of byte allocations that are outstanding.
    pub live: int,
}

impl BumpState {
    /// The cursors lie inside the range and have not crossed.
    pub open spec fn wf(self) -> bool {
        &&& 0 <= self.start <= self.byte_cursor <= self.page_cursor <= self.end
        &&& 0 <= self.live
    }

    /// The state right after the range `[start, start + size)` was handed to
    /// the allocator.
    pub open spec fn fresh(start: int, size: int) -> BumpState {
        BumpState {
            start,
            end: start + size,
            byte_cursor: start,
            page_cursor: start + size,
            live: 0,
        }
    }

    /// The address that the next byte allocation with this alignment gets.
    pub open spec fn byte_addr(self, align: int) -> int {
        round_up(self.byte_cursor, align)
    }

    /// Whether `size` bytes at that address end at or below the page area.
    pub open spec fn can_alloc_bytes(self, size: int, align: int) -> bool {
        self.byte_addr(align) + size <= self.page_cursor
    }

    /// The state after a byte allocation that fits.
    pub open spec fn alloc_bytes(self, size: int, align: int) -> BumpState {
        BumpState { byte_cursor: self.byte_addr(align) + size, live: self.live + 1, ..self }
    }

    /// The state after one byte allocation was given back: the count goes
    /// down, never below zero, and at zero the byte area is empty again.
    pub open spec fn dealloc_bytes(self) -> BumpState {
        let live = if self.live > 0 {
            self.live - 1
        } else {
            0
        };
        BumpState {
            live,
            byte_cursor: if live == 0 {
                self.start
            } else {
                self.byte_cursor
            },
            ..self
        }
    }

    /// The address that an allocation of `count` pages of `page_size` bytes
    /// gets, aligned to `align`.
    pub open spec fn page_addr(self, count: int, align: int, page_size: int) -> int {
        round_down(self.page_cursor - count * page_size, align)
    }

    /// Whether those pages start at or above the byte area.
    pub open spec fn can_alloc_pages(self, count: int, align: int, page_size: int) -> bool {
        self.page_addr(count, align, page_size) >= self.byte_cursor
    }

    /// The state after a page allocation that fits.
    pub open spec fn alloc_pages(self, count: int, align: int, page_size: int) -> BumpState {
        BumpState { page_cursor: self.page_addr(count, align, page_size), ..self }
    }

    /// Size of the managed range.
    pub open spec fn total_bytes(self) -> int {
        self.end - self.start
    }

    /// Size of the byte area in use.
    pub open spec fn used_bytes(self) -> int {
        self.byte_cursor - self.start
    }

    /// Size of what lies between the two cursors.
    pub open spec fn available_bytes(self) -> int {
        self.page_cursor - self.byte_cursor
    }

    /// Number of whole pages in the managed range.
    pub open spec fn total_pages(self, page_size: int) -> int {
        (self.end - self.start) / page_size
    }

    /// Number of whole pages in the page area in use.
    pub open spec fn used_pages(self, page_size: int) -> int {
        (self.end - self.page_cursor) / page_size
    }

    /// Number of whole pages between the two cursors.
    pub open spec fn available_pages(self, page_size: int) -> int {
        (self.page_cursor - self.byte_cursor) / page_size
    }
}

/// The alignment that a page allocation really uses: the one asked for, but
/// at least a page.
pub open spec fn page_align(align_pow2: int, page_size: int) -> int {
    if align_pow2 > page_size {
        align_pow2
    } else {
        page_size
    }
}

/// Early memory allocator, for use before the regular byte and page
/// allocators can work.
///
/// Bytes are allocated forward from the start of the range, pages backward
/// from its end. Giving back the last outstanding byte allocation frees the
/// whole byte area; pages are never freed.
pub struct EarlyAllocator<const PAGE_SIZE: usize> {
    start: usize,
    end: usize,
    b_pos: usize,
    p_pos: usize,
    count: usize,
}

impl<const PAGE_SIZE: usize> View for EarlyAllocator<PAGE_SIZE> {
    type V = BumpState;

    closed spec fn view(&self) -> BumpState {
        BumpState {
            start: self.start as int,
            end: self.end as int,
            byte_cursor: self.b_pos as int,
            page_cursor: self.p_pos as int,
            live: self.count as int,
        }
    }
}

impl<const PAGE_SIZE: usize> EarlyAllocator<PAGE_SIZE> {
    /// The allocator's state is well formed and fits the machine word.
    pub open spec fn wf(&self) -> bool {
        &&& self@.wf()
        &&& self@.end <= usize::MAX
        &&& self@.live <= usize::MAX
    }

    /// An allocator that manages nothing yet.
    pub fn new() -> (r: Self)
        ensures
            r@ == BumpState::fresh(0, 0),
            r.wf(),
    {
        Self { start: 0, end: 0, b_pos: 0, p_pos: 0, count: 0 }
    }

    /// Whether `size` bytes aligned to `align` fit below the page area.
    pub fn can_alloc_bytes(&self, size: usize, align: usize) -> (r: bool)
        requires
            self.wf(),
            is_pow2(align as int),
        ensures
            r == self@.can_alloc_bytes(size as int, align as int),
    {
        proof {
            lemma_round_up_fits(self.b_pos, align);
            lemma_round_up(self.b_pos as int, align as int);
        }
        match self.b_pos.checked_add(align - 1) {
            Some(padded) => {
                let aligned_pos = align_down(padded, align);
                size <= self.p_pos && aligned_pos <= self.p_pos - size
            },
            None => false,
        }
    }

    /// Whether `num_pages` pages aligned to `align` fit above the byte area.
    pub fn can_alloc_pages(&self, num_pages: usize, align: usize) -> (r: bool)
        requires
            self.wf(),
            is_pow2(align as int),
        ensures
            r == self@.can_alloc_pages(num_pages as int, align as int, PAGE_SIZE as int),
    {
        proof {
            lemma_pow2_positive(align as int);
            lemma_round_down(self.p_pos - num_pages * PAGE_SIZE, align as int);
        }
        match num_pages.checked_mul(PAGE_SIZE) {
            Some(size) => {
                if size <= self.p_pos {
                    align_down(self.p_pos - size, align) >= self.b_pos
                } else {
                    false
                }
            },
            None => false,
        }
    }

    /// Hands the range `[start, start + size)` to the allocator. Whatever it
    /// managed before is forgotten.
    pub fn init(&mut self, start: usize, size: usize)
        requires
            start + size <= usize::MAX,
        ensures
            final(self)@ == BumpState::fresh(start as int, size as int),
            final(self).wf(),
    {
        self.start = start;
        self.end = start + size;
        self.b_pos = start;
        self.p_pos = self.end;
        self.count = 0;
    }

    /// Adding a second range is not offered: the call always fails and
    /// changes nothing.
    pub fn add_memory(&mut self, start: usize, size: usize) -> (r: Result<(), AllocError>)
        ensures
            r == Err::<(), AllocError>(AllocError::Unsupported),
            final(self)@ == old(self)@,
    {
        Err(AllocError::Unsupported)
    }

    /// Number of byte allocations that are outstanding.
    pub fn live_allocations(&self) -> (r: usize)
        ensures
            r == self@.live,
    {
        self.count
    }

    /// Allocates `size` bytes at the next address that is a multiple of
    /// `align`.
    ///
    /// The request is turned down with `NoMemory`, and nothing changes,
    /// exactly when the bytes would reach into the page area. Otherwise the
    /// address is the byte cursor rounded up, the cursor moves to the end of
    /// the new bytes and the count of outstanding allocations goes up.
    pub fn alloc_bytes(&mut self, size: usize, align: usize) -> (r: Result<usize, AllocError>)
        requires
            old(self).wf(),
            is_pow2(align as int),
            old(self)@.live < usize::MAX,
        ensures
            final(self).wf(),
            old(self)@.can_alloc_bytes(size as int, align as int) ==> r == Ok::<usize, AllocError>(
                old(self)@.byte_addr(align as int) as usize,
            ) && final(self)@ == old(self)@.alloc_bytes(size as int, align as int),
            !old(self)@.can_alloc_bytes(size as int, align as int) ==> r == Err::<
                usize,
                AllocError,
            >(AllocError::NoMemory) && final(self)@ == old(self)@,
            r matches Ok(addr) ==> {
                &&& is_aligned(addr as int, align as int)
                &&& old(self)@.byte_cursor <= addr
                &&& addr + size == final(self)@.byte_cursor
                &&& addr + size <= old(self)@.page_cursor
            },
            size > old(self)@.available_bytes() ==> r is Err,
    {
        proof {
            lemma_round_up_fits(self.b_pos, align);
            lemma_round_up(self.b_pos as int, align as int);
        }
        if !self.can_alloc_bytes(size, align) {
            return Err(AllocError::NoMemory);
        }
        let aligned_pos = align_down(self.b_pos + (align - 1), align);
        self.b_pos = aligned_pos + size;
        self.count += 1;
        Ok(aligned_pos)
    }

    /// Gives one byte allocation back.
    ///
    /// Only the count of outstanding allocations matters: it goes down by
    /// one, never below zero. When it reaches zero the whole byte area is
    /// free again; until then nothing is freed. Address, size and alignment
    /// are not looked at.
    pub fn dealloc(&mut self, pos: usize, size: usize, align: usize)
        requires
            old(self).wf(),
        ensures
            final(self).wf(),
            final(self)@ == old(self)@.dealloc_bytes(),
            old(self)@.live <= 1 ==> final(self)@.used_bytes() == 0 && final(self)@.available_bytes()
                == old(self)@.page_cursor - old(self)@.start,
            old(self)@.live > 1 ==> final(self)@.used_bytes() == old(self)@.used_bytes()
                && final(self)@.live == old(self)@.live - 1,
    {
        self.count = self.count.saturating_sub(1);
        if self.count == 0 {
            self.b_pos = self.start;
        }
    }

    /// Size of the managed range in bytes.
    pub fn total_bytes(&self) -> (r: usize)
        requires
            self.wf(),
        ensures
            r == self@.total_bytes(),
    {
        self.end - self.start
    }

    /// Size of the byte area in use.
    pub fn used_bytes(&self) -> (r: usize)
        requires
            self.wf(),
        ensures
            r == self@.used_bytes(),
    {
        self.b_pos - self.start
    }

    /// Size of what is still free between the byte area and the page area.
    pub fn available_bytes(&self) -> (r: usize)
        requires
            self.wf(),
        ensures
            r == self@.available_bytes(),
    {
        self.p_pos - self.b_pos
    }

    /// Allocates `num_pages` pages below the page area, at an address that
    /// is a multiple of both `align_pow2` and the page size.
    ///
    /// The request is turned down with `NoMemory`, and nothing changes,
    /// exactly when the pages would reach into the byte area. Otherwise the
    /// address is the page cursor, lowered by the size of the pages and
    /// rounded down, and the page cursor moves there.
    pub fn alloc_pages(&mut self, num_pages: usize, align_pow2: usize) -> (r: Result<
        usize,
        AllocError,
    >)
        requires
            old(self).wf(),
            is_pow2(align_pow2 as int),
            is_pow2(PAGE_SIZE as int),
        ensures
            final(self).wf(),
            ({
                let align = page_align(align_pow2 as int, PAGE_SIZE as int);
                let pre = old(self)@;
                &&& pre.can_alloc_pages(num_pages as int, align, PAGE_SIZE as int) ==> r == Ok::<
                    usize,
                    AllocError,
                >(pre.page_addr(num_pages as int, align, PAGE_SIZE as int) as usize)
                    && final(self)@ == pre.alloc_pages(num_pages as int, align, PAGE_SIZE as int)
                &&& !pre.can_alloc_pages(num_pages as int, align, PAGE_SIZE as int) ==> r == Err::<
                    usize,
                    AllocError,
                >(AllocError::NoMemory) && final(self)@ == pre
            }),
            r matches Ok(addr) ==> {
                &&& is_aligned(addr as int, align_pow2 as int)
                &&& is_aligned(addr as int, PAGE_SIZE as int)
                &&& old(self)@.byte_cursor <= addr
                &&& addr == final(self)@.page_cursor
                &&& addr + num_pages * PAGE_SIZE <= old(self)@.page_cursor
            },
            num_pages * PAGE_SIZE > old(self)@.available_bytes() ==> r is Err,
    {
        let align = if align_pow2 > PAGE_SIZE {
            align_pow2
        } else {
            PAGE_SIZE
        };
        proof {
            lemma_pow2_positive(align as int);
            lemma_round_down(self.p_pos - num_pages * PAGE_SIZE, align as int);
        }
        if !self.can_alloc_pages(num_pages, align) {
            return Err(AllocError::NoMemory);
        }
        let size = num_pages * PAGE_SIZE;
        let aligned_pos = align_down(self.p_pos - size, align);
        proof {
            lemma_aligned_to_smaller(aligned_pos as int, align as int, align_pow2 as int);
            lemma_aligned_to_smaller(aligned_pos as int, align as int, PAGE_SIZE as int);
        }
        self.p_pos = aligned_pos;
        Ok(aligned_pos)
    }

    /// Giving pages back is not offered: the call always fails and changes
    /// nothing.
    pub fn dealloc_pages(&mut self, pos: usize, num_pages: usize) -> (r: Result<(), AllocError>)
        ensures
            r == Err::<(), AllocError>(AllocError::Unsupported),
            final(self)@ == old(self)@,
    {
        Err(AllocError::Unsupported)
    }

    /// Number of whole pages in the managed range.
    pub fn total_pages(&self) -> (r: usize)
        requires
            self.wf(),
            PAGE_SIZE > 0,
        ensures
            r == self@.total_pages(PAGE_SIZE as int),
    {
        (self.end - self.start) / PAGE_SIZE
    }

    /// Number of whole pages in the page area in use.
    pub fn used_pages(&self) -> (r: usize)
        requires
            self.wf(),
            PAGE_SIZE > 0,
        ensures
            r == self@.used_pages(PAGE_SIZE as int),
    {
        (self.end - self.p_pos) / PAGE_SIZE
    }

    /// Number of whole pages that are still free between the two areas.
    pub fn available_pages(&self) -> (r: usize)
        requires
            self.wf(),
            PAGE_SIZE > 0,
        ensures
            r == self@.available_pages(PAGE_SIZE as int),
    {
        (self.p_pos - self.b_pos) / PAGE_SIZE
    }
}

} // verus!
