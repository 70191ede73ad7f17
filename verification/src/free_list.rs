//! A byte allocator that records every live allocation.
//!
//! The allocator keeps a map from the address of each live allocation to its
//! length. A request is served from the first gap, in address order, that can
//! hold it once its start is rounded up to the alignment asked for. Giving an
//! allocation back removes its entry, and the space is free for the next
//! request without any merging of neighbours.

use crate::align::{align_up, is_aligned, lemma_pow2_positive, lemma_round_up, round_up};
use crate::error::AllocError;
use crate::order::{
    entries_in_order, lemma_entries_in_order, lemma_iter_lists, lemma_total_len_empty,
    lemma_total_len_insert, lemma_total_len_remove, lemma_word_keys_ordered, lists, total_len,
};
use std::collections::BTreeMap;
use vstd::arithmetic::power2::is_pow2;
use vstd::prelude::*;
use vstd::std_specs::iter::IteratorSpec;

verus! {

/// The address that a first-fit scan picks.
///
/// `entries` are the allocations that the scan has still to pass, lowest
/// address first, and `prev` is where the gap before the first of them
/// begins. A gap is taken when the request fits between its rounded-up start
/// and the allocation that ends it. After the last allocation the space up to
/// `end` is tried in the same way, unless nothing is left of it.
pub open spec fn first_fit(
    entries: Seq<(usize, usize)>,
    prev: int,
    end: int,
    size: int,
    align: int,
) -> Option<int>
    decreases entries.len(),
{
    let at = round_up(prev, align);
    if entries.len() == 0 {
        if prev < end && at + size <= end {
            Some(at)
        } else {
            None
        }
    } else if at + size <= entries[0].0 {
        Some(at)
    } else {
        first_fit(entries.drop_first(), entries[0].0 + entries[0].1, end, size, align)
    }
}

/// Whether the allocations of `entries` lie inside `[lo, hi)`, in address
/// order and without overlap.
pub open spec fn packed(entries: Seq<(usize, usize)>, lo: int, hi: int) -> bool {
    &&& forall|i: int|
        0 <= i < entries.len() ==> lo <= (#[trigger] entries[i]).0 && entries[i].0 + entries[i].1
            <= hi
    &&& forall|i: int, j: int|
        0 <= i < j < entries.len() ==> (#[trigger] entries[i]).0 + entries[i].1 <= (
        #[trigger] entries[j]).0
}

/// Whether `size` bytes at `addr` touch none of the allocations of `entries`.
pub open spec fn clear_of(entries: Seq<(usize, usize)>, addr: int, size: int) -> bool {
    forall|i: int|
        0 <= i < entries.len() ==> (#[trigger] entries[i]).0 + entries[i].1 <= addr || addr + size
            <= entries[i].0
}

/// What a free-list allocator knows, as plain values.
pub struct FreeListState {
    /// First address of the managed range.
    pub start: int,
    /// One past the last address of the managed range.
    pub end: int,
    /// The live allocations: address to length.
    pub live: Map<usize, usize>,
    /// The running count of allocated bytes.
    pub used: int,
}

impl FreeListState {
    /// The range lies within the machine's addresses, the live allocations
    /// lie inside the range and do not overlap, and the running count covers
    /// them without exceeding the range.
    pub open spec fn wf(self) -> bool {
        &&& 0 <= self.start <= self.end <= usize::MAX
        &&& forall|a: usize| #[trigger]
            self.live.contains_key(a) ==> self.start <= a && a + self.live[a] <= self.end
        &&& forall|a: usize, b: usize|
            #![trigger self.live.contains_key(a), self.live.contains_key(b)]
            self.live.contains_key(a) && self.live.contains_key(b) && a < b ==> a + self.live[a]
                <= b
        &&& total_len(self.live) <= self.used <= self.end - self.start
    }

    /// The running count is exactly the sum of the live lengths.
    pub open spec fn counted(self) -> bool {
        self.used == total_len(self.live)
    }

    /// No allocation is live and nothing is counted as used.
    pub open spec fn unused(self) -> bool {
        &&& self.live == Map::<usize, usize>::empty()
        &&& self.used == 0
    }

    /// The state right after the range `[start, start + size)` was handed to
    /// an allocator that holds nothing.
    pub open spec fn fresh(start: int, size: int) -> FreeListState {
        FreeListState { start, end: start + size, live: Map::empty(), used: 0 }
    }

    /// Whether `size` bytes at `addr` are a legal place for an allocation:
    /// aligned, inside the range and clear of every live allocation.
    pub open spec fn free_at(self, addr: int, size: int, align: int) -> bool {
        &&& is_aligned(addr, align)
        &&& self.start <= addr
        &&& addr + size <= self.end
        &&& forall|a: usize| #[trigger]
            self.live.contains_key(a) ==> a + self.live[a] <= addr || addr + size <= a
    }

    /// The address that a first-fit scan over the live allocations picks.
    pub open spec fn first_fit(self, size: int, align: int) -> Option<int> {
        first_fit(entries_in_order(self.live), self.start, self.end, size, align)
    }

    /// What an allocation returns: `NoMemory` when the running count leaves
    /// no room for the request, else the first fit, else `NotAllocated`.
    pub open spec fn alloc_result(self, size: int, align: int) -> Result<usize, AllocError> {
        if self.used + size > self.end - self.start {
            Err(AllocError::NoMemory)
        } else {
            match self.first_fit(size, align) {
                Some(at) => Ok(at as usize),
                None => Err(AllocError::NotAllocated),
            }
        }
    }

    /// The state after an allocation: on success the new entry is recorded
    /// and counted, on failure nothing changes.
    pub open spec fn after_alloc(self, size: usize, align: int) -> FreeListState {
        match self.alloc_result(size as int, align) {
            Ok(at) => FreeListState {
                live: self.live.insert(at, size),
                used: self.used + size,
                ..self
            },
            Err(_) => self,
        }
    }

    /// The state after the allocation at `addr` was given back: its entry is
    /// gone and its recorded length no longer counted. An address that holds
    /// no allocation changes nothing.
    pub open spec fn after_dealloc(self, addr: usize) -> FreeListState {
        if self.live.contains_key(addr) {
            FreeListState {
                live: self.live.remove(addr),
                used: self.used - self.live[addr],
                ..self
            }
        } else {
            self
        }
    }

    /// Size of the managed range.
    pub open spec fn total_bytes(self) -> int {
        self.end - self.start
    }

    /// The running count of allocated bytes.
    pub open spec fn used_bytes(self) -> int {
        self.used
    }

    /// What the running count leaves of the range.
    pub open spec fn available_bytes(self) -> int {
        self.end - self.start - self.used
    }
}

/// The live allocations of a well-formed state, walked in address order, are
/// packed into its range.
pub proof fn lemma_wf_packed(s: FreeListState)
    requires
        s.wf(),
    ensures
        packed(entries_in_order(s.live), s.start, s.end),
        lists(entries_in_order(s.live), s.live),
{
    lemma_entries_in_order(s.live);
    let e = entries_in_order(s.live);
    assert forall|i: int| 0 <= i < e.len() implies s.start <= (#[trigger] e[i]).0 && e[i].0
        + e[i].1 <= s.end by {
        assert(s.live.contains_key(e[i].0));
    }
    assert forall|i: int, j: int| 0 <= i < j < e.len() implies (#[trigger] e[i]).0 + e[i].1 <= (
    #[trigger] e[j]).0 by {
        assert(s.live.contains_key(e[i].0));
        assert(s.live.contains_key(e[j].0));
    }
}

/// What a first-fit scan picks is aligned, lies at or above where the scan
/// began, ends inside the range and touches none of the allocations that the
/// scan passed or had still to pass.
pub proof fn lemma_first_fit_sound(
    entries: Seq<(usize, usize)>,
    prev: int,
    end: int,
    size: int,
    align: int,
)
    requires
        packed(entries, prev, end),
        size >= 0,
        align > 0,
    ensures
        first_fit(entries, prev, end, size, align) matches Some(at) ==> {
            &&& is_aligned(at, align)
            &&& prev <= at
            &&& at + size <= end
            &&& clear_of(entries, at, size)
        },
    decreases entries.len(),
{
    lemma_round_up(prev, align);
    let at = round_up(prev, align);
    if entries.len() > 0 && !(at + size <= entries[0].0) {
        let rest = entries.drop_first();
        let next = entries[0].0 + entries[0].1;
        assert forall|i: int| 0 <= i < rest.len() implies next <= (#[trigger] rest[i]).0
            && rest[i].0 + rest[i].1 <= end by {
            assert(rest[i] == entries[i + 1]);
        }
        assert forall|i: int, j: int| 0 <= i < j < rest.len() implies (#[trigger] rest[i]).0
            + rest[i].1 <= (#[trigger] rest[j]).0 by {
            assert(rest[i] == entries[i + 1]);
            assert(rest[j] == entries[j + 1]);
        }
        lemma_first_fit_sound(rest, next, end, size, align);
        if let Some(found) = first_fit(rest, next, end, size, align) {
            assert forall|i: int| 0 <= i < entries.len() implies (#[trigger] entries[i]).0
                + entries[i].1 <= found || found + size <= entries[i].0 by {
                if i > 0 {
                    assert(entries[i] == rest[i - 1]);
                }
            }
        }
    } else if entries.len() > 0 {
        assert forall|i: int| 0 <= i < entries.len() implies (#[trigger] entries[i]).0
            + entries[i].1 <= at || at + size <= entries[i].0 by {
            if i > 0 {
                assert(entries[0].0 + entries[0].1 <= entries[i].0);
            }
        }
    }
}

/// A first-fit scan passes no place where the request would fit: if `size`
/// bytes, at least one, fit at an aligned address `addr` at or above where
/// the scan began, the scan picks an address that is at most `addr`.
pub proof fn lemma_first_fit_lowest(
    entries: Seq<(usize, usize)>,
    prev: int,
    end: int,
    size: int,
    align: int,
    addr: int,
)
    requires
        size > 0,
        align > 0,
        is_aligned(addr, align),
        prev <= addr,
        addr + size <= end,
        clear_of(entries, addr, size),
    ensures
        first_fit(entries, prev, end, size, align) matches Some(at) && at <= addr,
    decreases entries.len(),
{
    lemma_round_up(prev, align);
    let at = round_up(prev, align);
    if entries.len() > 0 && !(at + size <= entries[0].0) {
        let rest = entries.drop_first();
        let next = entries[0].0 + entries[0].1;
        assert(entries[0].0 + entries[0].1 <= addr || addr + size <= entries[0].0);
        assert forall|i: int| 0 <= i < rest.len() implies (#[trigger] rest[i]).0 + rest[i].1
            <= addr || addr + size <= rest[i].0 by {
            assert(rest[i] == entries[i + 1]);
        }
        lemma_first_fit_lowest(rest, next, end, size, align, addr);
    }
}

/// The first-fit policy, said without the scan: the address that an
/// allocation of at least one byte gets is a legal place for it, and no lower
/// address is; where the scan finds nothing, no address is a legal place.
pub proof fn lemma_first_fit_is_lowest_free(s: FreeListState, size: int, align: int)
    requires
        s.wf(),
        size > 0,
        align > 0,
    ensures
        match s.first_fit(size, align) {
            Some(at) => s.free_at(at, size, align) && forall|addr: int|
                addr < at ==> !#[trigger] s.free_at(addr, size, align),
            None => forall|addr: int| !#[trigger] s.free_at(addr, size, align),
        },
{
    let e = entries_in_order(s.live);
    lemma_wf_packed(s);
    lemma_first_fit_free(s, size, align);
    assert forall|addr: int| #[trigger] s.free_at(addr, size, align) implies (s.first_fit(
        size,
        align,
    ) matches Some(at) && at <= addr) by {
        assert forall|i: int| 0 <= i < e.len() implies (#[trigger] e[i]).0 + e[i].1 <= addr
            || addr + size <= e[i].0 by {
            assert(s.live.contains_key(e[i].0));
        }
        lemma_first_fit_lowest(e, s.start, s.end, size, align, addr);
    }
}

/// What a first-fit scan over a well-formed state picks is a legal place for
/// the allocation.
pub proof fn lemma_first_fit_free(s: FreeListState, size: int, align: int)
    requires
        s.wf(),
        size >= 0,
        align > 0,
    ensures
        s.first_fit(size, align) matches Some(at) ==> s.free_at(at, size, align),
{
    let e = entries_in_order(s.live);
    lemma_wf_packed(s);
    lemma_first_fit_sound(e, s.start, s.end, size, align);
    if let Some(at) = s.first_fit(size, align) {
        assert forall|a: usize| #[trigger] s.live.contains_key(a) implies a + s.live[a] <= at || at
            + size <= a by {
            let i = choose|i: int| 0 <= i < e.len() && (#[trigger] e[i]).0 == a;
            assert(s.live.contains_pair(e[i].0, e[i].1));
        }
    }
}

/// Recording an allocation at a legal place keeps the state well formed. The
/// running count stays exact unless an allocation of no bytes took the
/// address of a live one.
pub proof fn lemma_after_alloc_wf(s: FreeListState, size: usize, align: int)
    requires
        s.wf(),
        align > 0,
    ensures
        s.after_alloc(size, align).wf(),
        s.counted() && size > 0 ==> s.after_alloc(size, align).counted(),
        s.alloc_result(size as int, align) matches Ok(at) ==> s.free_at(
            at as int,
            size as int,
            align,
        ),
{
    lemma_first_fit_free(s, size as int, align);
    if let Ok(at) = s.alloc_result(size as int, align) {
        lemma_total_len_insert(s.live, at, size);
        let t = s.after_alloc(size, align);
        assert(s.free_at(at as int, size as int, align));
        assert forall|a: usize, b: usize|
            #![trigger t.live.contains_key(a), t.live.contains_key(b)]
            t.live.contains_key(a) && t.live.contains_key(b) && a < b implies a + t.live[a]
            <= b by {
            if a != at {
                assert(s.live.contains_key(a));
            }
            if b != at {
                assert(s.live.contains_key(b));
            }
        }
        assert forall|a: usize| #[trigger] t.live.contains_key(a) implies t.start <= a && a
            + t.live[a] <= t.end by {
            if a != at {
                assert(s.live.contains_key(a));
            }
        }
        if s.live.contains_key(at) {
            assert(at + s.live[at] <= at || at + size <= at);
        }
    }
}

/// Giving an allocation back keeps the state well formed and the running
/// count exact.
pub proof fn lemma_after_dealloc_wf(s: FreeListState, addr: usize)
    requires
        s.wf(),
    ensures
        s.after_dealloc(addr).wf(),
        s.counted() ==> s.after_dealloc(addr).counted(),
{
    lemma_total_len_remove(s.live, addr);
    let t = s.after_dealloc(addr);
    assert forall|a: usize, b: usize|
        #![trigger t.live.contains_key(a), t.live.contains_key(b)]
        t.live.contains_key(a) && t.live.contains_key(b) && a < b implies a + t.live[a] <= b by {
        assert(s.live.contains_key(a));
        assert(s.live.contains_key(b));
    }
    assert forall|a: usize| #[trigger] t.live.contains_key(a) implies t.start <= a && a
        + t.live[a] <= t.end by {
        assert(s.live.contains_key(a));
    }
}

/// A byte allocator that serves each request from the first gap between its
/// live allocations that can hold it.
pub struct LabByteAllocator {
    start: usize,
    stop: usize,
    inner: BTreeMap<usize, usize>,
    used: usize,
}

impl View for LabByteAllocator {
    type V = FreeListState;

    closed spec fn view(&self) -> FreeListState {
        FreeListState {
            start: self.start as int,
            end: self.stop as int,
            live: self.inner@,
            used: self.used as int,
        }
    }
}

impl LabByteAllocator {
    /// The allocator's state is well formed.
    pub open spec fn wf(&self) -> bool {
        self@.wf()
    }

    /// An allocator that manages nothing yet.
    pub fn new() -> (r: Self)
        ensures
            r@ == FreeListState::fresh(0, 0),
            r.wf(),
            r@.counted(),
    {
        proof {
            lemma_total_len_empty();
        }
        Self { start: 0, stop: 0, inner: BTreeMap::new(), used: 0 }
    }

    /// Whether the allocator holds no allocation and counts no byte as used,
    /// as it must when a range is handed to it.
    pub fn is_unused(&self) -> (r: bool)
        ensures
            r == self@.unused(),
    {
        let empty = self.inner.is_empty();
        proof {
            if empty {
                assert(self.inner@ =~= Map::<usize, usize>::empty());
            }
        }
        empty && self.used == 0
    }

    /// Hands the range `[start, start + size)` to an allocator that holds no
    /// allocation.
    pub fn init(&mut self, start: usize, size: usize)
        requires
            old(self)@.unused(),
            start + size <= usize::MAX,
        ensures
            final(self)@ == FreeListState::fresh(start as int, size as int),
            final(self).wf(),
            final(self)@.counted(),
    {
        proof {
            lemma_total_len_empty();
        }
        self.start = start;
        self.stop = start + size;
    }

    /// Adding a second range is not offered: the call always fails and
    /// changes nothing.
    pub fn add_memory(&mut self, start: usize, size: usize) -> (r: Result<(), AllocError>)
        ensures
            r == Err::<(), AllocError>(AllocError::Unsupported),
            final(self)@ == old(self)@,
    {
        Err(AllocError::Unsupported)
    }

    /// Allocates `size` bytes at an address that is a multiple of `align`.
    ///
    /// The request is turned down with `NoMemory` when the bytes counted as
    /// used leave no room for it. Otherwise the gaps between the live
    /// allocations are tried from the lowest address up, each from its start
    /// rounded up to `align`, and the space behind the last allocation is
    /// tried last. The first gap that holds the request gets it; when none
    /// does the request is turned down with `NotAllocated`. A request that
    /// is turned down changes nothing.
    pub fn alloc_bytes(&mut self, size: usize, align: usize) -> (r: Result<usize, AllocError>)
        requires
            old(self).wf(),
            is_pow2(align as int),
        ensures
            final(self).wf(),
            r == old(self)@.alloc_result(size as int, align as int),
            final(self)@ == old(self)@.after_alloc(size, align as int),
            old(self)@.counted() && size > 0 ==> final(self)@.counted(),
            r matches Ok(addr) ==> old(self)@.free_at(addr as int, size as int, align as int),
            r is Err ==> final(self)@ == old(self)@,
            size > old(self)@.available_bytes() ==> r is Err,
    {
        broadcast use vstd::std_specs::btree::group_btree_axioms;

        proof {
            lemma_pow2_positive(align as int);
            lemma_after_alloc_wf(self@, size, align as int);
            lemma_wf_packed(self@);
            lemma_word_keys_ordered();
        }
        let total = self.stop - self.start;
        if size > total || self.used > total - size {
            return Err(AllocError::NoMemory);
        }
        let ghost entries = entries_in_order(self.inner@);
        let ghost goal = self@.first_fit(size as int, align as int);
        let mut prev = self.start;
        let it = self.inner.iter();
        proof {
            lemma_iter_lists(&self.inner, it.remaining());
            assert(entries.skip(0) =~= entries);
        }
        for kv in iter: it
            invariant
                *self == *old(self),
                old(self).wf(),
                is_pow2(align as int),
                self.used + size <= self.stop - self.start,
                packed(entries, self.start as int, self.stop as int),
                iter.seq().unref() == entries,
                self.start <= prev <= self.stop,
                goal == first_fit(
                    entries.skip(iter.index()),
                    prev as int,
                    self.stop as int,
                    size as int,
                    align as int,
                ),
                goal == old(self)@.first_fit(size as int, align as int),
        {
            let ghost i = iter.index();
            let (ptr, len) = kv;
            let gap_end = *ptr;
            proof {
                assert(entries[i] == (*ptr, *len));
                assert(entries.skip(i)[0] == entries[i]);
                assert(entries.skip(i).drop_first() =~= entries.skip(i + 1));
            }
            if let Some(aligned_start) = align_up(prev, align) {
                if size <= gap_end && aligned_start <= gap_end - size {
                    proof {
                        lemma_pow2_positive(align as int);
                        lemma_after_alloc_wf(self@, size, align as int);
                        lemma_word_keys_ordered();
                    }
                    self.inner.insert(aligned_start, size);
                    self.used += size;
                    return Ok(aligned_start);
                }
            }
            prev = gap_end + *len;
        }
        let gap_start = prev;
        let gap_end = self.stop;
        proof {
            assert(entries.skip(entries.len() as int) =~= Seq::<(usize, usize)>::empty());
        }
        if gap_end > gap_start {
            if let Some(aligned_start) = align_up(gap_start, align) {
                if size <= gap_end && aligned_start <= gap_end - size {
                    self.inner.insert(aligned_start, size);
                    self.used += size;
                    return Ok(aligned_start);
                }
            }
        }
        Err(AllocError::NotAllocated)
    }

    /// Gives the allocation at `pos` back.
    ///
    /// Its entry is removed and the length recorded for it is no longer
    /// counted as used. Size and alignment are not looked at, and an address
    /// that holds no allocation changes nothing.
    pub fn dealloc(&mut self, pos: usize, size: usize, align: usize)
        requires
            old(self).wf(),
        ensures
            final(self).wf(),
            final(self)@ == old(self)@.after_dealloc(pos),
            old(self)@.counted() ==> final(self)@.counted(),
    {
        broadcast use vstd::std_specs::btree::group_btree_axioms;

        proof {
            lemma_after_dealloc_wf(self@, pos);
            lemma_word_keys_ordered();
            lemma_total_len_remove(self.inner@, pos);
        }
        if let Some(len) = self.inner.remove(&pos) {
            self.used -= len;
        } else {
            assert(self.inner@ =~= old(self).inner@);
        }
    }

    /// Size of the managed range in bytes.
    pub fn total_bytes(&self) -> (r: usize)
        requires
            self.wf(),
        ensures
            r == self@.total_bytes(),
    {
        self.stop - self.start
    }

    /// The running count of allocated bytes.
    pub fn used_bytes(&self) -> (r: usize)
        ensures
            r == self@.used_bytes(),
    {
        self.used
    }

    /// What the running count leaves of the range.
    pub fn available_bytes(&self) -> (r: usize)
        requires
            self.wf(),
        ensures
            r == self@.available_bytes(),
    {
        self.total_bytes() - self.used
    }
}

} // verus!
