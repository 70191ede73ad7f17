//! What holds over a whole history of requests.
//!
//! The contracts of the allocators speak of one call. The theorems here
//! follow an allocator through any sequence of calls: the regions that a bump
//! allocator hands out never overlap and keep their order, giving back every
//! byte allocation empties the byte area, and a free-list allocator stays
//! well formed with an exact count of its bytes.

use crate::align::{lemma_round_down, lemma_round_up};
use crate::bump::{page_align, BumpState};
use crate::free_list::{lemma_after_alloc_wf, lemma_after_dealloc_wf, FreeListState};
use vstd::prelude::*;

verus! {

/// One request for memory put to a bump allocator.
pub enum BumpRequest {
    /// `size` bytes at a multiple of `align`.
    Bytes { size: int, align: int },
    /// `count` pages at a multiple of `align_pow2` and of the page size.
    Pages { count: int, align_pow2: int },
}

impl BumpRequest {
    /// The request asks for a sensible amount at a sensible alignment.
    pub open spec fn wf(self) -> bool {
        match self {
            BumpRequest::Bytes { size, align } => size >= 0 && align > 0,
            BumpRequest::Pages { count, align_pow2 } => count >= 0 && align_pow2 > 0,
        }
    }

    /// The number of bytes asked for.
    pub open spec fn bytes(self, page_size: int) -> int {
        match self {
            BumpRequest::Bytes { size, align } => size,
            BumpRequest::Pages { count, align_pow2 } => count * page_size,
        }
    }
}

impl BumpState {
    /// Whether the allocator grants the request.
    pub open spec fn accepts(self, req: BumpRequest, page_size: int) -> bool {
        match req {
            BumpRequest::Bytes { size, align } => self.can_alloc_bytes(size, align),
            BumpRequest::Pages { count, align_pow2 } => self.can_alloc_pages(
                count,
                page_align(align_pow2, page_size),
                page_size,
            ),
        }
    }

    /// The address that the request gets.
    pub open spec fn addr_of(self, req: BumpRequest, page_size: int) -> int {
        match req {
            BumpRequest::Bytes { size, align } => self.byte_addr(align),
            BumpRequest::Pages { count, align_pow2 } => self.page_addr(
                count,
                page_align(align_pow2, page_size),
                page_size,
            ),
        }
    }

    /// The state after the request was granted.
    pub open spec fn serve(self, req: BumpRequest, page_size: int) -> BumpState {
        match req {
            BumpRequest::Bytes { size, align } => self.alloc_bytes(size, align),
            BumpRequest::Pages { count, align_pow2 } => self.alloc_pages(
                count,
                page_align(align_pow2, page_size),
                page_size,
            ),
        }
    }

    /// The state after all of `reqs` were granted, first to last.
    pub open spec fn serve_all(self, reqs: Seq<BumpRequest>, page_size: int) -> BumpState
        decreases reqs.len(),
    {
        if reqs.len() == 0 {
            self
        } else {
            self.serve_all(reqs.drop_last(), page_size).serve(reqs.last(), page_size)
        }
    }

    /// Whether each of `reqs` is granted in the state that the requests
    /// before it leave.
    pub open spec fn grants_all(self, reqs: Seq<BumpRequest>, page_size: int) -> bool {
        forall|i: int|
            0 <= i < reqs.len() ==> (#[trigger] reqs[i]).wf() && self.serve_all(
                reqs.take(i),
                page_size,
            ).accepts(reqs[i], page_size)
    }

    /// The address that the `i`-th of `reqs` gets.
    pub open spec fn addr_in(self, reqs: Seq<BumpRequest>, page_size: int, i: int) -> int {
        self.serve_all(reqs.take(i), page_size).addr_of(reqs[i], page_size)
    }

    /// The state after `n` byte allocations were given back.
    pub open spec fn dealloc_times(self, n: nat) -> BumpState
        decreases n,
    {
        if n == 0 {
            self
        } else {
            self.dealloc_times((n - 1) as nat).dealloc_bytes()
        }
    }
}

/// The state after the first `k + 1` requests is the state after the first
/// `k`, with the `k`-th request served.
proof fn lemma_serve_next(s: BumpState, reqs: Seq<BumpRequest>, page_size: int, k: int)
    requires
        0 <= k < reqs.len(),
    ensures
        s.serve_all(reqs.take(k + 1), page_size) == s.serve_all(reqs.take(k), page_size).serve(
            reqs[k],
            page_size,
        ),
{
    assert(reqs.take(k + 1).drop_last() =~= reqs.take(k));
}

/// A granted request gets a region between the two cursors, and the cursors
/// only move towards each other.
proof fn lemma_serve_one(s: BumpState, req: BumpRequest, page_size: int)
    requires
        s.wf(),
        req.wf(),
        page_size > 0,
        s.accepts(req, page_size),
    ensures
        s.serve(req, page_size).wf(),
        s.serve(req, page_size).start == s.start,
        s.serve(req, page_size).end == s.end,
        s.byte_cursor <= s.serve(req, page_size).byte_cursor,
        s.serve(req, page_size).page_cursor <= s.page_cursor,
        s.byte_cursor <= s.addr_of(req, page_size),
        s.addr_of(req, page_size) + req.bytes(page_size) <= s.page_cursor,
        req is Bytes ==> s.addr_of(req, page_size) + req.bytes(page_size) == s.serve(
            req,
            page_size,
        ).byte_cursor,
        req is Pages ==> s.addr_of(req, page_size) == s.serve(req, page_size).page_cursor,
        req.bytes(page_size) >= 0,
{
    match req {
        BumpRequest::Bytes { size, align } => {
            lemma_round_up(s.byte_cursor, align);
        },
        BumpRequest::Pages { count, align_pow2 } => {
            assert(count * page_size >= 0) by (nonlinear_arith)
                requires
                    count >= 0,
                    page_size > 0,
            ;
            lemma_round_down(
                s.page_cursor - count * page_size,
                page_align(align_pow2, page_size),
            );
        },
    }
}

/// While requests are granted the state stays well formed, the range stays
/// the same and the cursors only move towards each other.
pub proof fn lemma_cursors_close_in(
    s: BumpState,
    reqs: Seq<BumpRequest>,
    page_size: int,
    i: int,
    k: int,
)
    requires
        s.wf(),
        page_size > 0,
        s.grants_all(reqs, page_size),
        0 <= i <= k <= reqs.len(),
    ensures
        s.serve_all(reqs.take(k), page_size).wf(),
        s.serve_all(reqs.take(k), page_size).start == s.start,
        s.serve_all(reqs.take(k), page_size).end == s.end,
        s.serve_all(reqs.take(i), page_size).byte_cursor <= s.serve_all(
            reqs.take(k),
            page_size,
        ).byte_cursor,
        s.serve_all(reqs.take(k), page_size).page_cursor <= s.serve_all(
            reqs.take(i),
            page_size,
        ).page_cursor,
    decreases k,
{
    if k == 0 {
        assert(reqs.take(0) =~= Seq::<BumpRequest>::empty());
    } else {
        let before = s.serve_all(reqs.take(k - 1), page_size);
        lemma_serve_next(s, reqs, page_size, k - 1);
        if i == k {
            lemma_cursors_close_in(s, reqs, page_size, k - 1, k - 1);
        } else {
            lemma_cursors_close_in(s, reqs, page_size, i, k - 1);
        }
        assert(reqs[k - 1].wf());
        lemma_serve_one(before, reqs[k - 1], page_size);
    }
}

/// Over any sequence of granted requests, no two regions overlap. Byte
/// regions follow each other upwards, page regions downwards, and every byte
/// region lies below every page region. All of them lie between the cursors
/// that the sequence began with.
pub proof fn lemma_regions_never_overlap(
    s: BumpState,
    reqs: Seq<BumpRequest>,
    page_size: int,
    i: int,
    j: int,
)
    requires
        s.wf(),
        page_size > 0,
        s.grants_all(reqs, page_size),
        0 <= i < j < reqs.len(),
    ensures
        ({
            let first = s.addr_in(reqs, page_size, i);
            let first_len = reqs[i].bytes(page_size);
            let second = s.addr_in(reqs, page_size, j);
            let second_len = reqs[j].bytes(page_size);
            &&& s.byte_cursor <= first && first + first_len <= s.page_cursor
            &&& s.byte_cursor <= second && second + second_len <= s.page_cursor
            &&& reqs[i] is Bytes ==> first + first_len <= second
            &&& reqs[i] is Pages ==> second + second_len <= first
            &&& reqs[i] is Bytes && reqs[j] is Bytes && first_len > 0 ==> first < second
            &&& reqs[i] is Pages && reqs[j] is Pages && second_len > 0 ==> second < first
        }),
{
    let at_i = s.serve_all(reqs.take(i), page_size);
    let after_i = s.serve_all(reqs.take(i + 1), page_size);
    let at_j = s.serve_all(reqs.take(j), page_size);
    lemma_cursors_close_in(s, reqs, page_size, 0, i);
    lemma_cursors_close_in(s, reqs, page_size, i + 1, j);
    lemma_cursors_close_in(s, reqs, page_size, 0, j);
    assert(reqs.take(0) =~= Seq::<BumpRequest>::empty());
    lemma_serve_next(s, reqs, page_size, i);
    assert(reqs[i].wf() && reqs[j].wf());
    lemma_serve_one(at_i, reqs[i], page_size);
    lemma_serve_one(at_j, reqs[j], page_size);
}

/// Giving back as many byte allocations as are outstanding, or more, empties
/// the byte area: nothing is in use and everything below the pages is
/// available. Giving back fewer leaves the byte area as it was.
pub proof fn lemma_dealloc_times(s: BumpState, n: nat)
    requires
        s.wf(),
    ensures
        s.dealloc_times(n).wf(),
        s.dealloc_times(n).start == s.start,
        s.dealloc_times(n).end == s.end,
        s.dealloc_times(n).page_cursor == s.page_cursor,
        n > 0 && n >= s.live ==> s.dealloc_times(n).live == 0 && s.dealloc_times(n).used_bytes()
            == 0 && s.dealloc_times(n).available_bytes() == s.page_cursor - s.start,
        n < s.live ==> s.dealloc_times(n).live == s.live - n && s.dealloc_times(n).used_bytes()
            == s.used_bytes(),
    decreases n,
{
    if n > 0 {
        lemma_dealloc_times(s, (n - 1) as nat);
    }
}

/// One call to a free-list allocator that changes its state.
pub enum FreeListCall {
    /// A request for `size` bytes at a multiple of `align`.
    Alloc { size: usize, align: int },
    /// The allocation at `addr` is given back.
    Dealloc { addr: usize },
}

impl FreeListState {
    /// The state after the call.
    pub open spec fn after(self, call: FreeListCall) -> FreeListState {
        match call {
            FreeListCall::Alloc { size, align } => self.after_alloc(size, align),
            FreeListCall::Dealloc { addr } => self.after_dealloc(addr),
        }
    }

    /// The state after all of `calls`, first to last.
    pub open spec fn after_all(self, calls: Seq<FreeListCall>) -> FreeListState
        decreases calls.len(),
    {
        if calls.len() == 0 {
            self
        } else {
            self.after_all(calls.drop_last()).after(calls.last())
        }
    }
}

/// Whether every allocation among `calls` has a positive alignment.
pub open spec fn aligns_positive(calls: Seq<FreeListCall>) -> bool {
    forall|i: int|
        0 <= i < calls.len() ==> (#[trigger] calls[i] matches FreeListCall::Alloc { size, align }
            ==> align > 0)
}

/// Whether every allocation among `calls` asks for at least one byte.
pub open spec fn sizes_positive(calls: Seq<FreeListCall>) -> bool {
    forall|i: int|
        0 <= i < calls.len() ==> (#[trigger] calls[i] matches FreeListCall::Alloc { size, align }
            ==> size > 0)
}

/// After any sequence of allocations and deallocations the live allocations
/// of a free-list allocator lie inside its range and do not overlap. Where
/// no allocation asks for zero bytes, the bytes counted as used are exactly
/// the sum of the live lengths.
pub proof fn lemma_free_list_stays_wf(s: FreeListState, calls: Seq<FreeListCall>)
    requires
        s.wf(),
        aligns_positive(calls),
    ensures
        s.after_all(calls).wf(),
        s.counted() && sizes_positive(calls) ==> s.after_all(calls).counted(),
    decreases calls.len(),
{
    if calls.len() > 0 {
        let before = calls.drop_last();
        assert forall|i: int| 0 <= i < before.len() implies (#[trigger] before[i] matches FreeListCall::Alloc {
            size,
            align,
        } ==> align > 0) by {
            assert(before[i] == calls[i]);
        }
        if sizes_positive(calls) {
            assert forall|i: int| 0 <= i < before.len() implies (#[trigger] before[i] matches FreeListCall::Alloc {
                size,
                align,
            } ==> size > 0) by {
                assert(before[i] == calls[i]);
            }
        }
        lemma_free_list_stays_wf(s, before);
        let mid = s.after_all(before);
        let last = calls[calls.len() - 1];
        match last {
            FreeListCall::Alloc { size, align } => {
                lemma_after_alloc_wf(mid, size, align);
            },
            FreeListCall::Dealloc { addr } => {
                lemma_after_dealloc_wf(mid, addr);
            },
        }
    }
}

} // verus!
