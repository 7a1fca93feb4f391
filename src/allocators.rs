use vstd::prelude::*;

use crate::block::round_up;
use crate::block::{self, Size};
use crate::{Allocator, Error, Location, Range};

verus! {

/// An allocator that carves block-aligned extents out of a whole medium, around a
/// reserved region at a fixed spot that is never handed out.
pub struct ArenaAllocator {
    efh_range: Range,
    low: Range,
    high: Range,
}

impl ArenaAllocator {
    /// The reserved region, carved out at construction.
    pub closed spec fn reserved(self) -> Range {
        self.efh_range
    }

    /// The free pool below the reserved region.
    pub closed spec fn low_pool(self) -> Range {
        self.low
    }

    /// The free pool above the reserved region.
    pub closed spec fn high_pool(self) -> Range {
        self.high
    }

    pub open spec fn block_size(self) -> Size {
        self.reserved().block_size()
    }

    /// Whether byte address `p` is still free to be handed out.
    pub open spec fn is_free(self, p: int) -> bool {
        self.low_pool().contains(p) || self.high_pool().contains(p)
    }

    /// The size of the larger free pool.
    pub open spec fn capacity(self) -> int {
        if self.low_pool().spec_size() >= self.high_pool().spec_size() {
            self.low_pool().spec_size()
        } else {
            self.high_pool().spec_size()
        }
    }

    /// The reserved region of `efh_size` bytes (rounded up) at `efh_start` fits in `arena`.
    pub open spec fn reserved_fits(efh_start: Location, efh_size: usize, arena: Range) -> bool {
        efh_start.offset() + round_up(efh_size as int, efh_start.block_bytes())
            <= arena.end.offset()
    }

    /// One allocation of `size` bytes: the low pool serves it if it has room, else the high
    /// pool is asked; the pool that is not asked and the reserved region stay as they were.
    pub open spec fn alloc_outcome(
        before: ArenaAllocator,
        size: usize,
        r: Option<Range>,
        after: ArenaAllocator,
    ) -> bool {
        &&& after.reserved() == before.reserved()
        &&& if before.low_pool().fits(size) {
            &&& Range::split_outcome(before.low_pool(), size, r, after.low_pool())
            &&& after.high_pool() == before.high_pool()
        } else {
            &&& Range::split_outcome(before.high_pool(), size, r, after.high_pool())
            &&& after.low_pool() == before.low_pool()
        }
    }

    /// Creates a new allocator that will use parts of the given ARENA.
    /// Depending on processor generation, a part of it will be cut out
    /// and not given to the user (since it needs to be at a fixed
    /// spot and also is used by us).
    pub fn try_new(efh_start: Location, efh_size: usize, arena: Range) -> (r: Result<Self, Error>)
        requires
            arena.wf(),
            arena.start.offset() == 0,
            efh_start.block_size() == arena.block_size(),
        ensures
            r is Ok <==> Self::reserved_fits(efh_start, efh_size, arena),
            r matches Err(e) ==> e == Error::Size,
            r matches Ok(a) ==> {
                &&& a.wf()
                &&& a.block_size() == arena.block_size()
                &&& a.low_pool().start == arena.start
                &&& a.low_pool().end.offset() == efh_start.offset()
                &&& a.reserved().start.offset() == efh_start.offset()
                &&& a.reserved().end.offset() == efh_start.offset() + round_up(
                    efh_size as int,
                    efh_start.block_bytes(),
                )
                &&& a.high_pool().start == a.reserved().end
                &&& a.high_pool().end == arena.end
            },
    {
        let mut arena = arena;
        proof {
            use_type_invariant(efh_start);
            block::lemma_round_up(efh_start.offset(), efh_start.block_bytes());
            block::lemma_round_up(efh_size as int, efh_start.block_bytes());
        }
        // Avoid EFH_BEGINNING..(EFH_BEGINNING + EFH_SIZE)
        let a_size = usize::from(efh_start);
        let a = match arena.split_round_up(a_size) {
            Some(a) => a,
            None => return Err(Error::Size),
        };
        // The first pool ends exactly where the reserved region begins.
        assert(a.end.offset() == efh_start.offset());
        let efh_range = match arena.split_round_up(efh_size) {
            Some(r) => r,
            None => return Err(Error::Size),
        };
        proof {
            use_type_invariant(a.start);
            use_type_invariant(a.end);
            use_type_invariant(arena.start);
            use_type_invariant(arena.end);
        }
        Ok(ArenaAllocator { efh_range, low: a, high: arena })
    }
}

impl Allocator for ArenaAllocator {
    /// Layout: the low pool, the reserved region and the high pool are well formed, share
    /// one block size, and follow each other in that order; the pools begin and end on
    /// block boundaries.
    open spec fn wf(&self) -> bool {
        &&& self.low_pool().start.wf()
        &&& self.low_pool().end.wf()
        &&& self.high_pool().start.wf()
        &&& self.high_pool().end.wf()
        &&& self.low_pool().wf()
        &&& self.reserved().wf()
        &&& self.high_pool().wf()
        &&& self.low_pool().block_size() == self.block_size()
        &&& self.high_pool().block_size() == self.block_size()
        &&& self.low_pool().end.offset() <= self.reserved().start.offset()
        &&& self.reserved().end.offset() <= self.high_pool().start.offset()
    }

    /// From the free ranges, take a range of at least SIZE Bytes,
    /// if possible. Otherwise return None.
    fn alloc_round_up(&mut self, size: usize) -> (r: Option<Range>)
        ensures
            ArenaAllocator::alloc_outcome(*old(self), size, r, *final(self)),
            r matches Some(rg) ==> {
                &&& rg.block_size() == old(self).block_size()
                &&& rg.start.offset() % rg.start.block_bytes() == 0
                &&& rg.end.offset() % rg.end.block_bytes() == 0
                &&& rg.spec_size() >= size
            },
    {
        proof {
            block::lemma_round_up(size as int, self.block_size().spec_bytes() as int);
        }
        let r = match self.low.split_round_up(size) {
            Some(r) => Some(r),
            None => self.high.split_round_up(size),
        };
        proof {
            if let Some(rg) = &r {
                use_type_invariant(rg.start);
                use_type_invariant(rg.end);
            }
            use_type_invariant(self.low.start);
            use_type_invariant(self.low.end);
            use_type_invariant(self.high.start);
            use_type_invariant(self.high.end);
        }
        r
    }

    fn max_contiguous_capacity(&self) -> (r: usize)
        ensures
            r == self.capacity(),
    {
        let low = self.low.size();
        let high = self.high.size();
        if low >= high {
            low
        } else {
            high
        }
    }
}

/// A reserved region that starts on a block boundary and whose bytes lie within the medium
/// still fits once rounded up to whole blocks, so that construction succeeds.
pub proof fn lemma_reserved_region_fits(efh_start: Location, efh_size: usize, arena: Range)
    requires
        efh_start.wf(),
        arena.end.wf(),
        efh_start.block_size() == arena.end.block_size(),
        efh_start.offset() + efh_size <= arena.end.offset(),
    ensures
        ArenaAllocator::reserved_fits(efh_start, efh_size, arena),
{
    let b = efh_start.block_bytes();
    let m = arena.end.offset() - efh_start.offset();
    assert(b > 0);
    vstd::arithmetic::div_mod::lemma_sub_mod_noop(arena.end.offset(), efh_start.offset(), b);
    vstd::arithmetic::div_mod::lemma_small_mod(0, b as nat);
    assert(m % b == 0);
    block::lemma_round_up(efh_size as int, b);
}

/// One allocation keeps the layout, only takes free bytes away, and hands out bytes that
/// were free, are free no longer, and lie outside the reserved region.
proof fn lemma_alloc_step(before: ArenaAllocator, size: usize, r: Option<Range>, after: ArenaAllocator)
    requires
        before.wf(),
        ArenaAllocator::alloc_outcome(before, size, r, after),
    ensures
        after.wf(),
        forall|p: int| #[trigger] after.is_free(p) ==> before.is_free(p),
        r matches Some(rg) ==> forall|p: int| #[trigger]
            rg.contains(p) ==> before.is_free(p) && !after.is_free(p)
                && !before.reserved().contains(p),
{
    block::lemma_round_up(size as int, before.block_size().spec_bytes() as int);
    if let Some(rg) = r {
        let b = before.block_size().spec_bytes() as int;
        let ru = round_up(size as int, b);
        if before.low_pool().fits(size) {
            crate::lemma_split_keeps_extent(before.low_pool(), size, rg, after.low_pool());
            vstd::arithmetic::div_mod::lemma_add_mod_noop(before.low_pool().start.offset(), ru, b);
        } else {
            crate::lemma_split_keeps_extent(before.high_pool(), size, rg, after.high_pool());
            vstd::arithmetic::div_mod::lemma_add_mod_noop(before.high_pool().start.offset(), ru, b);
        }
        vstd::arithmetic::div_mod::lemma_small_mod(0, b as nat);
    }
}

/// What holds after the first `k` steps of a run of allocations.
proof fn lemma_run_prefix(
    states: Seq<ArenaAllocator>,
    sizes: Seq<usize>,
    results: Seq<Option<Range>>,
    k: int,
)
    requires
        states.len() == sizes.len() + 1,
        results.len() == sizes.len(),
        states[0].wf(),
        forall|i: int|
            0 <= i < sizes.len() ==> #[trigger] ArenaAllocator::alloc_outcome(
                states[i],
                sizes[i],
                results[i],
                states[i + 1],
            ),
        0 <= k <= sizes.len(),
    ensures
        states[k].wf(),
        states[k].reserved() == states[0].reserved(),
        forall|i: int|
            0 <= i < k && #[trigger] results[i] is Some ==> results[i].unwrap().disjoint(
                states[0].reserved(),
            ),
        forall|i: int, p: int|
            0 <= i < k && results[i] is Some && #[trigger] results[i].unwrap().contains(p)
                ==> !states[k].is_free(p),
        forall|i: int, j: int|
            0 <= i < j < k && #[trigger] results[i] is Some && #[trigger] results[j] is Some
                ==> results[i].unwrap().disjoint(results[j].unwrap()),
    decreases k,
{
    if k > 0 {
        lemma_run_prefix(states, sizes, results, k - 1);
        assert(ArenaAllocator::alloc_outcome(
            states[k - 1],
            sizes[k - 1],
            results[k - 1],
            states[(k - 1) + 1],
        ));
        lemma_alloc_step(states[k - 1], sizes[k - 1], results[k - 1], states[k]);
    }
}

/// Over any run of allocations, every range handed out is disjoint from the reserved region
/// and from every other range handed out.
pub proof fn lemma_allocations_disjoint(
    states: Seq<ArenaAllocator>,
    sizes: Seq<usize>,
    results: Seq<Option<Range>>,
)
    requires
        states.len() == sizes.len() + 1,
        results.len() == sizes.len(),
        states[0].wf(),
        forall|i: int|
            0 <= i < sizes.len() ==> #[trigger] ArenaAllocator::alloc_outcome(
                states[i],
                sizes[i],
                results[i],
                states[i + 1],
            ),
    ensures
        forall|i: int|
            0 <= i < results.len() && #[trigger] results[i] is Some ==> results[i].unwrap().disjoint(
                states[0].reserved(),
            ),
        forall|i: int, j: int|
            0 <= i < j < results.len() && #[trigger] results[i] is Some && #[trigger] results[j] is Some
                ==> results[i].unwrap().disjoint(results[j].unwrap()),
{
    lemma_run_prefix(states, sizes, results, sizes.len() as int);
}

/// A request for more bytes than the larger free pool holds cannot be met.
pub proof fn lemma_over_capacity_unsatisfiable(
    before: ArenaAllocator,
    size: usize,
    r: Option<Range>,
    after: ArenaAllocator,
)
    requires
        before.wf(),
        size > before.capacity(),
        ArenaAllocator::alloc_outcome(before, size, r, after),
    ensures
        r is None,
{
    block::lemma_round_up(size as int, before.block_size().spec_bytes() as int);
}

/// A request for at most as many bytes as the larger free pool holds is always met: the pools
/// end on block boundaries, so rounding the request up never takes it past the larger pool.
pub proof fn lemma_within_capacity_satisfiable(
    before: ArenaAllocator,
    size: usize,
    r: Option<Range>,
    after: ArenaAllocator,
)
    requires
        before.wf(),
        size <= before.capacity(),
        ArenaAllocator::alloc_outcome(before, size, r, after),
    ensures
        r is Some,
{
    let b = before.block_size().spec_bytes() as int;
    let pool = if before.low_pool().spec_size() >= before.high_pool().spec_size() {
        before.low_pool()
    } else {
        before.high_pool()
    };
    vstd::arithmetic::div_mod::lemma_sub_mod_noop(pool.end.offset(), pool.start.offset(), b);
    vstd::arithmetic::div_mod::lemma_small_mod(0, b as nat);
    assert(pool.spec_size() % b == 0);
    block::lemma_round_up(size as int, b);
    assert(pool.fits(size));
}

} // verus!
