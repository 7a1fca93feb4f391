use amd_flash::allocators::ArenaAllocator;
use amd_flash::block::Size;
use amd_flash::{Allocator, Error, Location, Range};

const BSIZE: Size = Size::B4K;

fn intersect(a: &Range, b: &Range) -> Option<(Location, Location)> {
    let new_beginning = a.start.max(b.start);
    let new_end = a.end.min(b.end);
    if new_beginning < new_end {
        Some((new_beginning, new_end))
    } else {
        None
    }
}

fn allocator() -> ArenaAllocator {
    let start = Location::try_new(BSIZE, 0).unwrap();
    let end = start.add_round_up(0x4_0000).unwrap();
    ArenaAllocator::try_new(
        Location::try_new(BSIZE, 0x2_0000).unwrap(),
        0x200,
        Range::new(start, end),
    )
    .unwrap()
}

fn efh_range() -> Range {
    Range::new(
        Location::try_new(BSIZE, 0x2_0000).unwrap(),
        Location::try_new(BSIZE, 0x2_0000).unwrap().add_round_up(0x200).unwrap(),
    )
}

#[test]
fn test_allocator_1() {
    let mut alloc = allocator();
    let efh_range = efh_range();
    let a = alloc.alloc_round_up(42).unwrap();
    let b = alloc.alloc_round_up(100).unwrap();
    assert!(intersect(&a, &b).is_none());
    assert!(intersect(&a, &efh_range).is_none());
    assert!(intersect(&b, &efh_range).is_none());
    assert!(<Location as Into<usize>>::into(b.end) < 0x2_0000);
}

#[test]
fn test_allocator_2() {
    let mut alloc = allocator();
    let efh_range = efh_range();
    let a = alloc.alloc_round_up(0x2_0000).unwrap();
    let b = alloc.alloc_round_up(100).unwrap();
    assert!(intersect(&a, &b).is_none());
    assert!(intersect(&a, &efh_range).is_none());
    assert!(intersect(&b, &efh_range).is_none());
    assert!(<Location as Into<usize>>::into(b.end) < 0x4_0000);
}

#[test]
fn test_allocator_3() {
    let mut alloc = allocator();
    let efh_range = efh_range();
    let a = alloc.alloc_round_up(0x1_fff8).unwrap();
    let b = alloc.alloc_round_up(100).unwrap();
    assert!(intersect(&a, &b).is_none());
    assert!(intersect(&a, &efh_range).is_none());
    assert!(intersect(&b, &efh_range).is_none());
    assert!(<Location as Into<usize>>::into(b.end) < 0x4_0000);
    assert!(<Location as Into<usize>>::into(b.start) > 0x2_0000);
}

#[test]
fn allocations_are_aligned_and_large_enough() {
    let mut alloc = allocator();
    for n in [1usize, 42, 4096, 4097, 0x3000] {
        let r = alloc.alloc_round_up(n).unwrap();
        assert_eq!(u32::from(r.start) % 4096, 0);
        assert_eq!(u32::from(r.end) % 4096, 0);
        assert!(r.size() >= n);
        assert!(r.size() < n + 4096);
    }
}

#[test]
fn allocations_stay_disjoint_until_exhausted() {
    let mut alloc = allocator();
    let efh_range = efh_range();
    let mut got: Vec<Range> = Vec::new();
    while let Some(r) = alloc.alloc_round_up(0x5000) {
        assert!(intersect(&r, &efh_range).is_none());
        for earlier in &got {
            assert!(intersect(earlier, &r).is_none());
        }
        got.push(r);
    }
    // 0x2_0000 below the reserved block holds six, 0x1_f000 above it holds six.
    assert_eq!(got.len(), 12);
    assert!(alloc.max_contiguous_capacity() < 0x5000);
}

#[test]
fn first_allocation_comes_from_the_low_pool() {
    let mut alloc = allocator();
    let a = alloc.alloc_round_up(42).unwrap();
    assert_eq!(u32::from(a.start), 0);
    assert_eq!(u32::from(a.end), 0x1000);
    let b = alloc.alloc_round_up(100).unwrap();
    assert_eq!(u32::from(b.start), 0x1000);
    assert_eq!(u32::from(b.end), 0x2000);
}

#[test]
fn exhausted_low_pool_falls_through_to_high_pool() {
    let mut alloc = allocator();
    let a = alloc.alloc_round_up(0x2_0000).unwrap();
    assert_eq!(u32::from(a.start), 0);
    assert_eq!(u32::from(a.end), 0x2_0000);
    let b = alloc.alloc_round_up(100).unwrap();
    assert_eq!(u32::from(b.start), 0x2_1000);
    assert_eq!(u32::from(b.end), 0x2_2000);
}

#[test]
fn max_contiguous_capacity_reports_larger_pool() {
    let mut alloc = allocator();
    assert_eq!(alloc.max_contiguous_capacity(), 0x2_0000);
    alloc.alloc_round_up(0x2_0000).unwrap();
    assert_eq!(alloc.max_contiguous_capacity(), 0x1_f000);
}

#[test]
fn request_over_capacity_is_unsatisfiable() {
    let mut alloc = allocator();
    let cap = alloc.max_contiguous_capacity();
    assert!(alloc.alloc_round_up(cap + 1).is_none());
    assert!(alloc.alloc_round_up(usize::MAX).is_none());
    assert_eq!(alloc.max_contiguous_capacity(), cap);
    assert!(alloc.alloc_round_up(cap).is_some());
}

#[test]
fn reserved_region_must_fit() {
    let start = Location::try_new(BSIZE, 0).unwrap();
    let end = Location::try_new(BSIZE, 0x4_0000).unwrap();
    let past = Location::try_new(BSIZE, 0x5_0000).unwrap();
    assert!(matches!(
        ArenaAllocator::try_new(past, 0, Range::new(start, end)),
        Err(Error::Size)
    ));
    let last = Location::try_new(BSIZE, 0x3_f000).unwrap();
    assert!(matches!(
        ArenaAllocator::try_new(last, 0x1001, Range::new(start, end)),
        Err(Error::Size)
    ));
    assert!(ArenaAllocator::try_new(last, 0x200, Range::new(start, end)).is_ok());
    assert!(ArenaAllocator::try_new(last, 0x1000, Range::new(start, end)).is_ok());
}

#[test]
fn reserved_region_at_end_leaves_empty_high_pool() {
    let start = Location::try_new(BSIZE, 0).unwrap();
    let end = Location::try_new(BSIZE, 0x4_0000).unwrap();
    let last = Location::try_new(BSIZE, 0x3_f000).unwrap();
    let mut alloc = ArenaAllocator::try_new(last, 0x200, Range::new(start, end)).unwrap();
    assert_eq!(alloc.max_contiguous_capacity(), 0x3_f000);
    let a = alloc.alloc_round_up(0x3_f000).unwrap();
    assert_eq!(u32::from(a.end), 0x3_f000);
    assert!(alloc.alloc_round_up(1).is_none());
    assert_eq!(alloc.max_contiguous_capacity(), 0);
}
