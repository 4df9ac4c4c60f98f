use kernel_boot::bump::BumpAllocator;
use kernel_boot::first_fit::FirstFitAllocator;
use kernel_boot::memory::AllocError;

fn free_total(a: &FirstFitAllocator) -> usize {
    let mut total: usize = 0;
    for b in &a.free {
        total += b.size;
    }
    total
}

#[test]
fn bump_example_scenario() {
    // heap at 0x100000 of 0x10000 bytes: two allocations land back to
    // back, and releasing both resets the cursor
    let mut a = BumpAllocator::new();
    a.init(0x100000, 0x10000);
    assert_eq!(a.allocate(64, 16), Ok(0x100000));
    assert_eq!(a.allocate(32, 32), Ok(0x100040));
    assert_eq!(a.allocations, 2);
    a.deallocate(0x100000, 64);
    assert_eq!(a.allocations, 1);
    assert_eq!(a.next, 0x100060);
    a.deallocate(0x100040, 32);
    assert_eq!(a.allocations, 0);
    assert_eq!(a.next, 0x100000);
}

#[test]
fn bump_alignment_rounds_cursor_up() {
    let mut a = BumpAllocator::new();
    a.init(0x1001, 0x1000);
    let addr = a.allocate(10, 64).unwrap();
    assert_eq!(addr % 64, 0);
    assert_eq!(addr, 0x1040);
    assert_eq!(a.next, 0x104a);
}

#[test]
fn bump_zero_size_is_trivial() {
    let mut a = BumpAllocator::new();
    a.init(0x1000, 0x100);
    let before_next = a.next;
    let before_count = a.allocations;
    assert_eq!(a.allocate(0, 16), Ok(16));
    assert_eq!(a.next, before_next);
    assert_eq!(a.allocations, before_count);
}

#[test]
fn bump_exhaustion_fails_without_mutation() {
    let mut a = BumpAllocator::new();
    a.init(0x1000, 0x100);
    assert_eq!(a.allocate(0x200, 1), Err(AllocError));
    assert_eq!(a.next, 0x1000);
    assert_eq!(a.allocations, 0);
    // a request that still fits succeeds afterwards
    assert_eq!(a.allocate(0x100, 1), Ok(0x1000));
}

#[test]
fn bump_overflowing_arithmetic_fails_without_mutation() {
    let mut a = BumpAllocator::new();
    a.init(usize::MAX - 0xff, 0xff);
    assert_eq!(a.allocate(usize::MAX, 1), Err(AllocError));
    assert_eq!(a.allocate(2, usize::MAX / 2 + 1), Err(AllocError));
    assert_eq!(a.next, usize::MAX - 0xff);
    assert_eq!(a.allocations, 0);
}

#[test]
fn bump_uninitialized_placeholder_rejects_requests() {
    let mut a = BumpAllocator::new();
    assert_eq!(a.allocate(1, 1), Err(AllocError));
}

#[test]
fn bump_cursor_monotone_until_empty() {
    let mut a = BumpAllocator::new();
    a.init(0x2000, 0x1000);
    let mut last = a.next;
    for size in [8usize, 24, 3, 100] {
        a.allocate(size, 8).unwrap();
        assert!(a.next >= last);
        last = a.next;
    }
    a.deallocate(0, 8);
    a.deallocate(0, 24);
    assert_eq!(a.next, last); // still two live: no reset
    a.deallocate(0, 3);
    a.deallocate(0, 100);
    assert_eq!(a.next, 0x2000); // live count hit zero: full reset
}

#[test]
fn first_fit_example_scenario() {
    let mut a = FirstFitAllocator::new();
    a.init(0x100000, 0x10000);
    assert_eq!(a.allocate(64, 16), Ok(0x100000));
    assert_eq!(a.allocate(32, 32), Ok(0x100040));
    a.deallocate(0x100000, 64);
    a.deallocate(0x100040, 32);
    assert_eq!(a.allocated, 0);
    assert_eq!(a.free.len(), 1);
    assert_eq!(a.free[0].addr, 0x100000);
    assert_eq!(a.free[0].size, 0x10000);
}

#[test]
fn first_fit_serves_first_block_that_fits() {
    let mut a = FirstFitAllocator::new();
    a.init(0x1000, 0x300);
    assert_eq!(a.allocate(0x100, 1), Ok(0x1000));
    assert_eq!(a.allocate(0x100, 1), Ok(0x1100));
    assert_eq!(a.allocate(0x100, 1), Ok(0x1200));
    a.deallocate(0x1000, 0x100);
    a.deallocate(0x1200, 0x100);
    // two free blocks; a small request comes from the lower one
    assert_eq!(a.free.len(), 2);
    assert_eq!(a.allocate(0x80, 1), Ok(0x1000));
    // a request only the upper block can hold skips the first gap
    assert_eq!(a.allocate(0x100, 1), Ok(0x1200));
}

#[test]
fn first_fit_alignment_and_splitting() {
    let mut a = FirstFitAllocator::new();
    a.init(0x1001, 0xfff);
    let addr = a.allocate(0x10, 16).unwrap();
    assert_eq!(addr % 16, 0);
    assert_eq!(addr, 0x1010);
    // the spare bytes below and above the granted range stay free
    assert_eq!(a.free.len(), 2);
    assert_eq!((a.free[0].addr, a.free[0].size), (0x1001, 0xf));
    assert_eq!(a.free[1].addr, 0x1020);
}

#[test]
fn first_fit_conserves_every_byte() {
    // sum of free block sizes plus bytes handed out equals the heap size
    // at every step
    let heap = 0x800;
    let mut a = FirstFitAllocator::new();
    a.init(0x4000, heap);
    assert_eq!(free_total(&a) + a.allocated, heap);
    let p = a.allocate(0x123, 4).unwrap();
    assert_eq!(free_total(&a) + a.allocated, heap);
    let q = a.allocate(0x10, 256).unwrap();
    assert_eq!(free_total(&a) + a.allocated, heap);
    a.deallocate(p, 0x123);
    assert_eq!(free_total(&a) + a.allocated, heap);
    a.deallocate(q, 0x10);
    assert_eq!(free_total(&a) + a.allocated, heap);
    assert_eq!(a.allocated, 0);
}

#[test]
fn first_fit_coalesces_adjacent_blocks() {
    let mut a = FirstFitAllocator::new();
    a.init(0x1000, 0x400);
    let p = a.allocate(0x100, 1).unwrap();
    let q = a.allocate(0x100, 1).unwrap();
    let r = a.allocate(0x100, 1).unwrap();
    let s = a.allocate(0x100, 1).unwrap();
    assert_eq!((p, q, r, s), (0x1000, 0x1100, 0x1200, 0x1300));
    a.deallocate(p, 0x100);
    a.deallocate(r, 0x100);
    assert_eq!(a.free.len(), 2); // not adjacent: two blocks
    a.deallocate(q, 0x100);
    // q touched both: all three merged into one block
    assert_eq!(a.free.len(), 1);
    assert_eq!((a.free[0].addr, a.free[0].size), (0x1000, 0x300));
    a.deallocate(s, 0x100);
    assert_eq!(a.free.len(), 1);
    assert_eq!((a.free[0].addr, a.free[0].size), (0x1000, 0x400));
}

#[test]
fn first_fit_failure_mutates_nothing() {
    let mut a = FirstFitAllocator::new();
    a.init(0x1000, 0x100);
    assert_eq!(a.allocate(0x200, 1), Err(AllocError));
    assert_eq!(a.free.len(), 1);
    assert_eq!((a.free[0].addr, a.free[0].size), (0x1000, 0x100));
    assert_eq!(a.allocated, 0);
    // an aligned request that no block can hold once rounded up also fails
    assert_eq!(a.allocate(0x100, 0x2000), Err(AllocError));
    assert_eq!(a.free.len(), 1);
}

#[test]
fn first_fit_zero_size_is_trivial() {
    let mut a = FirstFitAllocator::new();
    a.init(0x1000, 0x100);
    assert_eq!(a.allocate(0, 8), Ok(8));
    assert_eq!(a.allocated, 0);
    assert_eq!(a.free.len(), 1);
}
