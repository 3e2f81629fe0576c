use bump_allocator::{AllocError, EarlyAllocator};

const PAGE: usize = 0x1000;

fn fresh(base: usize, size: usize) -> EarlyAllocator<PAGE> {
    let mut a = EarlyAllocator::<PAGE>::new();
    a.init(base, size);
    a
}

#[test]
fn no_pages_is_an_invalid_request() {
    let mut a = fresh(0x1000, 0x4000);
    assert_eq!(a.alloc_pages(0, 0), Err(AllocError::InvalidParam));
    assert_eq!(a.alloc_pages(0, 12), Err(AllocError::InvalidParam));
    assert_eq!(a.alloc_pages(0, usize::MAX), Err(AllocError::InvalidParam));
    assert_eq!(a.used_pages(), 0);
    assert_eq!(a.available_pages(), 4);
}

#[test]
fn pages_are_cut_from_the_high_end() {
    let mut a = fresh(0x10000, 0x8000);
    assert_eq!(a.alloc_pages(2, 0), Ok(0x16000));
    assert_eq!(a.alloc_pages(1, 12), Ok(0x15000));
    assert_eq!(a.alloc_pages(3, 3), Ok(0x12000));
    assert_eq!(a.used_pages(), 6);
    assert_eq!(a.available_pages(), 2);
    assert_eq!(a.total_pages(), 8);
    assert_eq!(a.available_bytes(), 0x2000);
}

#[test]
fn page_size_overflow_is_no_memory() {
    let mut a = fresh(0x10000, 0x8000);
    assert_eq!(a.alloc_pages(usize::MAX, 0), Err(AllocError::NoMemory));
    assert_eq!(a.alloc_pages(usize::MAX / PAGE + 1, 0), Err(AllocError::NoMemory));
    assert_eq!(a.used_pages(), 0);
}

#[test]
fn block_below_address_zero_is_no_memory() {
    let mut a = fresh(0x1000, 0x1000);
    assert_eq!(a.alloc_pages(3, 0), Err(AllocError::NoMemory));
    assert_eq!(a.alloc_pages(usize::MAX / PAGE, 0), Err(AllocError::NoMemory));
    assert_eq!(a.used_pages(), 0);
    assert_eq!(a.available_bytes(), 0x1000);
}

#[test]
fn block_below_the_range_is_no_memory() {
    let mut a = fresh(0x10000, 0x2000);
    assert_eq!(a.alloc_pages(3, 0), Err(AllocError::NoMemory));
    assert_eq!(a.alloc_pages(2, 0), Ok(0x10000));
    assert_eq!(a.alloc_pages(1, 0), Err(AllocError::NoMemory));
}

#[test]
fn larger_alignment_rounds_the_end_of_the_block_down() {
    let mut a = fresh(0x1000, 0x10000);
    assert_eq!(a.alloc_pages(1, 14), Ok(0xf000));
    assert_eq!(a.alloc_pages(4, 14), Ok(0x8000));
    assert_eq!(a.alloc_pages(1, 13), Ok(0x7000));
    assert_eq!(a.used_pages(), 10);
    assert_eq!(a.available_bytes(), 0x6000);
}

#[test]
fn block_of_aligned_size_starts_aligned() {
    let mut a = fresh(0x3000, 0x20000);
    for shift in [0usize, 5, 12, 13, 14, 15] {
        let align = core::cmp::max(PAGE, 1usize << shift);
        let addr = a.alloc_pages(align / PAGE, shift).unwrap();
        assert_eq!(addr % align, 0);
        assert_eq!(addr % PAGE, 0);
    }
}

#[test]
fn every_served_page_address_is_a_multiple_of_the_page_size() {
    let mut a = fresh(0x1234, 0x20000);
    let mut shift = 0;
    while let Ok(addr) = a.alloc_pages(1, shift) {
        assert_eq!(addr % PAGE, 0);
        shift = (shift + 5) % 16;
    }
    assert!(a.available_bytes() < 0x8000);
}

#[test]
fn exponent_at_or_past_the_address_width_is_held_below_it() {
    let top = usize::BITS as usize - 1;
    let mut a = fresh(0x1000, 0x10000);
    assert_eq!(a.alloc_pages(1, top), Err(AllocError::NoMemory));
    assert_eq!(a.alloc_pages(1, top + 1), Err(AllocError::NoMemory));
    assert_eq!(a.alloc_pages(1, usize::MAX), Err(AllocError::NoMemory));
    assert_eq!(a.used_pages(), 0);

    let half = 1usize << top;
    let mut b = fresh(half - 0x4000, 0x8000);
    assert_eq!(b.alloc_pages(1, top), Ok(half - 0x1000));
    assert_eq!(b.alloc_pages(1, usize::MAX), Err(AllocError::NoMemory));
    assert_eq!(b.used_pages(), 5);
    assert_eq!(b.alloc_pages(1, 0), Ok(half - 0x2000));
}

#[test]
fn release_of_pages_changes_nothing() {
    let mut a = fresh(0x10000, 0x4000);
    assert_eq!(a.alloc_pages(2, 0), Ok(0x12000));
    a.dealloc_pages(0x12000, 2);
    a.dealloc_pages(0, 0);
    assert_eq!(a.used_pages(), 2);
    assert_eq!(a.available_pages(), 2);
    assert_eq!(a.alloc_pages(1, 0), Ok(0x11000));
}

#[test]
fn bytes_and_pages_never_overlap() {
    let mut a = fresh(0x10000, 0x3000);
    assert_eq!(a.alloc_bytes(0x1001, 1), Ok(0x10000));
    assert_eq!(a.alloc_pages(2, 0), Err(AllocError::NoMemory));
    assert_eq!(a.used_bytes(), 0x1001);
    assert_eq!(a.used_pages(), 0);
    assert_eq!(a.alloc_pages(1, 0), Ok(0x12000));
    assert_eq!(a.alloc_bytes(0x1000, 1), Err(AllocError::NoMemory));
    assert_eq!(a.alloc_bytes(0xfff, 1), Ok(0x11001));
    assert_eq!(a.available_bytes(), 0);
    assert_eq!(a.alloc_pages(1, 0), Err(AllocError::NoMemory));
    assert_eq!(a.alloc_bytes(1, 1), Err(AllocError::NoMemory));
}

#[test]
fn reclaimed_bytes_can_be_taken_by_pages() {
    let mut a = fresh(0x10000, 0x2000);
    assert_eq!(a.alloc_bytes(0x1800, 1), Ok(0x10000));
    assert_eq!(a.alloc_pages(1, 0), Err(AllocError::NoMemory));
    a.dealloc(0x10000, 0x1800);
    assert_eq!(a.alloc_pages(2, 0), Ok(0x10000));
    assert_eq!(a.available_bytes(), 0);
}

#[test]
fn used_available_and_pages_fill_the_range() {
    let mut a = fresh(0x10000, 0x8000);
    let check = |a: &EarlyAllocator<PAGE>| {
        assert_eq!(
            a.available_bytes() + a.used_bytes() + a.used_pages() * PAGE,
            a.total_bytes()
        );
    };
    check(&a);
    a.alloc_bytes(100, 8).unwrap();
    check(&a);
    a.alloc_pages(2, 0).unwrap();
    check(&a);
    a.alloc_pages(1, 14).unwrap();
    check(&a);
    a.alloc_bytes(0x100, 0x100).unwrap();
    check(&a);
    a.dealloc(0, 0);
    check(&a);
    a.dealloc(0, 0);
    check(&a);
    assert!(a.alloc_pages(100, 0).is_err());
    check(&a);
}

#[test]
fn page_counts_round_down() {
    let mut a = fresh(0x10000, 0x2fff);
    assert_eq!(a.total_pages(), 2);
    assert_eq!(a.available_pages(), 2);
    assert_eq!(a.alloc_bytes(1, 1), Ok(0x10000));
    assert_eq!(a.available_pages(), 2);
    assert_eq!(a.alloc_bytes(0xfff, 1), Ok(0x10001));
    assert_eq!(a.available_pages(), 1);
    assert_eq!(a.alloc_pages(1, 0), Ok(0x11000));
    assert_eq!(a.used_pages(), 1);
    assert_eq!(a.available_pages(), 0);
}

#[test]
fn range_that_ends_off_the_page_grid_loses_its_tail() {
    let mut a = fresh(0x1000, 0x1234);
    assert_eq!(a.alloc_pages(1, 0), Ok(0x1000));
    assert_eq!(a.used_pages(), 1);
    assert_eq!(a.available_bytes(), 0);
    assert_eq!(a.total_bytes(), 0x1234);
}

#[test]
fn page_size_that_is_no_power_of_two_clears_its_mask_bits() {
    let mut a = EarlyAllocator::<3>::new();
    a.init(0, 9);
    assert_eq!(a.total_pages(), 3);
    assert_eq!(a.alloc_pages(1, 0), Ok(6));
    assert_eq!(a.alloc_pages(1, 1), Ok(1));
    assert_eq!(a.alloc_pages(1, 0), Err(AllocError::NoMemory));
}

#[test]
fn page_size_of_zero_serves_empty_blocks() {
    let mut a = EarlyAllocator::<0>::new();
    a.init(0x1000, 0x1000);
    assert_eq!(a.alloc_pages(5, 0), Ok(0x2000));
    assert_eq!(a.alloc_pages(5, 12), Ok(0x2000));
    assert_eq!(a.available_bytes(), 0x1000);
    assert_eq!(a.alloc_pages(1, 13), Ok(0x2000));
    assert_eq!(a.alloc_pages(1, 14), Err(AllocError::NoMemory));
}

#[test]
fn error_kinds_compare_and_copy() {
    let e = AllocError::NoMemory;
    let f = e;
    assert_eq!(e, f);
    assert_ne!(e, AllocError::InvalidParam);
    assert_eq!(format!("{:?}", AllocError::InvalidParam), "InvalidParam");
}
