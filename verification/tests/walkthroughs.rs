use bump_allocator::{AllocError, EarlyAllocator};

const PAGE: usize = 0x1000;

#[test]
fn two_byte_allocations_follow_each_other() {
    let mut a = EarlyAllocator::<PAGE>::new();
    a.init(0x1000, 0x1000);
    assert_eq!(a.alloc_bytes(8, 8), Ok(0x1000));
    assert_eq!(a.alloc_bytes(3, 4), Ok(0x1008));
    assert_eq!(a.used_bytes(), 11);
}

#[test]
fn one_page_takes_the_whole_range() {
    let mut a = EarlyAllocator::<PAGE>::new();
    a.init(0x1000, 0x1000);
    assert_eq!(a.alloc_pages(1, 0), Ok(0x1000));
    assert_eq!(a.alloc_bytes(1, 1), Err(AllocError::NoMemory));
    assert_eq!(a.available_bytes(), 0);
    assert_eq!(a.used_pages(), 1);
}

#[test]
fn two_pages_are_served_and_a_third_is_not() {
    let mut a = EarlyAllocator::<PAGE>::new();
    let base = 0x8000;
    a.init(base, 2 * PAGE);
    let end = base + 2 * PAGE;
    assert_eq!(a.alloc_pages(1, 0), Ok(end - PAGE));
    assert_eq!(a.alloc_pages(1, 0), Ok(end - 2 * PAGE));
    assert_eq!(a.alloc_pages(1, 0), Err(AllocError::NoMemory));
    assert_eq!(a.used_pages(), 2);
    assert_eq!(a.available_pages(), 0);
}

#[test]
fn last_release_reclaims_the_byte_area() {
    let mut a = EarlyAllocator::<PAGE>::new();
    a.init(0x1000, 0x1000);
    let first = a.alloc_bytes(16, 8).unwrap();
    let second = a.alloc_bytes(16, 8).unwrap();
    let third = a.alloc_bytes(16, 8).unwrap();
    assert_eq!((first, second, third), (0x1000, 0x1010, 0x1020));
    assert_eq!(a.used_bytes(), 48);
    a.dealloc(first, 16);
    a.dealloc(second, 16);
    assert_eq!(a.used_bytes(), 48);
    a.dealloc(third, 16);
    assert_eq!(a.used_bytes(), 0);
    assert_eq!(a.available_bytes(), 0x1000);
    assert_eq!(a.alloc_bytes(16, 8), Ok(0x1000));
}
