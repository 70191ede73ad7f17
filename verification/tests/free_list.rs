use early_alloc::{AllocError, LabByteAllocator};

fn ready(start: usize, size: usize) -> LabByteAllocator {
    let mut a = LabByteAllocator::new();
    a.init(start, size);
    a
}

#[test]
fn new_free_list_allocator_manages_nothing() {
    let mut a = LabByteAllocator::new();
    assert_eq!(a.total_bytes(), 0);
    assert_eq!(a.used_bytes(), 0);
    assert_eq!(a.available_bytes(), 0);
    assert_eq!(a.alloc_bytes(1, 1), Err(AllocError::NoMemory));
    assert_eq!(a.alloc_bytes(0, 1), Err(AllocError::NotAllocated));
}

#[test]
fn free_list_init_sets_the_range() {
    let a = ready(0x1000, 0x8000);
    assert_eq!(a.total_bytes(), 0x8000);
    assert_eq!(a.used_bytes(), 0);
    assert_eq!(a.available_bytes(), 0x8000);
}

#[test]
fn free_list_reopens_the_gap_of_a_freed_allocation() {
    let mut a = ready(0, 4096);
    assert_eq!(a.alloc_bytes(100, 8), Ok(0));
    assert_eq!(a.used_bytes(), 100);
    assert_eq!(a.alloc_bytes(50, 1), Ok(100));
    assert_eq!(a.used_bytes(), 150);
    a.dealloc(0, 100, 8);
    assert_eq!(a.used_bytes(), 50);
    assert_eq!(a.alloc_bytes(90, 1), Ok(0));
    assert_eq!(a.used_bytes(), 140);
    assert_eq!(a.available_bytes(), 4096 - 140);
}

#[test]
fn free_list_takes_the_first_gap_that_fits() {
    let mut a = ready(0, 1000);
    assert_eq!(a.alloc_bytes(10, 1), Ok(0));
    assert_eq!(a.alloc_bytes(20, 1), Ok(10));
    assert_eq!(a.alloc_bytes(100, 1), Ok(30));
    assert_eq!(a.alloc_bytes(870, 1), Ok(130));
    a.dealloc(0, 10, 1);
    a.dealloc(30, 100, 1);
    assert_eq!(a.alloc_bytes(5, 1), Ok(0));
    assert_eq!(a.alloc_bytes(5, 1), Ok(5));
    assert_eq!(a.alloc_bytes(5, 1), Ok(30));
    assert_eq!(a.used_bytes(), 20 + 870 + 15);
}

#[test]
fn free_list_skips_a_gap_that_is_too_small() {
    let mut a = ready(0, 1000);
    assert_eq!(a.alloc_bytes(10, 1), Ok(0));
    assert_eq!(a.alloc_bytes(20, 1), Ok(10));
    assert_eq!(a.alloc_bytes(100, 1), Ok(30));
    assert_eq!(a.alloc_bytes(50, 1), Ok(130));
    a.dealloc(0, 10, 1);
    a.dealloc(30, 100, 1);
    assert_eq!(a.alloc_bytes(11, 1), Ok(30));
    assert_eq!(a.alloc_bytes(90, 1), Ok(180));
    assert_eq!(a.alloc_bytes(89, 1), Ok(41));
    assert_eq!(a.alloc_bytes(10, 1), Ok(0));
}

#[test]
fn free_list_rounds_the_start_of_a_gap_up() {
    let mut a = ready(0, 1000);
    assert_eq!(a.alloc_bytes(3, 1), Ok(0));
    assert_eq!(a.alloc_bytes(8, 8), Ok(8));
    assert_eq!(a.alloc_bytes(4, 4), Ok(4));
    assert_eq!(a.alloc_bytes(2, 2), Ok(16));
    assert_eq!(a.alloc_bytes(1, 1), Ok(3));
    assert_eq!(a.alloc_bytes(1, 64), Ok(64));
    assert_eq!(a.used_bytes(), 19);
}

#[test]
fn free_list_gap_that_fits_only_unaligned_is_passed() {
    let mut a = ready(0, 64);
    assert_eq!(a.alloc_bytes(1, 1), Ok(0));
    assert_eq!(a.alloc_bytes(8, 1), Ok(1));
    assert_eq!(a.alloc_bytes(16, 16), Ok(16));
    a.dealloc(1, 8, 1);
    assert_eq!(a.alloc_bytes(8, 8), Ok(8));
    assert_eq!(a.alloc_bytes(8, 8), Ok(32));
    assert_eq!(a.alloc_bytes(7, 1), Ok(1));
}

#[test]
fn free_list_pre_check_gives_no_memory() {
    let mut a = ready(0, 100);
    assert_eq!(a.alloc_bytes(101, 1), Err(AllocError::NoMemory));
    assert_eq!(a.alloc_bytes(60, 1), Ok(0));
    assert_eq!(a.alloc_bytes(41, 1), Err(AllocError::NoMemory));
    assert_eq!(a.alloc_bytes(usize::MAX, 1), Err(AllocError::NoMemory));
    assert_eq!(a.used_bytes(), 60);
    assert_eq!(a.available_bytes(), 40);
    assert_eq!(a.alloc_bytes(40, 1), Ok(60));
    assert_eq!(a.available_bytes(), 0);
}

#[test]
fn free_list_failed_search_gives_not_allocated() {
    let mut a = ready(0, 100);
    assert_eq!(a.alloc_bytes(10, 1), Ok(0));
    assert_eq!(a.alloc_bytes(40, 1), Ok(10));
    assert_eq!(a.alloc_bytes(10, 1), Ok(50));
    a.dealloc(10, 40, 1);
    assert_eq!(a.alloc_bytes(41, 1), Err(AllocError::NotAllocated));
    assert_eq!(a.used_bytes(), 20);
    assert_eq!(a.alloc_bytes(60, 64), Err(AllocError::NotAllocated));
    assert_eq!(a.alloc_bytes(1, 128), Err(AllocError::NotAllocated));
    assert_eq!(a.used_bytes(), 20);
    assert_eq!(a.alloc_bytes(40, 1), Ok(10));
    assert_eq!(a.alloc_bytes(40, 1), Ok(60));
    assert_eq!(a.alloc_bytes(1, 1), Err(AllocError::NoMemory));
    assert_eq!(a.used_bytes(), 100);
}

#[test]
fn free_list_empty_trailing_gap_is_not_tried() {
    let mut a = ready(1, 23);
    assert_eq!(a.alloc_bytes(23, 1), Ok(1));
    assert_eq!(a.alloc_bytes(0, 8), Err(AllocError::NotAllocated));
    assert_eq!(a.used_bytes(), 23);
    a.dealloc(1, 23, 1);
    assert_eq!(a.alloc_bytes(0, 8), Ok(8));
}

#[test]
fn free_list_alignment_beyond_the_last_address_is_not_allocated() {
    let mut a = LabByteAllocator::new();
    a.init(usize::MAX - 10, 10);
    assert_eq!(a.alloc_bytes(1, 4096), Err(AllocError::NotAllocated));
    assert_eq!(a.alloc_bytes(1, 1), Ok(usize::MAX - 10));
    assert_eq!(a.alloc_bytes(1, 4096), Err(AllocError::NotAllocated));
    assert_eq!(a.used_bytes(), 1);
}

#[test]
fn free_list_dealloc_of_an_unknown_address_changes_nothing() {
    let mut a = ready(0, 100);
    assert_eq!(a.alloc_bytes(10, 1), Ok(0));
    a.dealloc(5, 10, 1);
    assert_eq!(a.used_bytes(), 10);
    a.dealloc(0, 10, 1);
    assert_eq!(a.used_bytes(), 0);
    a.dealloc(0, 10, 1);
    assert_eq!(a.used_bytes(), 0);
    assert_eq!(a.alloc_bytes(100, 1), Ok(0));
}

#[test]
fn free_list_dealloc_counts_the_recorded_length() {
    let mut a = ready(0, 100);
    assert_eq!(a.alloc_bytes(10, 1), Ok(0));
    assert_eq!(a.alloc_bytes(20, 1), Ok(10));
    a.dealloc(0, 99, 64);
    assert_eq!(a.used_bytes(), 20);
    assert_eq!(a.alloc_bytes(10, 1), Ok(0));
}

#[test]
fn free_list_allocation_of_no_bytes_takes_an_address() {
    let mut a = ready(0, 100);
    assert_eq!(a.alloc_bytes(0, 1), Ok(0));
    assert_eq!(a.used_bytes(), 0);
    assert_eq!(a.alloc_bytes(10, 1), Ok(0));
    assert_eq!(a.used_bytes(), 10);
    a.dealloc(0, 10, 1);
    assert_eq!(a.used_bytes(), 0);
}

#[test]
fn free_list_allocation_of_no_bytes_can_take_the_place_of_a_live_one() {
    let mut a = ready(0, 4096);
    assert_eq!(a.alloc_bytes(100, 8), Ok(0));
    assert_eq!(a.alloc_bytes(0, 1), Ok(0));
    assert_eq!(a.used_bytes(), 100);
    a.dealloc(0, 100, 8);
    assert_eq!(a.used_bytes(), 100);
    assert_eq!(a.available_bytes(), 4096 - 100);
}

#[test]
fn free_list_add_memory_is_unsupported() {
    let mut a = ready(0, 100);
    assert_eq!(a.alloc_bytes(10, 1), Ok(0));
    assert_eq!(a.add_memory(100, 100), Err(AllocError::Unsupported));
    assert_eq!(a.total_bytes(), 100);
    assert_eq!(a.used_bytes(), 10);
}

#[test]
fn free_list_live_allocations_never_overlap() {
    let mut a = ready(7, 500);
    let mut live: Vec<(usize, usize)> = Vec::new();
    let sizes = [13usize, 1, 64, 7, 32, 5, 100, 9, 16, 3];
    let aligns = [1usize, 2, 4, 8, 16, 32, 64, 1, 8, 4];
    for round in 0..6 {
        for i in 0..sizes.len() {
            let size = sizes[(i + round) % sizes.len()];
            let align = aligns[i];
            if let Ok(addr) = a.alloc_bytes(size, align) {
                assert_eq!(addr % align, 0);
                assert!(addr >= 7 && addr + size <= 507);
                for &(other, len) in live.iter() {
                    assert!(other + len <= addr || addr + size <= other);
                }
                live.push((addr, size));
            }
        }
        let mut kept: Vec<(usize, usize)> = Vec::new();
        for (n, &(addr, size)) in live.iter().enumerate() {
            if n % 2 == round % 2 {
                a.dealloc(addr, size, 1);
            } else {
                kept.push((addr, size));
            }
        }
        live = kept;
        let sum: usize = live.iter().map(|e| e.1).sum();
        assert_eq!(a.used_bytes(), sum);
        assert_eq!(a.available_bytes(), 500 - sum);
    }
}

#[test]
fn free_list_is_unused_until_something_is_allocated() {
    let mut a = LabByteAllocator::new();
    assert!(a.is_unused());
    a.init(0, 100);
    assert!(a.is_unused());
    assert_eq!(a.alloc_bytes(10, 1), Ok(0));
    assert!(!a.is_unused());
    a.dealloc(0, 10, 1);
    assert!(a.is_unused());
    assert_eq!(a.alloc_bytes(0, 1), Ok(0));
    assert!(!a.is_unused());
}
