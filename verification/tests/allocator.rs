use krakatau_bridge::allocator::{
    Allocator, Buffer, ALIGNMENT, INPUT_CEILING, MAX_CAPACITY, RESPONSE_CEILING,
};

fn overlap(a: (usize, usize), b: (usize, usize)) -> bool {
    a.0 < b.0 + b.1 && b.0 < a.0 + a.1
}

#[test]
fn constants() {
    assert_eq!(ALIGNMENT, 8);
    assert_eq!(INPUT_CEILING, 64 * 1024);
    assert_eq!(RESPONSE_CEILING, 512 * 1024);
    assert_eq!(MAX_CAPACITY, 1 << 30);
}

#[test]
fn new_memory_is_zeroed() {
    let a = Allocator::new(100);
    assert_eq!(a.size(), 100);
    assert_eq!(a.memory(), vec![0u8; 100].as_slice());
}

#[test]
fn allocate_input_of_zero_bytes_is_null() {
    let mut a = Allocator::new(1 << 20);
    assert_eq!(a.allocate_input(0), 0);
}

#[test]
fn allocate_input_at_the_ceiling_is_null() {
    let mut a = Allocator::new(1 << 20);
    assert_eq!(a.allocate_input(65536), 0);
    assert_eq!(a.allocate_input(65537), 0);
    assert_eq!(a.allocate_input(usize::MAX), 0);
}

#[test]
fn allocate_input_below_the_ceiling() {
    let mut a = Allocator::new(1 << 20);
    assert_eq!(a.allocate_input(65535), 8);
    assert_eq!(a.allocate_input(1), 65544);
}

#[test]
fn allocate_response_bounds() {
    let mut a = Allocator::new(1 << 20);
    assert_eq!(a.allocate_response(0), 0);
    assert_eq!(a.allocate_response(524288), 0);
    assert_eq!(a.allocate_response(usize::MAX), 0);
    assert_eq!(a.allocate_response(524287), 8);
    assert_eq!(a.allocate_response(65536), 524296);
}

#[test]
fn first_region_starts_after_the_null_address() {
    let mut a = Allocator::new(64);
    assert_eq!(a.allocate_input(1), 8);
}

#[test]
fn regions_are_aligned_and_in_address_order() {
    let mut a = Allocator::new(1024);
    assert_eq!(a.allocate_input(1), 8);
    assert_eq!(a.allocate_input(8), 16);
    assert_eq!(a.allocate_input(9), 24);
    assert_eq!(a.allocate_input(3), 40);
    assert_eq!(a.allocate_input(16), 48);
    assert_eq!(a.allocate_input(1), 64);
}

#[test]
fn regions_do_not_overlap() {
    let mut a = Allocator::new(1 << 16);
    let mut taken: Vec<(usize, usize)> = Vec::new();
    let mut state: u32 = 17;
    for round in 0..200 {
        state = state.wrapping_mul(1664525).wrapping_add(1013904223);
        let size = 1 + (state >> 20) as usize % 700;
        if round % 3 == 2 && !taken.is_empty() {
            let (ptr, len) = taken.remove((state as usize >> 8) % taken.len());
            a.free(ptr, len);
        }
        let ptr = a.allocate_input(size);
        if ptr != 0 {
            assert_eq!(ptr % 8, 0);
            assert!(ptr >= 8);
            assert!(ptr + size <= a.size());
            for other in &taken {
                assert!(!overlap((ptr, size), *other));
            }
            taken.push((ptr, size));
        }
    }
    assert!(taken.len() > 50);
}

#[test]
fn allocation_fails_when_memory_is_exhausted() {
    let mut a = Allocator::new(32);
    assert_eq!(a.allocate_input(16), 8);
    assert_eq!(a.allocate_input(9), 0);
    assert_eq!(a.allocate_input(8), 24);
    assert_eq!(a.allocate_input(1), 0);
}

#[test]
fn allocation_fails_in_a_memory_too_small() {
    let mut a = Allocator::new(8);
    assert_eq!(a.allocate_input(1), 0);
    let mut b = Allocator::new(0);
    assert_eq!(b.allocate_input(1), 0);
    let mut c = Allocator::new(9);
    assert_eq!(c.allocate_input(2), 0);
    assert_eq!(c.allocate_input(1), 8);
}

#[test]
fn freed_region_is_taken_again() {
    let mut a = Allocator::new(64);
    assert_eq!(a.allocate_input(8), 8);
    assert_eq!(a.allocate_input(8), 16);
    assert_eq!(a.allocate_input(8), 24);
    a.free(16, 8);
    assert_eq!(a.allocate_input(9), 32);
    assert_eq!(a.allocate_input(8), 16);
}

#[test]
fn lowest_free_region_is_taken() {
    let mut a = Allocator::new(256);
    assert_eq!(a.allocate_input(24), 8);
    assert_eq!(a.allocate_input(24), 32);
    assert_eq!(a.allocate_input(24), 56);
    a.free(8, 24);
    a.free(56, 24);
    assert_eq!(a.allocate_input(20), 8);
    assert_eq!(a.allocate_input(25), 56);
}

#[test]
fn free_of_an_unknown_region_changes_nothing() {
    let mut a = Allocator::new(64);
    assert_eq!(a.allocate_input(8), 8);
    a.free(8, 7);
    a.free(16, 8);
    a.free(0, 0);
    a.free(0, 8);
    assert_eq!(a.region_of(8, 8), Some(Buffer { ptr: 8, len: 8 }));
    assert_eq!(a.allocate_input(8), 16);
}

#[test]
fn free_twice_changes_nothing_more() {
    let mut a = Allocator::new(64);
    assert_eq!(a.allocate_input(8), 8);
    assert_eq!(a.allocate_input(8), 16);
    a.free(8, 8);
    a.free(8, 8);
    assert_eq!(a.region_of(16, 8), Some(Buffer { ptr: 16, len: 8 }));
    assert_eq!(a.region_of(8, 8), None);
}

#[test]
fn region_of_finds_the_region_that_holds_the_bytes() {
    let mut a = Allocator::new(64);
    assert_eq!(a.allocate_input(10), 8);
    assert_eq!(a.allocate_input(4), 24);
    assert_eq!(a.region_of(8, 10), Some(Buffer { ptr: 8, len: 10 }));
    assert_eq!(a.region_of(10, 8), Some(Buffer { ptr: 8, len: 10 }));
    assert_eq!(a.region_of(17, 1), Some(Buffer { ptr: 8, len: 10 }));
    assert_eq!(a.region_of(24, 4), Some(Buffer { ptr: 24, len: 4 }));
    assert_eq!(a.region_of(8, 11), None);
    assert_eq!(a.region_of(18, 1), None);
    assert_eq!(a.region_of(7, 2), None);
    assert_eq!(a.region_of(17, 8), None);
    assert_eq!(a.region_of(usize::MAX, 2), None);
    assert_eq!(a.region_of(9, usize::MAX), None);
}

#[test]
fn write_then_read() {
    let mut a = Allocator::new(64);
    assert_eq!(a.allocate_input(5), 8);
    assert!(a.write(8, b"hello"));
    assert_eq!(a.read(8, 5), Some(b"hello".to_vec()));
    assert_eq!(a.read(9, 3), Some(b"ell".to_vec()));
    assert_eq!(&a.memory()[8..13], b"hello");
    assert_eq!(a.memory()[7], 0);
    assert_eq!(a.memory()[13], 0);
}

#[test]
fn write_outside_a_region_is_refused() {
    let mut a = Allocator::new(64);
    assert_eq!(a.allocate_input(5), 8);
    assert!(!a.write(8, b"hello!"));
    assert!(!a.write(7, b"h"));
    assert!(!a.write(40, b"h"));
    assert_eq!(a.memory(), vec![0u8; 64].as_slice());
}

#[test]
fn read_outside_a_region_is_refused() {
    let mut a = Allocator::new(64);
    assert_eq!(a.allocate_input(5), 8);
    assert_eq!(a.read(8, 6), None);
    assert_eq!(a.read(0, 1), None);
    assert_eq!(a.read(13, 1), None);
    a.free(8, 5);
    assert_eq!(a.read(8, 5), None);
}

#[test]
fn memory_keeps_its_content_when_a_region_is_freed() {
    let mut a = Allocator::new(64);
    assert_eq!(a.allocate_input(3), 8);
    assert!(a.write(8, b"abc"));
    a.free(8, 3);
    assert_eq!(&a.memory()[8..11], b"abc");
}

#[test]
fn capacity_is_capped() {
    let a = Allocator::new(MAX_CAPACITY + 1);
    assert_eq!(a.size(), MAX_CAPACITY);
}
