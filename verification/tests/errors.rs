use freelist_alloc::{AllocError, Heap};

#[test]
fn arena_too_small_is_rejected() {
    assert!(matches!(Heap::new(0), Err(AllocError::InvalidCall)));
    assert!(matches!(Heap::new(16), Err(AllocError::InvalidCall)));
    assert!(Heap::new(17).is_ok());
}

#[test]
fn arena_too_large_is_rejected() {
    assert!(matches!(Heap::new(0x4000_0000), Err(AllocError::InvalidCall)));
}

#[test]
fn smallest_arena_serves_its_whole_cell() {
    let mut h = Heap::new(17).expect("smallest arena is accepted");
    let p = h.allocate(8, 1).expect("the one cell fits");
    assert_eq!(p, 9);
    assert_eq!(h.allocate(1, 1), Err(AllocError::OutOfMemory));
    h.deallocate(p).expect("pointer is live");
    assert_eq!(h.head(), 8);
}

#[test]
fn non_power_of_two_alignment_is_rejected() {
    let mut h = Heap::new(1000).expect("arena size is accepted");
    assert_eq!(h.allocate(10, 0), Err(AllocError::InvalidCall));
    assert_eq!(h.allocate(10, 3), Err(AllocError::InvalidCall));
    assert_eq!(h.allocate(10, 6), Err(AllocError::InvalidCall));
    assert_eq!(h.allocate_zeroed(10, 12), Err(AllocError::InvalidCall));
}

#[test]
fn size_beyond_capacity_is_rejected() {
    let mut h = Heap::new(1000).expect("arena size is accepted");
    assert_eq!(h.allocate(992, 1), Err(AllocError::InvalidCall));
    assert!(h.allocate(991, 1).is_ok());
}

#[test]
fn deallocate_rejects_pointers_outside_the_arena() {
    let mut h = Heap::new(1000).expect("arena size is accepted");
    assert_eq!(h.deallocate(0), Err(AllocError::InvalidCall));
    assert_eq!(h.deallocate(8), Err(AllocError::InvalidCall));
    assert_eq!(h.deallocate(1001), Err(AllocError::InvalidCall));
}

#[test]
fn deallocate_rejects_a_pointer_into_untouched_space() {
    let mut h = Heap::new(1000).expect("arena size is accepted");
    assert_eq!(h.deallocate(500), Err(AllocError::InvalidCall));
}

#[test]
fn deallocate_detects_a_double_free_of_the_only_cell() {
    let mut h = Heap::new(1000).expect("arena size is accepted");
    let p = h.allocate(100, 1).expect("fit exists");
    h.deallocate(p).expect("pointer is live");
    assert!(h.deallocate(p).is_err());
}

#[test]
fn reallocate_rejects_what_allocate_rejects() {
    let mut h = Heap::new(1000).expect("arena size is accepted");
    let p = h.allocate(100, 1).expect("fit exists");
    assert_eq!(h.reallocate(p, 100, 3, 200), Err(AllocError::InvalidCall));
    assert_eq!(h.reallocate(p, 100, 1, 992), Err(AllocError::InvalidCall));
    assert_eq!(h.reallocate(0, 100, 1, 200), Err(AllocError::InvalidCall));
    assert_eq!(h.reallocate(999, 100, 1, 200), Err(AllocError::InvalidCall));
}

#[test]
fn reallocate_rejects_an_overstated_old_size() {
    let mut h = Heap::new(1000).expect("arena size is accepted");
    let p = h.allocate(100, 1).expect("fit exists");
    assert_eq!(h.reallocate(p, 600, 1, 500), Err(AllocError::InvalidCall));
}

#[test]
fn reallocate_out_of_memory_leaves_the_block_intact() {
    let mut h = Heap::new(1000).expect("arena size is accepted");
    let p = h.allocate(400, 1).expect("fit exists");
    let q = h.allocate(400, 1).expect("fit exists");
    for i in 0..400 {
        h.write_byte(p + i, (i % 199) as u8);
    }
    assert_eq!(h.reallocate(p, 400, 1, 900), Err(AllocError::OutOfMemory));
    for i in 0..400 {
        assert_eq!(h.read_byte(p + i), (i % 199) as u8);
    }
    let _ = q;
}
