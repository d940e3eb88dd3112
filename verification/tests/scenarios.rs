use freelist_alloc::{AllocError, Heap};

const ARENA: usize = 2_000_000;
const OVERHEAD: usize = 9;

fn fresh() -> Heap {
    Heap::new(ARENA).expect("arena size is accepted")
}

#[test]
fn setup_leaves_one_free_cell() {
    let h = fresh();
    assert_eq!(h.arena_len(), ARENA);
    assert_eq!(h.head(), 8);
    assert_eq!(h.cell_size(8), ARENA - OVERHEAD);
    assert_eq!(h.cell_flag(8), 0);
    assert_eq!(h.cell_prev(8), 0);
    assert_eq!(h.cell_next(8), 0);
}

#[test]
fn two_allocations_coalesce_back_in_order() {
    let mut h = fresh();
    let p1 = h.allocate(100, 8).expect("first fit exists");
    assert_eq!(p1 % 8, 0);
    let p2 = h.allocate(50, 4).expect("second fit exists");
    assert_eq!(p2 % 4, 0);
    assert!(p2 > p1);
    h.deallocate(p1).expect("first pointer is live");
    h.deallocate(p2).expect("second pointer is live");
    assert_eq!(h.head(), 8);
    assert_eq!(h.cell_size(8), ARENA - OVERHEAD);
    assert_eq!(h.cell_next(8), 0);
}

#[test]
fn two_allocations_coalesce_back_in_reverse_order() {
    let mut h = fresh();
    let p1 = h.allocate(100, 8).expect("first fit exists");
    let p2 = h.allocate(50, 4).expect("second fit exists");
    h.deallocate(p2).expect("second pointer is live");
    h.deallocate(p1).expect("first pointer is live");
    assert_eq!(h.head(), 8);
    assert_eq!(h.cell_size(8), ARENA - OVERHEAD);
    assert_eq!(h.cell_next(8), 0);
}

#[test]
fn reallocate_grows_in_place_with_free_space_behind() {
    let mut h = fresh();
    let p = h.allocate(1000, 1).expect("fit exists");
    for i in 0..1000 {
        h.write_byte(p + i, (i % 251) as u8);
    }
    let q = h.reallocate(p, 1000, 1, 2000).expect("next cell is free");
    assert_eq!(q, p);
    for i in 0..1000 {
        assert_eq!(h.read_byte(p + i), (i % 251) as u8);
    }
}

#[test]
fn reallocate_moves_when_next_cell_is_claimed() {
    let mut h = fresh();
    let p = h.allocate(100, 1).expect("fit exists");
    let barrier = h.allocate(100, 1).expect("fit exists");
    for i in 0..100 {
        h.write_byte(p + i, (i + 7) as u8);
    }
    let q = h.reallocate(p, 100, 1, 300).expect("free space exists elsewhere");
    assert_ne!(q, p);
    for i in 0..100 {
        assert_eq!(h.read_byte(q + i), (i + 7) as u8);
    }
    h.deallocate(barrier).expect("barrier is live");
    h.deallocate(q).expect("moved pointer is live");
    assert_eq!(h.cell_size(8), ARENA - OVERHEAD);
}

#[test]
fn exhaustion_and_recovery() {
    let mut h = Heap::new(100).expect("arena size is accepted");
    let p1 = h.allocate(20, 1).expect("fit exists");
    let p2 = h.allocate(20, 1).expect("fit exists");
    let p3 = h.allocate(20, 1).expect("fit exists");
    assert_eq!(h.allocate(20, 1), Err(AllocError::OutOfMemory));
    h.deallocate(p2).expect("pointer is live");
    let p4 = h.allocate(20, 1).expect("freed space serves an equal request");
    assert_eq!(p4, p2);
    let _ = (p1, p3);
}

#[test]
fn failed_allocation_never_silently_succeeds_later() {
    let mut h = Heap::new(100).expect("arena size is accepted");
    let _p = h.allocate(80, 1).expect("fit exists");
    assert_eq!(h.allocate(10, 1), Err(AllocError::OutOfMemory));
    assert_eq!(h.allocate(10, 1), Err(AllocError::OutOfMemory));
}
