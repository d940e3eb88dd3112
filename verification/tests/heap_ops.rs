use freelist_alloc::{AllocError, Heap};

const ARENA: usize = 2_000_000;
const OVERHEAD: usize = 9;

fn fresh() -> Heap {
    Heap::new(ARENA).expect("arena size is accepted")
}

/// Walks all cells by address, free and allocated alike, and checks that
/// together they cover the arena past the fixed overhead exactly: each
/// cell's payload ends where the next cell's header begins, and the last
/// payload ends on the arena's last byte.
fn assert_partition(h: &Heap) {
    let len = h.arena_len();
    let mut c = 8;
    loop {
        let size = h.cell_size(c);
        let end = c + size;
        assert!(end < len, "cell at {c} reaches past the arena");
        if end == len - 1 {
            break;
        }
        c = end + 5;
    }
}

/// Walks the free list and checks its address order, link symmetry, and
/// that no two neighbouring free cells sit within the merge threshold.
fn assert_free_list_sane(h: &Heap) {
    let mut c = h.head();
    if c == 0 {
        return;
    }
    assert_eq!(h.cell_prev(c), 0);
    loop {
        assert_eq!(h.cell_flag(c), 0);
        let nx = h.cell_next(c);
        if nx == 0 {
            break;
        }
        let gap = nx - h.cell_size(c) - 5;
        assert!(gap >= 13, "free cells at {} and {} are adjacent", c, c + nx);
        assert_eq!(h.cell_prev(c + nx), nx);
        c += nx;
    }
}

#[test]
fn payload_write_read_round_trip() {
    let mut h = fresh();
    let p = h.allocate(64, 16).expect("fit exists");
    assert_eq!(p % 16, 0);
    for i in 0..64 {
        h.write_byte(p + i, (255 - i) as u8);
    }
    for i in 0..64 {
        assert_eq!(h.read_byte(p + i), (255 - i) as u8);
    }
}

#[test]
fn free_then_equal_allocate_returns_same_address() {
    let mut h = fresh();
    let p = h.allocate(300, 32).expect("fit exists");
    h.deallocate(p).expect("pointer is live");
    let q = h.allocate(300, 32).expect("fit exists again");
    assert_eq!(q, p);
}

#[test]
fn allocate_zeroed_clears_every_payload_byte() {
    let mut h = fresh();
    let p = h.allocate(500, 1).expect("fit exists");
    for i in 0..500 {
        h.write_byte(p + i, 0xAB);
    }
    h.deallocate(p).expect("pointer is live");
    let q = h.allocate_zeroed(500, 1).expect("fit exists again");
    for i in 0..500 {
        assert_eq!(h.read_byte(q + i), 0, "byte {i} is not zero");
    }
}

#[test]
fn reallocate_within_current_size_returns_same_pointer() {
    let mut h = fresh();
    let p = h.allocate(100, 1).expect("fit exists");
    for i in 0..100 {
        h.write_byte(p + i, (i * 3) as u8);
    }
    let q = h.reallocate(p, 100, 1, 50).expect("no shrink happens");
    assert_eq!(q, p);
    let r = h.reallocate(p, 100, 1, 100).expect("no growth needed");
    assert_eq!(r, p);
    for i in 0..100 {
        assert_eq!(h.read_byte(p + i), (i * 3) as u8);
    }
}

#[test]
fn small_leftover_is_claimed_whole() {
    let mut h = Heap::new(100).expect("arena size is accepted");
    let p = h.allocate(80, 1).expect("fit exists");
    assert_eq!(p, 9);
    assert_eq!(h.cell_size(8), 91);
    assert_eq!(h.head(), 0);
    h.deallocate(p).expect("pointer is live");
    assert_eq!(h.head(), 8);
    assert_eq!(h.cell_size(8), 91);
}

#[test]
fn split_carves_exactly_the_need() {
    let mut h = fresh();
    let p = h.allocate(20, 1).expect("fit exists");
    assert_eq!(p, 9);
    assert_eq!(h.cell_size(8), 20);
    assert_eq!(h.head(), 33);
    assert_eq!(h.cell_size(33), ARENA - OVERHEAD - 25);
}

#[test]
fn tiny_request_still_gets_link_room() {
    let mut h = fresh();
    let p = h.allocate(1, 1).expect("fit exists");
    assert_eq!(p, 9);
    assert_eq!(h.cell_size(8), 8);
    assert_eq!(h.head(), 21);
    h.deallocate(p).expect("pointer is live");
    assert_eq!(h.cell_size(8), ARENA - OVERHEAD);
}

#[test]
fn zero_sized_allocation_is_served() {
    let mut h = fresh();
    let p = h.allocate(0, 1).expect("zero bytes still fit");
    assert_eq!(p, 9);
    h.deallocate(p).expect("pointer is live");
    assert_eq!(h.cell_size(8), ARENA - OVERHEAD);
}

#[test]
fn partition_holds_between_operations() {
    let mut h = fresh();
    assert_partition(&h);
    let p1 = h.allocate(100, 8).expect("fit exists");
    assert_partition(&h);
    let p2 = h.allocate(50, 4).expect("fit exists");
    assert_partition(&h);
    let p3 = h.allocate(1000, 64).expect("fit exists");
    assert_partition(&h);
    h.deallocate(p2).expect("pointer is live");
    assert_partition(&h);
    let p4 = h.reallocate(p3, 1000, 64, 3000).expect("space exists");
    assert_partition(&h);
    h.deallocate(p1).expect("pointer is live");
    assert_partition(&h);
    h.deallocate(p4).expect("pointer is live");
    assert_partition(&h);
    assert_eq!(h.cell_size(8), ARENA - OVERHEAD);
}

#[test]
fn no_two_free_cells_stay_adjacent() {
    let mut h = fresh();
    let mut ptrs = Vec::new();
    for i in 0..8 {
        ptrs.push(h.allocate(100 + 30 * i, 4).expect("fit exists"));
    }
    for (i, p) in ptrs.iter().enumerate() {
        if i % 2 == 0 {
            h.deallocate(*p).expect("pointer is live");
            assert_free_list_sane(&h);
        }
    }
    for (i, p) in ptrs.iter().enumerate() {
        if i % 2 == 1 {
            h.deallocate(*p).expect("pointer is live");
            assert_free_list_sane(&h);
        }
    }
    assert_eq!(h.cell_size(8), ARENA - OVERHEAD);
    assert_eq!(h.cell_next(8), 0);
}

#[test]
fn large_alignment_pads_and_frees_cleanly() {
    let mut h = fresh();
    let p = h.allocate(10, 1024).expect("fit exists");
    assert_eq!(p % 1024, 0);
    assert_eq!(p, 1024);
    h.deallocate(p).expect("the scan crosses all padding back to the flag");
    assert_eq!(h.cell_size(8), ARENA - OVERHEAD);
    assert_eq!(h.cell_next(8), 0);
}

#[test]
fn setup_resets_a_used_heap() {
    let mut h = fresh();
    let _ = h.allocate(5000, 1).expect("fit exists");
    let _ = h.allocate(400, 1).expect("fit exists");
    h.setup();
    assert_eq!(h.head(), 8);
    assert_eq!(h.cell_size(8), ARENA - OVERHEAD);
    assert_eq!(h.allocate(5000, 1).expect("heap is whole again"), 9);
}

#[test]
fn mixed_workload_keeps_the_partition_and_coalesces_back() {
    let mut h = fresh();
    let mut seed: u64 = 0x2545_F491_4F6C_DD1D;
    let mut live: Vec<(usize, usize)> = Vec::new();
    for step in 0..200 {
        seed = seed.wrapping_mul(6364136223846793005).wrapping_add(1442695040888963407);
        let size = 1 + (seed >> 33) as usize % 2000;
        let align = 1 << ((seed >> 13) % 7);
        if step % 3 == 2 && !live.is_empty() {
            let (p, old) = live.remove((seed as usize) % live.len());
            if step % 6 == 2 {
                h.deallocate(p).expect("pointer is live");
            } else {
                let q = h.reallocate(p, old, align, size).expect("space exists");
                live.push((q, size));
            }
        } else {
            let p = h.allocate(size, align).expect("space exists");
            assert_eq!(p % align, 0);
            live.push((p, size));
        }
        assert_partition(&h);
        assert_free_list_sane(&h);
    }
    while let Some((p, _)) = live.pop() {
        h.deallocate(p).expect("pointer is live");
        assert_partition(&h);
        assert_free_list_sane(&h);
    }
    assert_eq!(h.head(), 8);
    assert_eq!(h.cell_size(8), ARENA - OVERHEAD);
    assert_eq!(h.cell_next(8), 0);
}

#[test]
fn out_of_memory_when_alignment_exceeds_arena() {
    let mut h = Heap::new(100).expect("arena size is accepted");
    assert_eq!(h.allocate(1, 128), Err(AllocError::OutOfMemory));
}
