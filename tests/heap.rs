use kernel::heap::{HeapBlock, LinkedListAllocator, HEAP_BLOCK_SIZE};

fn heap_at(start: usize, size: usize) -> LinkedListAllocator {
    let mut h = LinkedListAllocator::new();
    h.init(start, size);
    h
}

fn check_list(h: &LinkedListAllocator) {
    let blocks: &Vec<HeapBlock> = h.blocks();
    for w in blocks.windows(2) {
        assert_eq!(w[1].addr, w[0].addr + HEAP_BLOCK_SIZE + w[0].size);
        assert!(!(w[0].free && w[1].free));
    }
}

#[test]
fn heap_round_trip_scenario() {
    let mut h = heap_at(0x200000, 0x100000);
    let a = h.alloc_aligned(64, 16);
    let b = h.alloc_aligned(128, 64);
    h.dealloc(a);
    let c = h.alloc_aligned(64, 16);
    assert_eq!(a, c);
    assert_eq!(b % 64, 0);
    assert_eq!(a % 16, 0);
    assert_ne!(a, 0);
}

#[test]
fn init_makes_one_free_block() {
    let h = heap_at(0x1000, 4096);
    assert_eq!(
        h.blocks().clone(),
        vec![HeapBlock { addr: 0x1000, size: 4096 - HEAP_BLOCK_SIZE, free: true, link: 0 }]
    );
}

#[test]
fn blocks_stay_contiguous_and_coalesced() {
    let mut h = heap_at(0x10000, 0x8000);
    let mut ptrs = Vec::new();
    for i in 0..10usize {
        ptrs.push(h.alloc_aligned(24 + i * 8, 8 << (i % 4)));
        check_list(&h);
    }
    for i in [3usize, 1, 2, 7, 9, 0, 8, 4, 6, 5] {
        h.dealloc(ptrs[i]);
        check_list(&h);
    }
    assert_eq!(h.blocks().len(), 1);
}

#[test]
fn aligned_payload_reads_back_its_block() {
    let mut h = heap_at(0x40000, 0x4000);
    let p = h.alloc_aligned(100, 256);
    assert_eq!(p % 256, 0);
    let b = h.read_word(p - 8).unwrap();
    let block = h.blocks().iter().find(|x| x.addr == b).copied().unwrap();
    assert!(b + HEAP_BLOCK_SIZE <= p);
    assert!(b + HEAP_BLOCK_SIZE + block.size >= p + 100);
    assert!(!block.free);
}

#[test]
fn dealloc_of_alloc_restores_the_list() {
    let mut h = heap_at(0x40000, 0x4000);
    let _keep = h.alloc_aligned(40, 8);
    let before = h.blocks().clone();
    let p = h.alloc_aligned(300, 32);
    assert_ne!(before, h.blocks().clone());
    h.dealloc(p);
    assert_eq!(before, h.blocks().clone());
    let q = h.alloc_aligned(300, 32);
    assert_eq!(p, q);
}

#[test]
fn too_large_request_fails_and_changes_nothing() {
    let mut h = heap_at(0x40000, 0x1000);
    let before = h.blocks().clone();
    assert_eq!(h.alloc_aligned(0x2000, 8), 0);
    assert_eq!(before, h.blocks().clone());
}

#[test]
fn double_free_is_ignored() {
    let mut h = heap_at(0x40000, 0x1000);
    let p = h.alloc_raw(64);
    let q = h.alloc_raw(64);
    h.free_raw(p);
    let after_first = h.blocks().clone();
    h.free_raw(p);
    assert_eq!(after_first, h.blocks().clone());
    assert_eq!(p, 0x40000 + HEAP_BLOCK_SIZE);
    assert_eq!(q, p + 64 + HEAP_BLOCK_SIZE);
}

#[test]
fn raw_sizes_round_up_to_eight() {
    let mut h = heap_at(0x40000, 0x1000);
    let p = h.alloc_raw(5);
    assert_eq!(h.blocks()[0].size, 8);
    assert_eq!(p, 0x40000 + HEAP_BLOCK_SIZE);
}

#[test]
fn realloc_moves_and_reports_copy_length() {
    let mut h = heap_at(0x40000, 0x4000);
    let p = h.alloc_aligned(64, 8);
    let (q, copy) = h.realloc_aligned(p, 200, 8);
    assert_ne!(q, 0);
    assert_ne!(q, p);
    assert_eq!(copy, 72);
    assert!(h.read_word(p - 8).is_none());
}

#[test]
fn realloc_failure_keeps_old_block() {
    let mut h = heap_at(0x40000, 0x400);
    let p = h.alloc_aligned(64, 8);
    let before = h.blocks().clone();
    assert_eq!(h.realloc_aligned(p, 0x1000, 8), (0, 0));
    assert_eq!(before, h.blocks().clone());
}
