//! Kernel heap: a first-fit free list of blocks in address order, and the
//! offset-header wrapper that serves aligned allocations from it.
//!
//! Memory is modelled by the block headers themselves: the list holds one
//! `HeapBlock` per header, in address order. The word that the aligned
//! wrapper stores just below each payload lives inside a block, so each block
//! records the payload (if any) whose preceding word names it.
use vstd::prelude::*;

verus! {

/// Bytes taken by one block header (`size`, `next`, `prev`, `free`).
pub const HEAP_BLOCK_SIZE: usize = 32;

/// Bytes of the word that precedes an aligned payload.
pub const WORD_SIZE: usize = 8;

/// Smallest payload that a split may leave behind.
pub const MIN_SPLIT_PAYLOAD: usize = 16;

/// One heap block header.
#[derive(Clone, Copy, Debug, PartialEq, Eq, Structural)]
pub struct HeapBlock {
    /// Address of the header.
    pub addr: usize,
    /// Payload bytes after the header.
    pub size: usize,
    pub free: bool,
    /// Aligned payload address whose preceding word holds `addr`, or 0.
    pub link: usize,
}

/// Abstract state of the heap.
pub struct HeapView {
    pub start: nat,
    pub end: nat,
    pub blocks: Seq<HeapBlock>,
}

pub open spec fn block_end(b: HeapBlock) -> int {
    b.addr + HEAP_BLOCK_SIZE + b.size
}

/// Each block's `next` starts where the block's payload ends.
pub open spec fn blocks_contiguous(s: Seq<HeapBlock>) -> bool {
    forall|i: int| 0 < i < s.len() ==> #[trigger] s[i].addr == block_end(s[i - 1])
}

/// No two neighbouring blocks are both free.
pub open spec fn no_adjacent_free(s: Seq<HeapBlock>) -> bool {
    forall|i: int| 0 < i < s.len() ==> !(#[trigger] s[i].free && s[i - 1].free)
}

pub open spec fn blocks_ordered(s: Seq<HeapBlock>) -> bool {
    forall|i: int, j: int| 0 <= i < j < s.len() ==> block_end(#[trigger] s[i]) <= #[trigger] s[j].addr
}

pub open spec fn links_inside(s: Seq<HeapBlock>) -> bool {
    forall|i: int|
        0 <= i < s.len() ==> {
            &&& (#[trigger] s[i]).free ==> s[i].link == 0
            &&& s[i].link != 0 ==> s[i].addr + HEAP_BLOCK_SIZE + WORD_SIZE <= s[i].link
                <= block_end(s[i])
        }
}

pub open spec fn blocks_within(s: Seq<HeapBlock>, start: int, end: int) -> bool {
    &&& forall|i: int| 0 <= i < s.len() ==> start <= (#[trigger] s[i]).addr && block_end(s[i]) <= end
    &&& s.len() > 0 ==> s[0].addr == start && block_end(s.last()) == end
}

/// Everything the heap keeps but the absence of neighbouring free blocks.
pub open spec fn heap_shape(v: HeapView) -> bool {
    &&& v.end <= usize::MAX
    &&& blocks_within(v.blocks, v.start as int, v.end as int)
    &&& blocks_contiguous(v.blocks)
    &&& blocks_ordered(v.blocks)
    &&& links_inside(v.blocks)
}

pub open spec fn heap_wf(v: HeapView) -> bool {
    &&& heap_shape(v)
    &&& no_adjacent_free(v.blocks)
}

/// `n` rounded up to a multiple of 8.
pub open spec fn round8(n: int) -> int {
    (n + 7) / 8 * 8
}

/// Index of the first free block of at least `size` payload bytes, looking
/// from `i` on; `s.len()` when there is none.
pub open spec fn first_fit(s: Seq<HeapBlock>, size: int, i: int) -> int
    decreases s.len() - i,
{
    if i < 0 || i >= s.len() {
        s.len() as int
    } else if s[i].free && s[i].size >= size {
        i
    } else {
        first_fit(s, size, i + 1)
    }
}

/// Whether taking `size` bytes from a block of `have` bytes splits it.
pub open spec fn splits(have: int, size: int) -> bool {
    have - size >= HEAP_BLOCK_SIZE + MIN_SPLIT_PAYLOAD
}

/// The list after block `i` is handed out for `size` bytes.
pub open spec fn carve(s: Seq<HeapBlock>, i: int, size: int) -> Seq<HeapBlock> {
    let b = s[i];
    if splits(b.size as int, size) {
        s.update(i, HeapBlock { addr: b.addr, size: size as usize, free: false, link: 0 }).insert(
            i + 1,
            HeapBlock {
                addr: (b.addr + HEAP_BLOCK_SIZE + size) as usize,
                size: (b.size - size - HEAP_BLOCK_SIZE) as usize,
                free: true,
                link: 0,
            },
        )
    } else {
        s.update(i, HeapBlock { free: false, ..b })
    }
}

/// Result of the raw allocator: the new list and the payload address (0 on
/// failure).
pub open spec fn alloc_raw_result(s: Seq<HeapBlock>, size: int) -> (Seq<HeapBlock>, int) {
    let r = round8(size);
    let i = first_fit(s, r, 0);
    if i == s.len() {
        (s, 0)
    } else {
        (carve(s, i, r), s[i].addr + HEAP_BLOCK_SIZE)
    }
}

/// Index of the first block whose header is at `a`, from `i` on.
pub open spec fn index_at(s: Seq<HeapBlock>, a: int, i: int) -> int
    decreases s.len() - i,
{
    if i < 0 || i >= s.len() {
        s.len() as int
    } else if s[i].addr == a {
        i
    } else {
        index_at(s, a, i + 1)
    }
}

/// Index of the first block that owns payload `p`, from `i` on.
pub open spec fn index_linked(s: Seq<HeapBlock>, p: int, i: int) -> int
    decreases s.len() - i,
{
    if i < 0 || i >= s.len() {
        s.len() as int
    } else if s[i].link == p {
        i
    } else {
        index_linked(s, p, i + 1)
    }
}

/// The word stored at address `w`: the header address of the block whose
/// aligned payload starts right after it.
pub open spec fn word_at(s: Seq<HeapBlock>, w: int) -> Option<usize> {
    let k = index_linked(s, w + WORD_SIZE, 0);
    if w + WORD_SIZE == 0 || k == s.len() {
        None
    } else {
        Some(s[k].addr)
    }
}

/// Blocks `i` and `i + 1` joined into one free block.
pub open spec fn merge_next(s: Seq<HeapBlock>, i: int) -> Seq<HeapBlock> {
    s.remove(i + 1).update(
        i,
        HeapBlock {
            addr: s[i].addr,
            size: (s[i].size + HEAP_BLOCK_SIZE + s[i + 1].size) as usize,
            free: true,
            link: 0,
        },
    )
}

/// Block `i` marked free, then coalesced with the next and then the previous
/// block.
pub open spec fn release(s: Seq<HeapBlock>, i: int) -> Seq<HeapBlock> {
    let s1 = s.update(i, HeapBlock { free: true, link: 0, ..s[i] });
    let s2 = if i + 1 < s1.len() && s1[i + 1].free {
        merge_next(s1, i)
    } else {
        s1
    };
    if i > 0 && s2[i - 1].free {
        merge_next(s2, i - 1)
    } else {
        s2
    }
}

/// The list after the raw free of payload address `ptr`.
pub open spec fn free_raw_result(s: Seq<HeapBlock>, ptr: int) -> Seq<HeapBlock> {
    let k = index_at(s, ptr - HEAP_BLOCK_SIZE, 0);
    if ptr < HEAP_BLOCK_SIZE || k == s.len() || s[k].free {
        s
    } else {
        release(s, k)
    }
}

/// Smallest address at or above `addr + WORD_SIZE` that is a multiple of
/// `align`.
pub open spec fn aligned_from(addr: int, align: int) -> int {
    let c = addr + WORD_SIZE;
    if c % align == 0 {
        c
    } else {
        c + (align - c % align)
    }
}

/// Bytes that the aligned wrapper asks of the raw allocator.
pub open spec fn wrapped_request(size: int, align: int) -> int {
    size + align + WORD_SIZE
}

/// Result of the aligned allocation of `size` bytes at `align`: the new list
/// and the payload address (0 on failure).
pub open spec fn alloc_result(s: Seq<HeapBlock>, size: int, align: int) -> (Seq<HeapBlock>, int) {
    let r = round8(wrapped_request(size, align));
    let i = first_fit(s, r, 0);
    if i == s.len() {
        (s, 0)
    } else {
        let p = aligned_from(s[i].addr + HEAP_BLOCK_SIZE, align);
        (carve(s, i, r).update(i, HeapBlock { link: p as usize, ..carve(s, i, r)[i] }), p)
    }
}

/// The list after the aligned free of payload `ptr`.
pub open spec fn dealloc_result(s: Seq<HeapBlock>, ptr: int) -> Seq<HeapBlock> {
    if ptr == 0 || ptr < WORD_SIZE {
        s
    } else {
        match word_at(s, ptr - WORD_SIZE) {
            None => s,
            Some(b) => free_raw_result(s, b + HEAP_BLOCK_SIZE),
        }
    }
}

/// The linked-list allocator.
pub struct LinkedListAllocator {
    start: usize,
    end: usize,
    blocks: Vec<HeapBlock>,
}

impl View for LinkedListAllocator {
    type V = HeapView;

    closed spec fn view(&self) -> HeapView {
        HeapView { start: self.start as nat, end: self.end as nat, blocks: self.blocks@ }
    }
}

proof fn lemma_round8(n: int)
    requires
        n >= 0,
    ensures
        n <= round8(n) <= n + 7,
        round8(n) % 8 == 0,
{
}

proof fn lemma_first_fit(s: Seq<HeapBlock>, size: int, i: int)
    requires
        0 <= i <= s.len(),
    ensures
        i <= first_fit(s, size, i) <= s.len(),
        first_fit(s, size, i) < s.len() ==> s[first_fit(s, size, i)].free && s[first_fit(
            s,
            size,
            i,
        )].size >= size,
        forall|j: int| i <= j < first_fit(s, size, i) ==> !(s[j].free && s[j].size >= size),
    decreases s.len() - i,
{
    if i < s.len() && !(s[i].free && s[i].size >= size) {
        lemma_first_fit(s, size, i + 1);
    }
}

proof fn lemma_index_at(s: Seq<HeapBlock>, a: int, i: int)
    requires
        0 <= i <= s.len(),
    ensures
        i <= index_at(s, a, i) <= s.len(),
        index_at(s, a, i) < s.len() ==> s[index_at(s, a, i)].addr == a,
        forall|j: int| i <= j < index_at(s, a, i) ==> s[j].addr != a,
    decreases s.len() - i,
{
    if i < s.len() && s[i].addr != a {
        lemma_index_at(s, a, i + 1);
    }
}

proof fn lemma_index_linked(s: Seq<HeapBlock>, p: int, i: int)
    requires
        0 <= i <= s.len(),
    ensures
        i <= index_linked(s, p, i) <= s.len(),
        index_linked(s, p, i) < s.len() ==> s[index_linked(s, p, i)].link == p,
        forall|j: int| i <= j < index_linked(s, p, i) ==> s[j].link != p,
    decreases s.len() - i,
{
    if i < s.len() && s[i].link != p {
        lemma_index_linked(s, p, i + 1);
    }
}

/// Index-wise description of a split.
proof fn lemma_split_shape(s: Seq<HeapBlock>, i: int, size: int)
    requires
        0 <= i < s.len(),
        splits(s[i].size as int, size),
        size >= 0,
    ensures
        carve(s, i, size).len() == s.len() + 1,
        forall|j: int| 0 <= j < i ==> #[trigger] carve(s, i, size)[j] == s[j],
        carve(s, i, size)[i] == (HeapBlock { addr: s[i].addr, size: size as usize, free: false, link: 0 }),
        carve(s, i, size)[i + 1] == (HeapBlock {
            addr: (s[i].addr + HEAP_BLOCK_SIZE + size) as usize,
            size: (s[i].size - size - HEAP_BLOCK_SIZE) as usize,
            free: true,
            link: 0,
        }),
        forall|j: int| i + 1 < j < s.len() + 1 ==> #[trigger] carve(s, i, size)[j] == s[j - 1],
{
}

spec fn split_pre(v: HeapView, i: int, size: int) -> bool {
    &&& heap_wf(v)
    &&& 0 <= i < v.blocks.len()
    &&& v.blocks[i].free
    &&& 0 <= size
    &&& splits(v.blocks[i].size as int, size)
}

proof fn lemma_split_contiguous(v: HeapView, i: int, size: int)
    requires
        split_pre(v, i, size),
    ensures
        blocks_contiguous(carve(v.blocks, i, size)),
{
    let s = v.blocks;
    let t = carve(s, i, size);
    lemma_split_shape(s, i, size);
    assert forall|j: int| 0 < j < t.len() implies #[trigger] t[j].addr == block_end(t[j - 1]) by {
        if j > i + 2 {
            assert(t[j - 1] == s[j - 2]);
            assert(s[j - 1].addr == block_end(s[j - 2]));
        } else if j == i + 2 {
            assert(s[i + 1].addr == block_end(s[i]));
        } else if 0 < j <= i {
            assert(t[j - 1] == s[j - 1]);
            assert(s[j].addr == block_end(s[j - 1]));
        }
    }
}

proof fn lemma_split_ordered(v: HeapView, i: int, size: int)
    requires
        split_pre(v, i, size),
    ensures
        blocks_ordered(carve(v.blocks, i, size)),
{
    let s = v.blocks;
    let t = carve(s, i, size);
    lemma_split_shape(s, i, size);
    assert forall|j1: int, j2: int| 0 <= j1 < j2 < t.len() implies block_end(#[trigger] t[j1])
        <= #[trigger] t[j2].addr by {
        if j2 > i + 1 {
            if j1 < i {
                assert(block_end(s[j1]) <= s[j2 - 1].addr);
            } else if j1 > i + 1 {
                assert(block_end(s[j1 - 1]) <= s[j2 - 1].addr);
            } else {
                assert(block_end(s[i]) <= s[j2 - 1].addr);
            }
        } else if j1 < i {
            assert(block_end(s[j1]) <= s[i].addr);
        }
    }
}

proof fn lemma_split_free(v: HeapView, i: int, size: int)
    requires
        split_pre(v, i, size),
    ensures
        no_adjacent_free(carve(v.blocks, i, size)),
{
    let s = v.blocks;
    let t = carve(s, i, size);
    lemma_split_shape(s, i, size);
    assert forall|j: int| 0 < j < t.len() implies !(#[trigger] t[j].free && t[j - 1].free) by {
        if j == i + 2 {
            assert(!(s[i + 1].free && s[i].free));
        } else if j > i + 2 {
            assert(t[j - 1] == s[j - 2]);
            assert(!(s[j - 1].free && s[j - 2].free));
        } else if 0 < j < i {
            assert(t[j - 1] == s[j - 1]);
            assert(!(s[j].free && s[j - 1].free));
        }
    }
}

proof fn lemma_split_links(v: HeapView, i: int, size: int)
    requires
        split_pre(v, i, size),
    ensures
        links_inside(carve(v.blocks, i, size)),
{
    let s = v.blocks;
    let t = carve(s, i, size);
    lemma_split_shape(s, i, size);
    assert forall|j: int| 0 <= j < t.len() implies {
        &&& (#[trigger] t[j]).free ==> t[j].link == 0
        &&& t[j].link != 0 ==> t[j].addr + HEAP_BLOCK_SIZE + WORD_SIZE <= t[j].link <= block_end(t[j])
    } by {
        if j > i + 1 {
            assert(t[j] == s[j - 1]);
        } else if j < i {
            assert(t[j] == s[j]);
        }
    }
}

proof fn lemma_split_within(v: HeapView, i: int, size: int)
    requires
        split_pre(v, i, size),
    ensures
        blocks_within(carve(v.blocks, i, size), v.start as int, v.end as int),
{
    let s = v.blocks;
    let t = carve(s, i, size);
    lemma_split_shape(s, i, size);
    assert forall|j: int| 0 <= j < t.len() implies v.start <= (#[trigger] t[j]).addr && block_end(t[j]) <= v.end by {
        if j > i + 1 {
            assert(t[j] == s[j - 1]);
        } else if j < i {
            assert(t[j] == s[j]);
        }
    }
    if i + 1 == t.len() - 1 {
        assert(s.last() == s[i]);
    } else {
        assert(t.last() == s.last());
    }
}

proof fn lemma_split_wf(v: HeapView, i: int, size: int)
    requires
        split_pre(v, i, size),
    ensures
        heap_wf(HeapView { blocks: carve(v.blocks, i, size), ..v }),
{
    lemma_split_contiguous(v, i, size);
    lemma_split_ordered(v, i, size);
    lemma_split_free(v, i, size);
    lemma_split_links(v, i, size);
    lemma_split_within(v, i, size);
}

proof fn lemma_take_whole_wf(v: HeapView, i: int)
    requires
        heap_wf(v),
        0 <= i < v.blocks.len(),
        v.blocks[i].free,
    ensures
        heap_wf(HeapView { blocks: v.blocks.update(i, HeapBlock { free: false, ..v.blocks[i] }), ..v }),
{
    let s = v.blocks;
    let t = s.update(i, HeapBlock { free: false, ..s[i] });
    assert(no_adjacent_free(t)) by {
        assert forall|j: int| 0 < j < t.len() implies !(#[trigger] t[j].free && t[j - 1].free) by {
            assert(!(s[j].free && s[j - 1].free));
        }
    }
    assert(blocks_contiguous(t)) by {
        assert forall|j: int| 0 < j < t.len() implies #[trigger] t[j].addr == block_end(t[j - 1]) by {
            assert(s[j].addr == block_end(s[j - 1]));
        }
    }
    assert(blocks_ordered(t)) by {
        assert forall|j1: int, j2: int| 0 <= j1 < j2 < t.len() implies block_end(#[trigger] t[j1])
            <= #[trigger] t[j2].addr by {
            assert(block_end(s[j1]) <= s[j2].addr);
        }
    }
    assert(links_inside(t)) by {
        assert forall|j: int| 0 <= j < t.len() implies {
            &&& (#[trigger] t[j]).free ==> t[j].link == 0
            &&& t[j].link != 0 ==> t[j].addr + HEAP_BLOCK_SIZE + WORD_SIZE <= t[j].link <= block_end(t[j])
        } by {
            assert(s[j].free ==> s[j].link == 0);
        }
    }
    assert(blocks_within(t, v.start as int, v.end as int)) by {
        assert forall|j: int| 0 <= j < t.len() implies v.start <= (#[trigger] t[j]).addr && block_end(t[j]) <= v.end by {
            assert(v.start <= s[j].addr && block_end(s[j]) <= v.end);
        }
        if t.len() > 0 {
            assert(block_end(t.last()) == block_end(s.last()));
        }
    }
}

/// Carving a free block keeps the heap well formed.
proof fn lemma_carve_wf(v: HeapView, i: int, size: int)
    requires
        heap_wf(v),
        0 <= i < v.blocks.len(),
        v.blocks[i].free,
        0 <= size <= v.blocks[i].size,
    ensures
        heap_wf(HeapView { blocks: carve(v.blocks, i, size), ..v }),
        carve(v.blocks, i, size).len() >= v.blocks.len(),
        carve(v.blocks, i, size)[i].addr == v.blocks[i].addr,
        carve(v.blocks, i, size)[i].size >= size,
        !carve(v.blocks, i, size)[i].free,
        carve(v.blocks, i, size)[i].link == 0,
        forall|j: int| 0 <= j < i ==> carve(v.blocks, i, size)[j] == v.blocks[j],
{
    if splits(v.blocks[i].size as int, size) {
        lemma_split_shape(v.blocks, i, size);
        lemma_split_wf(v, i, size);
    } else {
        lemma_take_whole_wf(v, i);
    }
}

proof fn lemma_mark_free_shape(v: HeapView, k: int)
    requires
        heap_shape(v),
        0 <= k < v.blocks.len(),
    ensures
        heap_shape(HeapView { blocks: v.blocks.update(k, HeapBlock { free: true, link: 0, ..v.blocks[k] }), ..v }),
{
    let s = v.blocks;
    let t = s.update(k, HeapBlock { free: true, link: 0, ..s[k] });
    assert forall|j: int| 0 < j < t.len() implies #[trigger] t[j].addr == block_end(t[j - 1]) by {
        assert(s[j].addr == block_end(s[j - 1]));
    }
    assert forall|j1: int, j2: int| 0 <= j1 < j2 < t.len() implies block_end(#[trigger] t[j1])
        <= #[trigger] t[j2].addr by {
        assert(block_end(s[j1]) <= s[j2].addr);
    }
    assert forall|j: int| 0 <= j < t.len() implies {
        &&& (#[trigger] t[j]).free ==> t[j].link == 0
        &&& t[j].link != 0 ==> t[j].addr + HEAP_BLOCK_SIZE + WORD_SIZE <= t[j].link <= block_end(t[j])
    } by {
        assert(s[j].free ==> s[j].link == 0);
    }
    assert forall|j: int| 0 <= j < t.len() implies v.start <= (#[trigger] t[j]).addr && block_end(t[j]) <= v.end by {
        assert(v.start <= s[j].addr && block_end(s[j]) <= v.end);
    }
    if t.len() > 0 {
        assert(block_end(t.last()) == block_end(s.last()));
    }
}

/// Index-wise description of a merge.
proof fn lemma_merge_facts(s: Seq<HeapBlock>, i: int)
    requires
        0 <= i,
        i + 1 < s.len(),
    ensures
        merge_next(s, i).len() == s.len() - 1,
        forall|j: int| 0 <= j < i ==> #[trigger] merge_next(s, i)[j] == s[j],
        merge_next(s, i)[i] == (HeapBlock {
            addr: s[i].addr,
            size: (s[i].size + HEAP_BLOCK_SIZE + s[i + 1].size) as usize,
            free: true,
            link: 0,
        }),
        forall|j: int| i < j < s.len() - 1 ==> #[trigger] merge_next(s, i)[j] == s[j + 1],
{
}

proof fn lemma_merge_shape(v: HeapView, i: int)
    requires
        heap_shape(v),
        0 <= i,
        i + 1 < v.blocks.len(),
    ensures
        heap_shape(HeapView { blocks: merge_next(v.blocks, i), ..v }),
        block_end(merge_next(v.blocks, i)[i]) == block_end(v.blocks[i + 1]),
{
    let s = v.blocks;
    let t = merge_next(s, i);
    lemma_merge_facts(s, i);
    assert(s[i + 1].addr == block_end(s[i]));
    assert(block_end(s[i + 1]) <= v.end);
    assert forall|j: int| 0 < j < t.len() implies #[trigger] t[j].addr == block_end(t[j - 1]) by {
        if j > i + 1 {
            assert(t[j - 1] == s[j]);
            assert(s[j + 1].addr == block_end(s[j]));
        } else if j == i + 1 {
            assert(s[i + 2].addr == block_end(s[i + 1]));
        } else if j <= i {
            assert(t[j - 1] == s[j - 1]);
            assert(s[j].addr == block_end(s[j - 1]));
        }
    }
    assert forall|j1: int, j2: int| 0 <= j1 < j2 < t.len() implies block_end(#[trigger] t[j1])
        <= #[trigger] t[j2].addr by {
        if j2 > i {
            if j1 < i {
                assert(block_end(s[j1]) <= s[j2 + 1].addr);
            } else if j1 > i {
                assert(block_end(s[j1 + 1]) <= s[j2 + 1].addr);
            } else {
                assert(block_end(s[i + 1]) <= s[j2 + 1].addr);
            }
        } else {
            assert(block_end(s[j1]) <= s[j2].addr);
        }
    }
    assert forall|j: int| 0 <= j < t.len() implies {
        &&& (#[trigger] t[j]).free ==> t[j].link == 0
        &&& t[j].link != 0 ==> t[j].addr + HEAP_BLOCK_SIZE + WORD_SIZE <= t[j].link <= block_end(t[j])
    } by {
        if j > i {
            assert(t[j] == s[j + 1]);
        } else if j < i {
            assert(t[j] == s[j]);
        }
    }
    assert forall|j: int| 0 <= j < t.len() implies v.start <= (#[trigger] t[j]).addr && block_end(t[j]) <= v.end by {
        if j > i {
            assert(t[j] == s[j + 1]);
        } else if j < i {
            assert(t[j] == s[j]);
        }
    }
    if i + 1 == s.len() - 1 {
        assert(t.last() == t[i]);
    } else {
        assert(t.last() == s.last());
    }
}

proof fn lemma_release_shape(v: HeapView, k: int)
    requires
        heap_shape(v),
        0 <= k < v.blocks.len(),
    ensures
        heap_shape(HeapView { blocks: release(v.blocks, k), ..v }),
{
    let s = v.blocks;
    let s1 = s.update(k, HeapBlock { free: true, link: 0, ..s[k] });
    lemma_mark_free_shape(v, k);
    let v1 = HeapView { blocks: s1, ..v };
    let s2 = if k + 1 < s1.len() && s1[k + 1].free {
        lemma_merge_shape(v1, k);
        merge_next(s1, k)
    } else {
        s1
    };
    let v2 = HeapView { blocks: s2, ..v };
    if k > 0 && s2[k - 1].free {
        lemma_merge_shape(v2, k - 1);
    }
}

proof fn lemma_release_adjacent_both(s: Seq<HeapBlock>, k: int)
    requires
        no_adjacent_free(s),
        0 < k,
        k + 1 < s.len(),
        !s[k].free,
        s[k + 1].free,
        s[k - 1].free,
    ensures
        no_adjacent_free(release(s, k)),
{
    let s1 = s.update(k, HeapBlock { free: true, link: 0, ..s[k] });
    lemma_merge_facts(s1, k);
    let s2 = merge_next(s1, k);
    lemma_merge_facts(s2, k - 1);
    let t = release(s, k);
    assert(t == merge_next(s2, k - 1));
    assert forall|j: int| 0 < j < t.len() implies !(#[trigger] t[j].free && t[j - 1].free) by {
        if j < k - 1 {
            assert(!(s[j].free && s[j - 1].free));
        } else if j == k - 1 {
            assert(!(s[k - 1].free && s[k - 2].free));
        } else if j == k {
            assert(t[j] == s[k + 2]);
            assert(!(s[k + 2].free && s[k + 1].free));
        } else {
            assert(t[j] == s[j + 2]);
            assert(t[j - 1] == s[j + 1]);
            assert(!(s[j + 2].free && s[j + 1].free));
        }
    }
}

proof fn lemma_release_adjacent_next(s: Seq<HeapBlock>, k: int)
    requires
        no_adjacent_free(s),
        0 <= k,
        k + 1 < s.len(),
        !s[k].free,
        s[k + 1].free,
        !(k > 0 && s[k - 1].free),
    ensures
        no_adjacent_free(release(s, k)),
{
    let s1 = s.update(k, HeapBlock { free: true, link: 0, ..s[k] });
    lemma_merge_facts(s1, k);
    let t = release(s, k);
    assert(t == merge_next(s1, k));
    assert forall|j: int| 0 < j < t.len() implies !(#[trigger] t[j].free && t[j - 1].free) by {
        if j < k {
            assert(!(s[j].free && s[j - 1].free));
        } else if j == k {
            assert(!s[k - 1].free);
        } else if j == k + 1 {
            assert(t[j] == s[k + 2]);
            assert(!(s[k + 2].free && s[k + 1].free));
        } else {
            assert(t[j] == s[j + 1]);
            assert(t[j - 1] == s[j]);
            assert(!(s[j + 1].free && s[j].free));
        }
    }
}

proof fn lemma_release_adjacent_prev(s: Seq<HeapBlock>, k: int)
    requires
        no_adjacent_free(s),
        0 < k < s.len(),
        !s[k].free,
        !(k + 1 < s.len() && s[k + 1].free),
        s[k - 1].free,
    ensures
        no_adjacent_free(release(s, k)),
{
    let s1 = s.update(k, HeapBlock { free: true, link: 0, ..s[k] });
    lemma_merge_facts(s1, k - 1);
    let t = release(s, k);
    assert(t == merge_next(s1, k - 1));
    assert forall|j: int| 0 < j < t.len() implies !(#[trigger] t[j].free && t[j - 1].free) by {
        if j < k - 1 {
            assert(!(s[j].free && s[j - 1].free));
        } else if j == k - 1 {
            assert(!(s[k - 1].free && s[k - 2].free));
        } else if j == k {
            assert(t[j] == s[k + 1]);
        } else {
            assert(t[j] == s[j + 1]);
            assert(t[j - 1] == s[j]);
            assert(!(s[j + 1].free && s[j].free));
        }
    }
}

proof fn lemma_release_adjacent_none(s: Seq<HeapBlock>, k: int)
    requires
        no_adjacent_free(s),
        0 <= k < s.len(),
        !s[k].free,
        !(k + 1 < s.len() && s[k + 1].free),
        !(k > 0 && s[k - 1].free),
    ensures
        no_adjacent_free(release(s, k)),
{
    let t = release(s, k);
    assert forall|j: int| 0 < j < t.len() implies !(#[trigger] t[j].free && t[j - 1].free) by {
        if j != k && j != k + 1 {
            assert(!(s[j].free && s[j - 1].free));
        }
    }
}

/// Releasing a block in use keeps the heap well formed.
proof fn lemma_release_wf(v: HeapView, k: int)
    requires
        heap_wf(v),
        0 <= k < v.blocks.len(),
        !v.blocks[k].free,
    ensures
        heap_wf(HeapView { blocks: release(v.blocks, k), ..v }),
{
    lemma_release_shape(v, k);
    let s = v.blocks;
    let next = k + 1 < s.len() && s[k + 1].free;
    let prev = k > 0 && s[k - 1].free;
    if next && prev {
        lemma_release_adjacent_both(s, k);
    } else if next {
        lemma_release_adjacent_next(s, k);
    } else if prev {
        lemma_release_adjacent_prev(s, k);
    } else {
        lemma_release_adjacent_none(s, k);
    }
}

/// The block whose aligned payload is `p`.
pub open spec fn owner_block(s: Seq<HeapBlock>, p: int) -> HeapBlock {
    s[index_linked(s, p, 0)]
}

/// Where an aligned allocation of `size` bytes at `align` landed: `p` is
/// aligned, the word below it names a block in use, and the payload lies
/// inside that block.
pub open spec fn placed(s: Seq<HeapBlock>, p: int, size: int, align: int) -> bool {
    &&& p % align == 0
    &&& index_linked(s, p, 0) < s.len()
    &&& word_at(s, p - WORD_SIZE) == Some(owner_block(s, p).addr)
    &&& !owner_block(s, p).free
    &&& owner_block(s, p).addr + HEAP_BLOCK_SIZE <= p
    &&& owner_block(s, p).addr + HEAP_BLOCK_SIZE + owner_block(s, p).size >= p + size
}

/// Bytes from `p` to the end of the block that owns it (0 when none does).
pub open spec fn capacity_at(s: Seq<HeapBlock>, p: int) -> int {
    let k = index_linked(s, p, 0);
    if p == 0 || k == s.len() {
        0
    } else {
        block_end(s[k]) - p
    }
}

/// Under well-formedness, a payload is owned by exactly the block that
/// records it.
proof fn lemma_index_linked_unique(v: HeapView, k: int)
    requires
        heap_shape(v),
        0 <= k < v.blocks.len(),
        v.blocks[k].link != 0,
    ensures
        index_linked(v.blocks, v.blocks[k].link as int, 0) == k,
{
    let s = v.blocks;
    lemma_index_linked(s, s[k].link as int, 0);
    let j = index_linked(s, s[k].link as int, 0);
    if j < k {
        assert(block_end(s[j]) <= s[k].addr);
    }
}

proof fn lemma_index_at_unique_shape(v: HeapView, k: int)
    requires
        heap_shape(v),
        0 <= k < v.blocks.len(),
    ensures
        index_at(v.blocks, v.blocks[k].addr as int, 0) == k,
{
    let s = v.blocks;
    lemma_index_at(s, s[k].addr as int, 0);
    let j = index_at(s, s[k].addr as int, 0);
    if j < k {
        assert(block_end(s[j]) <= s[k].addr);
    }
}

proof fn lemma_aligned_from(c: int, align: int)
    requires
        c >= 0,
        align > 0,
    ensures
        c + WORD_SIZE <= aligned_from(c, align) < c + WORD_SIZE + align,
        aligned_from(c, align) % align == 0,
{
    let d = c + WORD_SIZE;
    vstd::arithmetic::div_mod::lemma_fundamental_div_mod(d, align);
    vstd::arithmetic::div_mod::lemma_mod_pos_bound(d, align);
    if d % align != 0 {
        let q = d / align;
        assert(d + (align - d % align) == align * (q + 1)) by (nonlinear_arith)
            requires
                d == align * q + d % align,
        ;
        vstd::arithmetic::div_mod::lemma_mod_multiples_basic(q + 1, align);
        vstd::arithmetic::mul::lemma_mul_is_commutative(align, q + 1);
    }
}

proof fn lemma_set_link_wf(v: HeapView, i: int, p: int)
    requires
        heap_wf(v),
        0 <= i < v.blocks.len(),
        !v.blocks[i].free,
        v.blocks[i].addr + HEAP_BLOCK_SIZE + WORD_SIZE <= p <= block_end(v.blocks[i]),
    ensures
        heap_wf(HeapView { blocks: v.blocks.update(i, HeapBlock { link: p as usize, ..v.blocks[i] }), ..v }),
{
    let s = v.blocks;
    let t = s.update(i, HeapBlock { link: p as usize, ..s[i] });
    assert forall|j: int| 0 < j < t.len() implies #[trigger] t[j].addr == block_end(t[j - 1]) by {
        assert(s[j].addr == block_end(s[j - 1]));
    }
    assert forall|j1: int, j2: int| 0 <= j1 < j2 < t.len() implies block_end(#[trigger] t[j1])
        <= #[trigger] t[j2].addr by {
        assert(block_end(s[j1]) <= s[j2].addr);
    }
    assert forall|j: int| 0 < j < t.len() implies !(#[trigger] t[j].free && t[j - 1].free) by {
        assert(!(s[j].free && s[j - 1].free));
    }
    assert forall|j: int| 0 <= j < t.len() implies {
        &&& (#[trigger] t[j]).free ==> t[j].link == 0
        &&& t[j].link != 0 ==> t[j].addr + HEAP_BLOCK_SIZE + WORD_SIZE <= t[j].link <= block_end(t[j])
    } by {
        assert(s[j].free ==> s[j].link == 0);
    }
    assert forall|j: int| 0 <= j < t.len() implies v.start <= (#[trigger] t[j]).addr && block_end(t[j]) <= v.end by {
        assert(v.start <= s[j].addr && block_end(s[j]) <= v.end);
    }
    if t.len() > 0 {
        assert(block_end(t.last()) == block_end(s.last()));
    }
}

/// What an aligned allocation leaves behind: a well-formed heap and a payload
/// placed as `placed` says.
proof fn lemma_alloc_result(v: HeapView, size: int, align: int)
    requires
        heap_wf(v),
        size >= 0,
        align > 0,
    ensures
        heap_wf(HeapView { blocks: alloc_result(v.blocks, size, align).0, ..v }),
        alloc_result(v.blocks, size, align).1 != 0 ==> placed(
            alloc_result(v.blocks, size, align).0,
            alloc_result(v.blocks, size, align).1,
            size,
            align,
        ),
        alloc_result(v.blocks, size, align).1 == 0 ==> alloc_result(v.blocks, size, align).0
            == v.blocks,
{
    let s = v.blocks;
    let r = round8(wrapped_request(size, align));
    lemma_round8(wrapped_request(size, align));
    lemma_first_fit(s, r, 0);
    let i = first_fit(s, r, 0);
    if i < s.len() {
        lemma_carve_wf(v, i, r);
        let c = carve(s, i, r);
        let cv = HeapView { blocks: c, ..v };
        let p = aligned_from(s[i].addr + HEAP_BLOCK_SIZE, align);
        lemma_aligned_from(s[i].addr + HEAP_BLOCK_SIZE, align);
        lemma_set_link_wf(cv, i, p);
        let t = c.update(i, HeapBlock { link: p as usize, ..c[i] });
        assert(t[i].link == p);
        lemma_index_linked_unique(HeapView { blocks: t, ..v }, i);
    }
}

/// Freeing an aligned payload keeps the heap well formed.
proof fn lemma_dealloc_wf(v: HeapView, ptr: int)
    requires
        heap_wf(v),
    ensures
        heap_wf(HeapView { blocks: dealloc_result(v.blocks, ptr), ..v }),
{
    let s = v.blocks;
    if ptr != 0 && ptr >= WORD_SIZE {
        if let Some(b) = word_at(s, ptr - WORD_SIZE) {
            let a = b + HEAP_BLOCK_SIZE;
            lemma_index_at(s, a - HEAP_BLOCK_SIZE, 0);
            let k = index_at(s, a - HEAP_BLOCK_SIZE, 0);
            if k < s.len() && !s[k].free {
                lemma_release_wf(v, k);
            }
        }
    }
}

proof fn lemma_free_raw_wf(v: HeapView, ptr: int)
    requires
        heap_wf(v),
    ensures
        heap_wf(HeapView { blocks: free_raw_result(v.blocks, ptr), ..v }),
{
    let s = v.blocks;
    lemma_index_at(s, ptr - HEAP_BLOCK_SIZE, 0);
    let k = index_at(s, ptr - HEAP_BLOCK_SIZE, 0);
    if ptr >= HEAP_BLOCK_SIZE && k < s.len() && !s[k].free {
        lemma_release_wf(v, k);
    }
}

/// Releasing the block that a carve just handed out gives the list back.
proof fn lemma_release_carved(v: HeapView, i: int, r: int, p: int)
    requires
        heap_wf(v),
        0 <= i < v.blocks.len(),
        v.blocks[i].free,
        0 <= r <= v.blocks[i].size,
    ensures
        release(carve(v.blocks, i, r).update(i, HeapBlock { link: p as usize, ..carve(v.blocks, i, r)[i] }), i)
            == v.blocks,
{
    let s = v.blocks;
    let c = carve(s, i, r);
    let t = c.update(i, HeapBlock { link: p as usize, ..c[i] });
    let t1 = t.update(i, HeapBlock { free: true, link: 0, ..t[i] });
    assert(s[i].link == 0);
    if i > 0 {
        assert(!(s[i].free && s[i - 1].free));
    }
    if splits(s[i].size as int, r) {
        lemma_split_shape(s, i, r);
        lemma_merge_facts(t1, i);
        let m = merge_next(t1, i);
        assert(m =~= s) by {
            assert forall|j: int| 0 <= j < s.len() implies m[j] == s[j] by {
                if j > i {
                    assert(m[j] == t1[j + 1]);
                    assert(t1[j + 1] == c[j + 1]);
                }
            }
        }
        assert(release(t, i) == m);
    } else {
        if i + 1 < s.len() {
            assert(!(s[i + 1].free && s[i].free));
        }
        assert(t1 =~= s);
    }
}

/// Freeing a fresh aligned allocation gives back exactly the heap that was
/// there before it.
pub proof fn lemma_dealloc_undoes_alloc(v: HeapView, size: int, align: int)
    requires
        heap_wf(v),
        size >= 0,
        align > 0,
    ensures
        alloc_result(v.blocks, size, align).1 != 0 ==> dealloc_result(
            alloc_result(v.blocks, size, align).0,
            alloc_result(v.blocks, size, align).1,
        ) == v.blocks,
{
    let s = v.blocks;
    let r = round8(wrapped_request(size, align));
    lemma_round8(wrapped_request(size, align));
    lemma_first_fit(s, r, 0);
    let i = first_fit(s, r, 0);
    lemma_alloc_result(v, size, align);
    if i < s.len() {
        let c = carve(s, i, r);
        let p = aligned_from(s[i].addr + HEAP_BLOCK_SIZE, align);
        lemma_aligned_from(s[i].addr + HEAP_BLOCK_SIZE, align);
        let t = c.update(i, HeapBlock { link: p as usize, ..c[i] });
        let tv = HeapView { blocks: t, ..v };
        lemma_carve_wf(v, i, r);
        lemma_set_link_wf(HeapView { blocks: c, ..v }, i, p);
        lemma_index_linked_unique(tv, i);
        lemma_index_at_unique_shape(tv, i);
        assert(word_at(t, p - WORD_SIZE) == Some(s[i].addr));
        lemma_release_carved(v, i, r, p);
    }
}

/// After an aligned allocation is freed, the same request succeeds again, at
/// the same address.
pub proof fn lemma_alloc_again_after_dealloc(v: HeapView, size: int, align: int)
    requires
        heap_wf(v),
        size >= 0,
        align > 0,
    ensures
        ({
            let (s1, p) = alloc_result(v.blocks, size, align);
            p != 0 ==> alloc_result(dealloc_result(s1, p), size, align) == (s1, p)
        }),
{
    lemma_dealloc_undoes_alloc(v, size, align);
}

/// Every heap operation, raw or aligned, allocation or free, keeps the block
/// list well formed: each block's successor starts right after its payload,
/// and no two neighbouring blocks are both free.
pub proof fn lemma_operations_keep_block_list(v: HeapView, size: int, align: int, ptr: int)
    requires
        heap_wf(v),
        size >= 0,
        align > 0,
    ensures
        heap_wf(HeapView { blocks: alloc_raw_result(v.blocks, size).0, ..v }),
        heap_wf(HeapView { blocks: free_raw_result(v.blocks, ptr), ..v }),
        heap_wf(HeapView { blocks: alloc_result(v.blocks, size, align).0, ..v }),
        heap_wf(HeapView { blocks: dealloc_result(v.blocks, ptr), ..v }),
{
    lemma_round8(size);
    lemma_first_fit(v.blocks, round8(size), 0);
    if first_fit(v.blocks, round8(size), 0) < v.blocks.len() {
        lemma_carve_wf(v, first_fit(v.blocks, round8(size), 0), round8(size));
    }
    lemma_free_raw_wf(v, ptr);
    lemma_alloc_result(v, size, align);
    lemma_dealloc_wf(v, ptr);
}

impl LinkedListAllocator {
    pub open spec fn wf(&self) -> bool {
        heap_wf(self@)
    }

    /// An allocator with no memory yet.
    pub fn new() -> (r: Self)
        ensures
            r.wf(),
            r@.start == 0 && r@.end == 0,
            r@.blocks.len() == 0,
    {
        LinkedListAllocator { start: 0, end: 0, blocks: Vec::new() }
    }

    /// The block headers, in address order.
    pub fn blocks(&self) -> (r: &Vec<HeapBlock>)
        ensures
            r@ == self@.blocks,
    {
        &self.blocks
    }

    /// Hands the allocator the region `[start, start + size)`: one free block
    /// covering it.
    pub fn init(&mut self, start: usize, size: usize)
        requires
            size >= HEAP_BLOCK_SIZE,
            start + size <= usize::MAX,
        ensures
            final(self).wf(),
            final(self)@.start == start,
            final(self)@.end == start + size,
            final(self)@.blocks == seq![
                HeapBlock { addr: start, size: (size - HEAP_BLOCK_SIZE) as usize, free: true, link: 0 },
            ],
    {
        let mut blocks: Vec<HeapBlock> = Vec::new();
        blocks.push(
            HeapBlock { addr: start, size: size - HEAP_BLOCK_SIZE, free: true, link: 0 },
        );
        self.start = start;
        self.end = start + size;
        self.blocks = blocks;
        assert(self@.blocks.last() == self@.blocks[0]);
    }

    /// Index of the block whose header is at `a` (the list length when none).
    fn index_of_header(&self, a: usize) -> (k: usize)
        ensures
            k == index_at(self@.blocks, a as int, 0),
    {
        let n = self.blocks.len();
        let mut i: usize = 0;
        while i < n
            invariant
                n == self.blocks.len(),
                i <= n,
                index_at(self@.blocks, a as int, i as int) == index_at(self@.blocks, a as int, 0),
            decreases n - i,
        {
            if self.blocks[i].addr == a {
                return i;
            }
            i = i + 1;
        }
        i
    }

    /// Index of the block that owns payload `p` (the list length when none).
    fn index_of_owner(&self, p: usize) -> (k: usize)
        ensures
            k == index_linked(self@.blocks, p as int, 0),
    {
        let n = self.blocks.len();
        let mut i: usize = 0;
        while i < n
            invariant
                n == self.blocks.len(),
                i <= n,
                index_linked(self@.blocks, p as int, i as int) == index_linked(
                    self@.blocks,
                    p as int,
                    0,
                ),
            decreases n - i,
        {
            if self.blocks[i].link == p {
                return i;
            }
            i = i + 1;
        }
        i
    }

    /// Hands out the first free block of at least `r` bytes, split when the
    /// rest can hold a header and a minimal payload.
    fn take_first_fit(&mut self, r: usize) -> (k: usize)
        requires
            old(self).wf(),
        ensures
            k == first_fit(old(self)@.blocks, r as int, 0),
            final(self)@.start == old(self)@.start,
            final(self)@.end == old(self)@.end,
            k < old(self)@.blocks.len() ==> final(self)@.blocks == carve(old(self)@.blocks, k as int, r as int),
            k == old(self)@.blocks.len() ==> final(self)@.blocks == old(self)@.blocks,
    {
        let n = self.blocks.len();
        let mut i: usize = 0;
        while i < n
            invariant
                n == self.blocks.len(),
                i <= n,
                self@ == old(self)@,
                self.wf(),
                first_fit(self@.blocks, r as int, i as int) == first_fit(self@.blocks, r as int, 0),
            decreases n - i,
        {
            let b = self.blocks[i];
            if b.free && b.size >= r {
                assert(block_end(self@.blocks[i as int]) <= self@.end);
                if b.size - r >= HEAP_BLOCK_SIZE + MIN_SPLIT_PAYLOAD {
                    let rem = HeapBlock {
                        addr: b.addr + HEAP_BLOCK_SIZE + r,
                        size: b.size - r - HEAP_BLOCK_SIZE,
                        free: true,
                        link: 0,
                    };
                    self.blocks[i] = HeapBlock { addr: b.addr, size: r, free: false, link: 0 };
                    self.blocks.insert(i + 1, rem);
                } else {
                    self.blocks[i] = HeapBlock { free: false, ..b };
                }
                return i;
            }
            i = i + 1;
        }
        i
    }

    /// Raw first-fit allocation of `size` bytes (rounded up to 8): the payload
    /// address right after the block header, or 0 when no block fits.
    pub fn alloc_raw(&mut self, size: usize) -> (r: usize)
        requires
            old(self).wf(),
            size + 7 <= usize::MAX,
        ensures
            final(self).wf(),
            final(self)@.start == old(self)@.start,
            final(self)@.end == old(self)@.end,
            (final(self)@.blocks, r as int) == alloc_raw_result(old(self)@.blocks, size as int),
    {
        let rounded = (size + 7) / 8 * 8;
        proof {
            lemma_round8(size as int);
            lemma_first_fit(self@.blocks, rounded as int, 0);
            let i = first_fit(self@.blocks, rounded as int, 0);
            if i < self@.blocks.len() {
                lemma_carve_wf(self@, i, rounded as int);
            }
        }
        let n = self.blocks.len();
        let k = self.take_first_fit(rounded);
        if k == n {
            0
        } else {
            assert(k < old(self)@.blocks.len());
            assert(block_end(old(self)@.blocks[k as int]) <= old(self)@.end);
            self.blocks[k].addr + HEAP_BLOCK_SIZE
        }
    }

    /// Raw free of the payload at `ptr`: marks its block free and coalesces it
    /// with the next and then the previous block. Null, unknown and already
    /// free payloads are left alone.
    pub fn free_raw(&mut self, ptr: usize)
        requires
            old(self).wf(),
        ensures
            final(self).wf(),
            final(self)@.start == old(self)@.start,
            final(self)@.end == old(self)@.end,
            final(self)@.blocks == free_raw_result(old(self)@.blocks, ptr as int),
    {
        proof {
            lemma_free_raw_wf(self@, ptr as int);
        }
        if ptr < HEAP_BLOCK_SIZE {
            return;
        }
        let k = self.index_of_header(ptr - HEAP_BLOCK_SIZE);
        proof {
            lemma_index_at(self@.blocks, ptr - HEAP_BLOCK_SIZE, 0);
        }
        if k == self.blocks.len() {
            return;
        }
        let b = self.blocks[k];
        if b.free {
            return;
        }
        proof {
            let s = self@.blocks;
            assert(block_end(s[k as int]) <= self@.end);
            if k + 1 < s.len() {
                assert(block_end(s[k + 1]) <= self@.end);
                assert(s[k + 1].addr == block_end(s[k as int]));
            }
            if k > 0 {
                assert(s[k as int].addr == block_end(s[k - 1]));
            }
        }
        self.release_at(k);
    }

    /// Marks block `k` free and coalesces it.
    fn release_at(&mut self, k: usize)
        requires
            k < old(self)@.blocks.len(),
            block_end(old(self)@.blocks[k as int]) <= usize::MAX,
            k + 1 < old(self)@.blocks.len() ==> block_end(old(self)@.blocks[k + 1]) <= usize::MAX
                && old(self)@.blocks[k + 1].addr == block_end(old(self)@.blocks[k as int]),
            k > 0 ==> old(self)@.blocks[k as int].addr == block_end(old(self)@.blocks[k - 1]),
        ensures
            final(self)@.start == old(self)@.start,
            final(self)@.end == old(self)@.end,
            final(self)@.blocks == release(old(self)@.blocks, k as int),
    {
        let ghost s = self@.blocks;
        let b = self.blocks[k];
        self.blocks[k] = HeapBlock { free: true, link: 0, ..b };
        let ghost s1 = self@.blocks;
        if k < self.blocks.len() - 1 && self.blocks[k + 1].free {
            let nb = self.blocks[k + 1];
            self.blocks.remove(k + 1);
            self.blocks[k] = HeapBlock {
                addr: b.addr,
                size: b.size + HEAP_BLOCK_SIZE + nb.size,
                free: true,
                link: 0,
            };
            assert(self@.blocks =~= merge_next(s1, k as int));
        }
        let ghost s2 = self@.blocks;
        assert(s2[k as int].addr == s[k as int].addr);
        assert(block_end(s2[k as int]) <= usize::MAX);
        if k > 0 && self.blocks[k - 1].free {
            let pb = self.blocks[k - 1];
            let cb = self.blocks[k];
            self.blocks.remove(k);
            self.blocks[k - 1] = HeapBlock {
                addr: pb.addr,
                size: pb.size + HEAP_BLOCK_SIZE + cb.size,
                free: true,
                link: 0,
            };
            assert(self@.blocks =~= merge_next(s2, k - 1));
        }
    }

    /// The word stored at address `w`: the header address of the block whose
    /// aligned payload follows it.
    pub fn read_word(&self, w: usize) -> (r: Option<usize>)
        ensures
            r == word_at(self@.blocks, w as int),
    {
        if w > usize::MAX - WORD_SIZE {
            proof {
                lemma_index_linked(self@.blocks, w + WORD_SIZE, 0);
            }
            return None;
        }
        let p = w + WORD_SIZE;
        let k = self.index_of_owner(p);
        proof {
            lemma_index_linked(self@.blocks, p as int, 0);
        }
        if p == 0 || k == self.blocks.len() {
            None
        } else {
            Some(self.blocks[k].addr)
        }
    }

    /// Aligned allocation of `size` bytes at `align`: reserves
    /// `size + align + WORD_SIZE` raw bytes, places the payload at the
    /// smallest multiple of `align` at least one word above the raw payload,
    /// and stores the block's header address in the word below it. Returns
    /// the payload address, or 0 when no block fits.
    #[verifier::rlimit(60)]
    pub fn alloc_aligned(&mut self, size: usize, align: usize) -> (r: usize)
        requires
            old(self).wf(),
            align > 0,
            size + align + WORD_SIZE + 7 <= usize::MAX,
        ensures
            final(self).wf(),
            final(self)@.start == old(self)@.start,
            final(self)@.end == old(self)@.end,
            (final(self)@.blocks, r as int) == alloc_result(old(self)@.blocks, size as int, align as int),
            r != 0 ==> placed(final(self)@.blocks, r as int, size as int, align as int),
    {
        proof {
            lemma_alloc_result(self@, size as int, align as int);
        }
        let ghost s = self@.blocks;
        let raw = self.alloc_raw(size + align + WORD_SIZE);
        if raw == 0 {
            proof {
                lemma_first_fit(s, round8(wrapped_request(size as int, align as int)), 0);
            }
            return 0;
        }
        let ghost i = first_fit(s, round8(wrapped_request(size as int, align as int)), 0);
        proof {
            lemma_first_fit(s, round8(wrapped_request(size as int, align as int)), 0);
            lemma_round8(wrapped_request(size as int, align as int));
            lemma_carve_wf(HeapView { blocks: s, ..self@ }, i, round8(wrapped_request(size as int, align as int)));
            lemma_index_at_unique_shape(self@, i);
            lemma_aligned_from(s[i].addr + HEAP_BLOCK_SIZE, align as int);
        }
        let block_addr = raw - HEAP_BLOCK_SIZE;
        let start = raw + WORD_SIZE;
        let rem = start % align;
        let padding = if rem == 0 {
            0
        } else {
            align - rem
        };
        let aligned = start + padding;
        self.write_word(aligned, block_addr);
        aligned
    }

    /// Stores `block_addr` in the word just below payload `p`, which lies in
    /// the block whose header is at `block_addr`.
    fn write_word(&mut self, p: usize, block_addr: usize)
        requires
            index_at(old(self)@.blocks, block_addr as int, 0) < old(self)@.blocks.len(),
        ensures
            final(self)@.start == old(self)@.start,
            final(self)@.end == old(self)@.end,
            final(self)@.blocks == old(self)@.blocks.update(
                index_at(old(self)@.blocks, block_addr as int, 0),
                HeapBlock {
                    link: p,
                    ..old(self)@.blocks[index_at(old(self)@.blocks, block_addr as int, 0)]
                },
            ),
    {
        let k = self.index_of_header(block_addr);
        let b = self.blocks[k];
        self.blocks[k] = HeapBlock { link: p, ..b };
    }

    /// Frees an aligned payload: reads the word below `ptr` to find its block
    /// and frees that block. Null and unknown payloads are left alone.
    pub fn dealloc(&mut self, ptr: usize)
        requires
            old(self).wf(),
        ensures
            final(self).wf(),
            final(self)@.start == old(self)@.start,
            final(self)@.end == old(self)@.end,
            final(self)@.blocks == dealloc_result(old(self)@.blocks, ptr as int),
    {
        proof {
            lemma_dealloc_wf(self@, ptr as int);
        }
        if ptr == 0 || ptr < WORD_SIZE {
            return;
        }
        match self.read_word(ptr - WORD_SIZE) {
            None => {},
            Some(b) => {
                proof {
                    lemma_index_linked(self@.blocks, ptr as int, 0);
                    assert(block_end(self@.blocks[index_linked(self@.blocks, ptr as int, 0)]) <= self@.end);
                }
                self.free_raw(b + HEAP_BLOCK_SIZE);
            },
        }
    }

    /// Moves an aligned allocation to a fresh one of `new_size` bytes. Returns
    /// the new payload and how many bytes to copy over (the smaller of
    /// `new_size` and the old payload's capacity); the old payload is freed.
    /// On failure returns `(0, 0)` and leaves the old payload in place. A null
    /// `ptr` is a plain allocation.
    pub fn realloc_aligned(&mut self, ptr: usize, new_size: usize, align: usize) -> (r: (usize, usize))
        requires
            old(self).wf(),
            align > 0,
            new_size + align + WORD_SIZE + 7 <= usize::MAX,
        ensures
            final(self).wf(),
            final(self)@.start == old(self)@.start,
            final(self)@.end == old(self)@.end,
            ({
                let (s1, q) = alloc_result(old(self)@.blocks, new_size as int, align as int);
                &&& r.0 == q
                &&& q == 0 ==> final(self)@.blocks == old(self)@.blocks && r.1 == 0
                &&& q != 0 && ptr == 0 ==> final(self)@.blocks == s1 && r.1 == 0
                &&& q != 0 && ptr != 0 ==> final(self)@.blocks == dealloc_result(s1, ptr as int)
                    && r.1 == (if new_size < capacity_at(s1, ptr as int) {
                    new_size as int
                } else {
                    capacity_at(s1, ptr as int)
                })
            }),
    {
        let q = self.alloc_aligned(new_size, align);
        if q == 0 || ptr == 0 {
            proof {
                lemma_alloc_result(old(self)@, new_size as int, align as int);
            }
            return (q, 0);
        }
        let k = self.index_of_owner(ptr);
        proof {
            lemma_index_linked(self@.blocks, ptr as int, 0);
        }
        let capacity = if k == self.blocks.len() {
            0
        } else {
            let b = self.blocks[k];
            assert(block_end(self@.blocks[k as int]) <= self@.end);
            b.addr + HEAP_BLOCK_SIZE + b.size - ptr
        };
        let copy = if new_size < capacity {
            new_size
        } else {
            capacity
        };
        self.dealloc(ptr);
        (q, copy)
    }
}

} // verus!
