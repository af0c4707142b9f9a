//! Four-level x86-64 page tables, 4 KiB pages only.
//!
//! The tables live in physical frames handed out by the frame allocator; the
//! model keeps each table with the frame that holds it and the level it
//! serves (3 for the PML4 down to 0 for a page table). A walk follows entry
//! addresses from frame to frame.
use vstd::prelude::*;
use crate::frames::{
    conventional_aligned, conventional_ascending, descriptors_fit, frame_step, lemma_frames_increase,
    lemma_step_exhausted, lemma_step_remaining, lemma_step_shape, no_region_at_zero, remaining,
    FrameAllocator, PAGE_SIZE,
};
use crate::uefi::{BootInfo, EFI_MEMORY_DESCRIPTOR, identity_mapped_type, is_identity_mapped};

verus! {

pub const PAGE_PRESENT: u64 = 1;
pub const PAGE_WRITABLE: u64 = 2;
pub const PAGE_USER: u64 = 4;
pub const PAGE_CACHE_DISABLE: u64 = 16;
pub const PAGE_NO_EXECUTE: u64 = 0x8000_0000_0000_0000;

/// Flags of an entry that points at a lower-level table.
pub const TABLE_ENTRY_FLAGS: u64 = 7;

pub const ENTRIES_PER_TABLE: usize = 512;

#[derive(Clone, Copy)]
pub struct PageTable {
    pub entries: [u64; 512],
}

impl PageTable {
    /// A table with every entry 0.
    pub fn new() -> (r: Self)
        ensures
            forall|i: int| 0 <= i < 512 ==> r.entries@[i] == 0,
    {
        let mut t = PageTable { entries: [0u64; 512] };
        t.zero();
        t
    }

    pub fn zero(&mut self)
        ensures
            forall|i: int| 0 <= i < 512 ==> final(self).entries@[i] == 0,
    {
        let mut i: usize = 0;
        while i < 512
            invariant
                i <= 512,
                forall|j: int| 0 <= j < i ==> self.entries@[j] == 0,
            decreases 512 - i,
        {
            self.entries[i] = 0;
            i = i + 1;
        }
    }
}

#[derive(Clone, Copy, Debug, PartialEq, Eq, Structural)]
pub enum PagingError {
    /// The frame allocator ran out while a table was needed.
    OutOfMemory,
    /// The frame handed out is not page aligned or already holds a table.
    UnusableFrame,
    /// A present entry does not lead to a table of the next level.
    BadTable,
}

/// Abstract state of the page tables.
pub struct PageTablesView {
    pub root: u64,
    pub frames: Seq<u64>,
    pub levels: Seq<u8>,
    pub tables: Seq<Seq<u64>>,
}

/// Index of the first table held in frame `a`, from `i` on.
pub open spec fn find_frame(s: Seq<u64>, a: u64, i: int) -> int
    decreases s.len() - i,
{
    if i < 0 || i >= s.len() {
        s.len() as int
    } else if s[i] == a {
        i
    } else {
        find_frame(s, a, i + 1)
    }
}

pub open spec fn table_index(v: PageTablesView, a: u64) -> int {
    find_frame(v.frames, a, 0)
}

pub open spec fn level_shift(level: int) -> u64 {
    if level == 3 {
        39
    } else if level == 2 {
        30
    } else if level == 1 {
        21
    } else {
        12
    }
}

/// Entry index of `virt` in a table of `level`.
pub open spec fn level_index(virt: u64, level: int) -> int {
    ((virt >> level_shift(level)) & 0x1FF) as int
}

/// Physical address an entry points at.
pub open spec fn entry_address(e: u64) -> u64 {
    e & !0xFFFu64
}

pub open spec fn present(e: u64) -> bool {
    e & PAGE_PRESENT != 0
}

/// The leaf entry for `virt`, walking down from the table in frame `a` at
/// `level`.
pub open spec fn walk(v: PageTablesView, a: u64, level: int, virt: u64) -> Option<u64>
    decreases level,
{
    let k = table_index(v, a);
    if level < 0 || k >= v.frames.len() || v.levels[k] != level {
        None
    } else {
        let e = v.tables[k][level_index(virt, level)];
        if level == 0 {
            Some(e)
        } else if !present(e) {
            None
        } else {
            walk(v, entry_address(e), level - 1, virt)
        }
    }
}

/// The leaf entry that maps `virt`, if the walk reaches one.
pub open spec fn translate(v: PageTablesView, virt: u64) -> Option<u64> {
    walk(v, v.root, 3, virt)
}

/// Index of the table entry `e` of table `k` points at.
pub open spec fn child_index(v: PageTablesView, k: int, e: int) -> int {
    table_index(v, entry_address(v.tables[k][e]))
}

/// Entry `e` of table `k` is a present entry of a directory level.
pub open spec fn directory_entry(v: PageTablesView, k: int, e: int) -> bool {
    &&& 0 <= k < v.frames.len()
    &&& 0 <= e < 512
    &&& v.levels[k] >= 1
    &&& present(v.tables[k][e])
}

/// Present directory entries lead to a table one level down, and no two of
/// them lead to the same table.
pub open spec fn tree_shaped(v: PageTablesView) -> bool {
    &&& forall|k: int, e: int|
        #[trigger] directory_entry(v, k, e) ==> child_index(v, k, e) < v.frames.len()
            && v.levels[child_index(v, k, e)] == v.levels[k] - 1
    &&& forall|k1: int, e1: int, k2: int, e2: int|
        #[trigger] directory_entry(v, k1, e1) && #[trigger] directory_entry(v, k2, e2) && child_index(
            v,
            k1,
            e1,
        ) == child_index(v, k2, e2) ==> k1 == k2 && e1 == e2
}

pub open spec fn tables_wf(v: PageTablesView) -> bool {
    &&& v.frames.len() == v.levels.len() == v.tables.len()
    &&& v.frames.len() >= 1
    &&& v.frames[0] == v.root
    &&& v.levels[0] == 3
    &&& forall|k: int| 0 <= k < v.tables.len() ==> (#[trigger] v.tables[k]).len() == 512
    &&& tree_shaped(v)
}

/// `w` is `v` with a table's entry `i` of table `k` possibly written, and
/// fresh zeroed tables possibly appended.
pub open spec fn grows_from(v: PageTablesView, w: PageTablesView, k: int, i: int) -> bool {
    &&& w.root == v.root
    &&& v.frames.len() <= w.frames.len()
    &&& forall|j: int| 0 <= j < v.frames.len() ==> w.frames[j] == v.frames[j] && w.levels[j]
        == v.levels[j]
    &&& forall|j: int, e: int|
        0 <= j < v.frames.len() && 0 <= e < 512 && (j != k || e != i) ==> (#[trigger] w.tables[j][e])
            == v.tables[j][e]
    &&& forall|a: u64|
        #![trigger find_frame(w.frames, a, 0)]
        find_frame(v.frames, a, 0) < v.frames.len() ==> find_frame(w.frames, a, 0) == find_frame(
            v.frames,
            a,
            0,
        )
}

/// Every present entry of `v` is still there in `w`, in a table of the same
/// level.
pub open spec fn keeps_present(v: PageTablesView, w: PageTablesView) -> bool {
    &&& v.frames.len() <= w.frames.len()
    &&& forall|j: int| 0 <= j < v.frames.len() ==> #[trigger] w.levels[j] == v.levels[j]
    &&& forall|j: int, e: int|
        0 <= j < v.frames.len() && 0 <= e < 512 && present(#[trigger] v.tables[j][e]) ==> w.tables[j][e]
            == v.tables[j][e]
}

/// Whether frame `f` can hold a new table: page aligned, and not already
/// holding one.
pub open spec fn usable_frame(frames: Seq<u64>, f: u64) -> bool {
    f & 0xFFFu64 == 0 && find_frame(frames, f, 0) == frames.len()
}

/// `n` table allocations from allocator cursor `(idx, off)` with the tables
/// in `frames`: the error of the first that fails (`None` when all succeed),
/// the cursor after the last allocation made, and the table frames then.
pub open spec fn table_allocations(
    frames: Seq<u64>,
    s: Seq<EFI_MEMORY_DESCRIPTOR>,
    idx: int,
    off: int,
    n: nat,
) -> (Option<PagingError>, int, int, Seq<u64>)
    decreases n,
{
    if n == 0 {
        (None, idx, off, frames)
    } else {
        let (f, i1, o1) = frame_step(s, idx, off);
        if f is None {
            (Some(PagingError::OutOfMemory), i1, o1, frames)
        } else if !usable_frame(frames, f->0) {
            (Some(PagingError::UnusableFrame), i1, o1, frames)
        } else {
            table_allocations(frames.push(f->0), s, i1, o1, (n - 1) as nat)
        }
    }
}

/// A memory map whose conventional regions hand out distinct, page-aligned
/// frames in ascending order, none at address 0.
pub open spec fn orderly_map(s: Seq<EFI_MEMORY_DESCRIPTOR>) -> bool {
    &&& descriptors_fit(s)
    &&& conventional_ascending(s)
    &&& conventional_aligned(s)
    &&& no_region_at_zero(s)
}

/// Every frame in `frames` lies below the next frame the allocator hands out.
pub open spec fn below_cursor(frames: Seq<u64>, s: Seq<EFI_MEMORY_DESCRIPTOR>, idx: int, off: int) -> bool {
    frame_step(s, idx, off).0 is Some ==> forall|j: int|
        0 <= j < frames.len() ==> #[trigger] frames[j] < frame_step(s, idx, off).0->0
}

proof fn lemma_aligned_step(a: u64, k: u64)
    requires
        a & 0xFFFu64 == 0,
        a + k * 4096 <= u64::MAX,
    ensures
        ((a + k * 4096) as u64) & 0xFFFu64 == 0,
{
    let m = (k * 4096) as u64;
    assert(m & 0xFFFu64 == 0) by (bit_vector)
        requires
            m == k * 4096,
    ;
    let b = (a + m) as u64;
    assert(b & 0xFFFu64 == 0) by (bit_vector)
        requires
            a & 0xFFFu64 == 0,
            m & 0xFFFu64 == 0,
            b == (a + m) as u64,
    ;
}

/// On an orderly map with enough pages left, `n` table allocations all
/// succeed, and the new frames stay below the cursor.
proof fn lemma_allocations_succeed(frames: Seq<u64>, s: Seq<EFI_MEMORY_DESCRIPTOR>, idx: int, off: int, n: nat)
    requires
        orderly_map(s),
        0 <= idx,
        0 <= off,
        below_cursor(frames, s, idx, off),
        remaining(s, idx, off) >= n,
    ensures
        ({
            let (e, i1, o1, f1) = table_allocations(frames, s, idx, off, n);
            &&& e is None
            &&& 0 <= i1 && 0 <= o1
            &&& remaining(s, i1, o1) == remaining(s, idx, off) - n
            &&& below_cursor(f1, s, i1, o1)
        }),
    decreases n,
{
    if n > 0 {
        lemma_step_remaining(s, idx, off);
        lemma_step_shape(s, idx, off);
        let (f, i1, o1) = frame_step(s, idx, off);
        let g = f->0;
        assert(s[i1].PhysicalStart & 0xFFFu64 == 0);
        assert(s[i1].PhysicalStart + s[i1].NumberOfPages * PAGE_SIZE <= u64::MAX);
        lemma_aligned_step(s[i1].PhysicalStart, (o1 - 1) as u64);
        lemma_find_frame(frames, g, 0);
        if find_frame(frames, g, 0) < frames.len() {
            assert(frames[find_frame(frames, g, 0)] < g);
        }
        assert(usable_frame(frames, g));
        lemma_frames_increase(s, idx, off);
        lemma_step_shape(s, i1, o1);
        let next = frame_step(s, i1, o1).0;
        assert(below_cursor(frames.push(g), s, i1, o1)) by {
            if next is Some {
                assert forall|j: int| 0 <= j < frames.push(g).len() implies #[trigger] frames.push(g)[j]
                    < next->0 by {
                    if j < frames.len() {
                        assert(frames[j] < g);
                    }
                }
            }
        }
        lemma_allocations_succeed(frames.push(g), s, i1, o1, (n - 1) as nat);
    }
}

/// On an orderly map every frame handed out is usable: table allocations can
/// only run out, and the new frames stay below the cursor.
proof fn lemma_allocations_orderly(frames: Seq<u64>, s: Seq<EFI_MEMORY_DESCRIPTOR>, idx: int, off: int, n: nat)
    requires
        orderly_map(s),
        0 <= idx,
        0 <= off,
        below_cursor(frames, s, idx, off),
    ensures
        ({
            let (e, i1, o1, f1) = table_allocations(frames, s, idx, off, n);
            &&& e != Some(PagingError::UnusableFrame)
            &&& e is None ==> 0 <= i1 && 0 <= o1 && below_cursor(f1, s, i1, o1)
        }),
    decreases n,
{
    if n > 0 {
        lemma_step_shape(s, idx, off);
        let (f, i1, o1) = frame_step(s, idx, off);
        if f is Some {
            let g = f->0;
            assert(s[i1].PhysicalStart & 0xFFFu64 == 0);
            assert(s[i1].PhysicalStart + s[i1].NumberOfPages * PAGE_SIZE <= u64::MAX);
            lemma_aligned_step(s[i1].PhysicalStart, (o1 - 1) as u64);
            lemma_find_frame(frames, g, 0);
            if find_frame(frames, g, 0) < frames.len() {
                assert(frames[find_frame(frames, g, 0)] < g);
            }
            assert(usable_frame(frames, g));
            lemma_frames_increase(s, idx, off);
            lemma_step_shape(s, i1, o1);
            let next = frame_step(s, i1, o1).0;
            assert(below_cursor(frames.push(g), s, i1, o1)) by {
                if next is Some {
                    assert forall|j: int| 0 <= j < frames.push(g).len() implies #[trigger] frames.push(
                        g,
                    )[j] < next->0 by {
                        if j < frames.len() {
                            assert(frames[j] < g);
                        }
                    }
                }
            }
            lemma_allocations_orderly(frames.push(g), s, i1, o1, (n - 1) as nat);
        }
    }
}

/// A table allocation reports only running out of frames or an unusable
/// frame.
proof fn lemma_allocation_errors(frames: Seq<u64>, s: Seq<EFI_MEMORY_DESCRIPTOR>, idx: int, off: int, n: nat)
    ensures
        table_allocations(frames, s, idx, off, n).0 != Some(PagingError::BadTable),
    decreases n,
{
    if n > 0 {
        let (f, i1, o1) = frame_step(s, idx, off);
        if f is Some && usable_frame(frames, f->0) {
            lemma_allocation_errors(frames.push(f->0), s, i1, o1, (n - 1) as nat);
        }
    }
}

/// How many tables the walk of `virt` lacks. Once a level's entry is
/// absent, every table below it is new.
pub open spec fn missing_tables(v: PageTablesView, virt: u64) -> nat {
    let c3 = child_index(v, 0, level_index(virt, 3));
    let c2 = child_index(v, c3, level_index(virt, 2));
    if !present(v.tables[0][level_index(virt, 3)]) {
        3
    } else if !present(v.tables[c3][level_index(virt, 2)]) {
        2
    } else if !present(v.tables[c2][level_index(virt, 1)]) {
        1
    } else {
        0
    }
}

/// Every table found in `v` is found at the same index in `w`.
pub open spec fn finds_kept(v: PageTablesView, w: PageTablesView) -> bool {
    forall|a: u64|
        #![trigger find_frame(w.frames, a, 0)]
        find_frame(v.frames, a, 0) < v.frames.len() ==> find_frame(w.frames, a, 0) == find_frame(
            v.frames,
            a,
            0,
        )
}

/// Page-table (level 0) entries of `v` are unchanged in `w`.
pub open spec fn keeps_leaves(v: PageTablesView, w: PageTablesView) -> bool {
    forall|j: int, e: int|
        0 <= j < v.frames.len() && 0 <= e < 512 && v.levels[j] == 0 ==> #[trigger] w.tables[j][e]
            == v.tables[j][e]
}

/// `u` and `v` select the same entry at every level.
pub open spec fn same_slots(u: u64, v: u64) -> bool {
    &&& level_index(u, 3) == level_index(v, 3)
    &&& level_index(u, 2) == level_index(v, 2)
    &&& level_index(u, 1) == level_index(v, 1)
    &&& level_index(u, 0) == level_index(v, 0)
}

proof fn lemma_kept_trans(u: PageTablesView, v: PageTablesView, w: PageTablesView)
    requires
        finds_kept(u, v),
        finds_kept(v, w),
        keeps_leaves(u, v),
        keeps_leaves(v, w),
        keeps_present(u, v),
        u.frames.len() <= v.frames.len(),
    ensures
        finds_kept(u, w),
        keeps_leaves(u, w),
{
    assert forall|a: u64| #![trigger find_frame(w.frames, a, 0)]
        find_frame(u.frames, a, 0) < u.frames.len() implies find_frame(w.frames, a, 0) == find_frame(
        u.frames,
        a,
        0,
    ) by {
        assert(find_frame(v.frames, a, 0) == find_frame(u.frames, a, 0));
    }
    assert forall|j: int, e: int|
        0 <= j < u.frames.len() && 0 <= e < 512 && u.levels[j] == 0 implies #[trigger] w.tables[j][e]
        == u.tables[j][e] by {
        assert(v.levels[j] == u.levels[j]);
        assert(v.tables[j][e] == u.tables[j][e]);
    }
}

proof fn lemma_keeps_step(v: PageTablesView, w: PageTablesView, k: int, i: int)
    requires
        grows_from(v, w, k, i),
        present(v.tables[k][i]) ==> w.tables[k][i] == v.tables[k][i],
    ensures
        keeps_present(v, w),
{
    assert forall|j: int, e: int|
        0 <= j < v.frames.len() && 0 <= e < 512 && present(#[trigger] v.tables[j][e]) implies w.tables[j][e]
        == v.tables[j][e] by {
        if j != k || e != i {
            assert(w.tables[j][e] == v.tables[j][e]);
        }
    }
}

proof fn lemma_keeps_trans(u: PageTablesView, v: PageTablesView, w: PageTablesView)
    requires
        keeps_present(u, v),
        keeps_present(v, w),
    ensures
        keeps_present(u, w),
{
    assert forall|j: int, e: int|
        0 <= j < u.frames.len() && 0 <= e < 512 && present(#[trigger] u.tables[j][e]) implies w.tables[j][e]
        == u.tables[j][e] by {
        assert(v.tables[j][e] == u.tables[j][e]);
    }
}

proof fn lemma_find_frame(s: Seq<u64>, a: u64, i: int)
    requires
        0 <= i <= s.len(),
    ensures
        i <= find_frame(s, a, i) <= s.len(),
        find_frame(s, a, i) < s.len() ==> s[find_frame(s, a, i)] == a,
        forall|j: int| i <= j < find_frame(s, a, i) ==> s[j] != a,
    decreases s.len() - i,
{
    if i < s.len() && s[i] != a {
        lemma_find_frame(s, a, i + 1);
    }
}

proof fn lemma_find_frame_push(s: Seq<u64>, f: u64, a: u64)
    requires
        find_frame(s, f, 0) == s.len(),
    ensures
        find_frame(s, a, 0) < s.len() ==> find_frame(s.push(f), a, 0) == find_frame(s, a, 0),
        find_frame(s.push(f), f, 0) == s.len(),
{
    lemma_find_frame(s, a, 0);
    lemma_find_frame(s.push(f), a, 0);
    lemma_find_frame(s, f, 0);
    lemma_find_frame(s.push(f), f, 0);
    let k = find_frame(s, a, 0);
    let k2 = find_frame(s.push(f), a, 0);
    if k < s.len() {
        if k2 < k {
            assert(s.push(f)[k2] == s[k2]);
        }
        assert(s.push(f)[k] == a);
    }
    let m = find_frame(s.push(f), f, 0);
    if m < s.len() {
        assert(s.push(f)[m] == s[m]);
    }
    assert(s.push(f)[s.len() as int] == f);
}

proof fn lemma_index_bound(virt: u64, sh: u64)
    ensures
        (virt >> sh) & 0x1FFu64 < 512,
{
    assert((virt >> sh) & 0x1FFu64 < 512) by (bit_vector);
}

proof fn lemma_table_entry(frame: u64)
    requires
        frame & 0xFFFu64 == 0,
    ensures
        present(frame | TABLE_ENTRY_FLAGS),
        entry_address(frame | TABLE_ENTRY_FLAGS) == frame,
        (frame | TABLE_ENTRY_FLAGS) & 7 == 7,
{
    assert((frame | 7u64) & 1u64 != 0) by (bit_vector);
    assert((frame | 7u64) & !0xFFFu64 == frame) by (bit_vector)
        requires
            frame & 0xFFFu64 == 0,
    ;
    assert((frame | 7u64) & 7u64 == 7) by (bit_vector);
}

/// Physical-address bits 12..51 of an entry.
pub open spec fn entry_frame(e: u64) -> u64 {
    e & 0x000F_FFFF_FFFF_F000u64
}

/// Identity-mapping a page-aligned address `p` below 2^52 with `W|U` gives
/// a leaf whose physical address is `p` and whose flags include `P|W|U`.
pub proof fn lemma_identity_leaf(p: u64)
    requires
        p & 0xFFFu64 == 0,
        p < 0x10_0000_0000_0000u64,
    ensures
        entry_frame(p | (PAGE_WRITABLE | PAGE_USER) | PAGE_PRESENT) == p,
        (p | (PAGE_WRITABLE | PAGE_USER) | PAGE_PRESENT) & 7 == 7,
{
    assert(((p | (2u64 | 4u64) | 1u64) & 0x000F_FFFF_FFFF_F000u64) == p) by (bit_vector)
        requires
            p & 0xFFFu64 == 0,
            p < 0x10_0000_0000_0000u64,
    ;
    assert((p | (2u64 | 4u64) | 1u64) & 7u64 == 7) by (bit_vector);
}

proof fn lemma_zero_absent()
    ensures
        !present(0),
{
    assert(0u64 & 1u64 == 0) by (bit_vector);
}

/// A fresh zeroed table in a new frame, hooked into an absent entry `i` of
/// table `k`, keeps the tables tree-shaped.
proof fn lemma_tree_after_fresh(v: PageTablesView, w: PageTablesView, k: int, i: int, f: u64)
    requires
        tables_wf(v),
        0 <= k < v.frames.len(),
        0 <= i < 512,
        v.levels[k] >= 1,
        !present(v.tables[k][i]),
        find_frame(v.frames, f, 0) == v.frames.len(),
        f & 0xFFFu64 == 0,
        w.frames == v.frames.push(f),
        w.levels == v.levels.push((v.levels[k] - 1) as u8),
        w.tables.len() == v.tables.len() + 1,
        forall|j: int| 0 <= j < w.tables.len() ==> (#[trigger] w.tables[j]).len() == 512,
        forall|j: int, e: int|
            0 <= j < v.frames.len() && 0 <= e < 512 && (j != k || e != i) ==> #[trigger] w.tables[j][e]
                == v.tables[j][e],
        w.tables[k][i] == f | TABLE_ENTRY_FLAGS,
        forall|e: int| 0 <= e < 512 ==> #[trigger] w.tables[v.frames.len() as int][e] == 0,
    ensures
        tree_shaped(w),
{
    let n = v.frames.len() as int;
    lemma_zero_absent();
    lemma_table_entry(f);
    lemma_find_frame_push(v.frames, f, f);
    assert forall|j: int, e: int| #[trigger] directory_entry(w, j, e) implies child_index(w, j, e)
        < w.frames.len() && w.levels[child_index(w, j, e)] == w.levels[j] - 1 by {
        if j == n {
            assert(w.tables[n][e] == 0);
        } else if j == k && e == i {
            assert(entry_address(w.tables[j][e]) == f);
            assert(child_index(w, j, e) == n);
            assert(w.levels[n] == v.levels[k] - 1);
            assert(w.levels[j] == v.levels[k]);
        } else {
            assert(w.levels[j] == v.levels[j]);
            assert(w.tables[j][e] == v.tables[j][e]);
            assert(directory_entry(v, j, e));
            assert(tree_shaped(v));
            lemma_find_frame(v.frames, entry_address(v.tables[j][e]), 0);
            assert(child_index(v, j, e) < v.frames.len());
            lemma_find_frame_push(v.frames, f, entry_address(v.tables[j][e]));
            assert(child_index(w, j, e) == child_index(v, j, e));
            assert(w.levels[child_index(v, j, e)] == v.levels[child_index(v, j, e)]);
        }
    }
    assert forall|k1: int, e1: int, k2: int, e2: int|
        #[trigger] directory_entry(w, k1, e1) && #[trigger] directory_entry(w, k2, e2) && child_index(
            w,
            k1,
            e1,
        ) == child_index(w, k2, e2) implies k1 == k2 && e1 == e2 by {
        if k1 == n {
            assert(w.tables[n][e1] == 0);
        } else if k2 == n {
            assert(w.tables[n][e2] == 0);
        } else {
            let fresh1 = k1 == k && e1 == i;
            let fresh2 = k2 == k && e2 == i;
            if !fresh1 {
                assert(w.levels[k1] == v.levels[k1]);
                assert(directory_entry(v, k1, e1));
                lemma_find_frame_push(v.frames, f, entry_address(v.tables[k1][e1]));
            }
            if !fresh2 {
                assert(w.levels[k2] == v.levels[k2]);
                assert(directory_entry(v, k2, e2));
                lemma_find_frame_push(v.frames, f, entry_address(v.tables[k2][e2]));
            }
            if fresh1 && !fresh2 {
                assert(child_index(w, k1, e1) == n);
                assert(child_index(v, k2, e2) < n);
            } else if fresh2 && !fresh1 {
                assert(child_index(w, k2, e2) == n);
                assert(child_index(v, k1, e1) < n);
            } else if !fresh1 && !fresh2 {
                assert(child_index(v, k1, e1) == child_index(v, k2, e2));
            }
        }
    }
}

/// Writing an entry of a page table (level 0) keeps the tables tree-shaped.
proof fn lemma_tree_after_leaf(v: PageTablesView, w: PageTablesView, k: int, i: int)
    requires
        tables_wf(v),
        0 <= k < v.frames.len(),
        v.levels[k] == 0,
        w.frames == v.frames,
        w.levels == v.levels,
        w.tables.len() == v.tables.len(),
        forall|j: int, e: int|
            0 <= j < v.frames.len() && 0 <= e < 512 && (j != k || e != i) ==> #[trigger] w.tables[j][e]
                == v.tables[j][e],
    ensures
        tree_shaped(w),
{
    assert forall|j: int, e: int| #[trigger] directory_entry(w, j, e) implies child_index(w, j, e)
        < w.frames.len() && w.levels[child_index(w, j, e)] == w.levels[j] - 1 by {
        assert(directory_entry(v, j, e));
    }
    assert forall|k1: int, e1: int, k2: int, e2: int|
        #[trigger] directory_entry(w, k1, e1) && #[trigger] directory_entry(w, k2, e2) && child_index(
            w,
            k1,
            e1,
        ) == child_index(w, k2, e2) implies k1 == k2 && e1 == e2 by {
        assert(directory_entry(v, k1, e1));
        assert(directory_entry(v, k2, e2));
    }
}

/// The page-table entry (table index, entry index) the walk of `u` ends at,
/// when every directory entry on the way is present.
pub open spec fn leaf_slot(v: PageTablesView, u: u64) -> Option<(int, int)> {
    let t2 = child_index(v, 0, level_index(u, 3));
    let t1 = child_index(v, t2, level_index(u, 2));
    let t0 = child_index(v, t1, level_index(u, 1));
    if present(v.tables[0][level_index(u, 3)]) && present(v.tables[t2][level_index(u, 2)])
        && present(v.tables[t1][level_index(u, 1)]) {
        Some((t0, level_index(u, 0)))
    } else {
        None
    }
}

/// In well-formed tables a walk reaches a leaf exactly when `leaf_slot`
/// finds one, in a page table, and returns that entry.
proof fn lemma_translate_slot(v: PageTablesView, u: u64)
    requires
        tables_wf(v),
    ensures
        translate(v, u) == match leaf_slot(v, u) {
            Some((t, e)) => Some(v.tables[t][e]),
            None => None::<u64>,
        },
        leaf_slot(v, u) matches Some((t, e)) ==> 0 <= t < v.frames.len() && v.levels[t] == 0 && 0
            <= e < 512,
{
    lemma_index_bound(u, 39);
    lemma_index_bound(u, 30);
    lemma_index_bound(u, 21);
    lemma_index_bound(u, 12);
    lemma_find_frame(v.frames, v.root, 0);
    assert(table_index(v, v.root) == 0);
    let u3 = level_index(u, 3);
    let u2 = level_index(u, 2);
    let u1 = level_index(u, 1);
    let u0 = level_index(u, 0);
    if present(v.tables[0][u3]) {
        assert(directory_entry(v, 0, u3));
        let e3 = v.tables[0][u3];
        let t2 = child_index(v, 0, u3);
        lemma_find_frame(v.frames, entry_address(e3), 0);
        let e2 = v.tables[t2][u2];
        if present(e2) {
            assert(directory_entry(v, t2, u2));
            let t1 = child_index(v, t2, u2);
            lemma_find_frame(v.frames, entry_address(e2), 0);
            let e1 = v.tables[t1][u1];
            if present(e1) {
                assert(directory_entry(v, t1, u1));
                let t0 = child_index(v, t1, u1);
                lemma_find_frame(v.frames, entry_address(e1), 0);
                assert(walk(v, entry_address(e1), 0, u) == Some(v.tables[t0][u0]));
                assert(walk(v, entry_address(e2), 1, u) == Some(v.tables[t0][u0]));
                assert(walk(v, entry_address(e3), 2, u) == Some(v.tables[t0][u0]));
            } else {
                assert(walk(v, entry_address(e2), 1, u) == None::<u64>);
                assert(walk(v, entry_address(e3), 2, u) == None::<u64>);
            }
        } else {
            assert(walk(v, entry_address(e3), 2, u) == None::<u64>);
        }
    }
}

/// Two walks that end at the same page-table entry select the same entry at
/// every level.
proof fn lemma_same_leaf(v: PageTablesView, u: u64, q: u64)
    requires
        tables_wf(v),
        leaf_slot(v, u) is Some,
        leaf_slot(v, u) == leaf_slot(v, q),
    ensures
        same_slots(u, q),
{
    let u3 = level_index(u, 3);
    let q3 = level_index(q, 3);
    let ut2 = child_index(v, 0, u3);
    let qt2 = child_index(v, 0, q3);
    let ut1 = child_index(v, ut2, level_index(u, 2));
    let qt1 = child_index(v, qt2, level_index(q, 2));
    lemma_index_bound(u, 39);
    lemma_index_bound(u, 30);
    lemma_index_bound(u, 21);
    lemma_index_bound(q, 39);
    lemma_index_bound(q, 30);
    lemma_index_bound(q, 21);
    assert(directory_entry(v, 0, u3));
    assert(directory_entry(v, 0, q3));
    lemma_find_frame(v.frames, entry_address(v.tables[0][u3]), 0);
    lemma_find_frame(v.frames, entry_address(v.tables[0][q3]), 0);
    assert(directory_entry(v, ut2, level_index(u, 2)));
    assert(directory_entry(v, qt2, level_index(q, 2)));
    lemma_find_frame(v.frames, entry_address(v.tables[ut2][level_index(u, 2)]), 0);
    lemma_find_frame(v.frames, entry_address(v.tables[qt2][level_index(q, 2)]), 0);
    assert(directory_entry(v, ut1, level_index(u, 1)));
    assert(directory_entry(v, qt1, level_index(q, 1)));
    assert(ut1 == qt1 && level_index(u, 1) == level_index(q, 1));
    assert(ut2 == qt2 && level_index(u, 2) == level_index(q, 2));
    assert(u3 == q3);
}

/// Under the tree shape, writing the page-table entry that `virt` selects
/// leaves the walk of every address selecting other entries as it was.
proof fn lemma_walk_kept(v0: PageTablesView, v4: PageTablesView, u: u64, virt: u64, k3: int, k2: int, k1: int)
    requires
        tables_wf(v0),
        tables_wf(v4),
        v4.root == v0.root,
        v0.frames.len() <= v4.frames.len(),
        finds_kept(v0, v4),
        forall|j: int| 0 <= j < v0.frames.len() ==> #[trigger] v4.levels[j] == v0.levels[j],
        forall|j: int, e: int|
            0 <= j < v0.frames.len() && 0 <= e < 512 && v0.levels[j] >= 1 && present(
                #[trigger] v0.tables[j][e],
            ) ==> v4.tables[j][e] == v0.tables[j][e],
        forall|j: int, e: int|
            0 <= j < v0.frames.len() && 0 <= e < 512 && v0.levels[j] == 0 && (j != k1 || e
                != level_index(virt, 0)) ==> #[trigger] v4.tables[j][e] == v0.tables[j][e],
        directory_entry(v4, 0, level_index(virt, 3)),
        child_index(v4, 0, level_index(virt, 3)) == k3,
        directory_entry(v4, k3, level_index(virt, 2)),
        child_index(v4, k3, level_index(virt, 2)) == k2,
        directory_entry(v4, k2, level_index(virt, 1)),
        child_index(v4, k2, level_index(virt, 1)) == k1,
        translate(v0, u) is Some,
        !same_slots(u, virt),
    ensures
        translate(v4, u) == translate(v0, u),
        leaf_slot(v4, u) == leaf_slot(v0, u),
{
    lemma_index_bound(u, 39);
    lemma_index_bound(u, 30);
    lemma_index_bound(u, 21);
    lemma_index_bound(u, 12);
    let u3 = level_index(u, 3);
    let u2 = level_index(u, 2);
    let u1 = level_index(u, 1);
    let u0 = level_index(u, 0);
    lemma_find_frame(v0.frames, v0.root, 0);
    let a3 = table_index(v0, v0.root);
    assert(a3 == 0);
    let e3 = v0.tables[0][u3];
    let a2 = table_index(v0, entry_address(e3));
    lemma_find_frame(v0.frames, entry_address(e3), 0);
    let e2 = v0.tables[a2][u2];
    let a1 = table_index(v0, entry_address(e2));
    lemma_find_frame(v0.frames, entry_address(e2), 0);
    let e1 = v0.tables[a1][u1];
    let a0 = table_index(v0, entry_address(e1));
    lemma_find_frame(v0.frames, entry_address(e1), 0);
    assert(v4.tables[0][u3] == e3);
    assert(v4.tables[a2][u2] == e2);
    assert(v4.tables[a1][u1] == e1);
    if a0 == k1 && u0 == level_index(virt, 0) {
        assert(directory_entry(v4, a1, u1));
        assert(child_index(v4, a1, u1) == a0);
        assert(a1 == k2 && u1 == level_index(virt, 1));
        assert(directory_entry(v4, a2, u2));
        assert(child_index(v4, a2, u2) == a1);
        assert(a2 == k3 && u2 == level_index(virt, 2));
        assert(directory_entry(v4, 0, u3));
        assert(child_index(v4, 0, u3) == a2);
        assert(u3 == level_index(virt, 3));
        assert(false);
    }
    assert(v4.tables[a0][u0] == v0.tables[a0][u0]);
    assert(walk(v4, entry_address(e1), 0, u) == walk(v0, entry_address(e1), 0, u));
    assert(walk(v4, entry_address(e2), 1, u) == walk(v0, entry_address(e2), 1, u));
    assert(walk(v4, entry_address(e3), 2, u) == walk(v0, entry_address(e3), 2, u));
}

pub struct PageTables {
    root: u64,
    frames: Vec<u64>,
    levels: Vec<u8>,
    tables: Vec<PageTable>,
}

impl View for PageTables {
    type V = PageTablesView;

    closed spec fn view(&self) -> PageTablesView {
        PageTablesView {
            root: self.root,
            frames: self.frames@,
            levels: self.levels@,
            tables: self.tables@.map_values(|t: PageTable| t.entries@),
        }
    }
}

impl PageTables {
    pub open spec fn wf(&self) -> bool {
        tables_wf(self@)
    }

    /// Allocates and zeroes the PML4. Fails when the allocator has no frame
    /// or hands out one that is not page aligned.
    pub fn new(allocator: &mut FrameAllocator) -> (r: Result<Self, PagingError>)
        requires
            old(allocator).wf(),
        ensures
            final(allocator).wf(),
            final(allocator)@.descriptors == old(allocator)@.descriptors,
            (frame_step(old(allocator)@.descriptors, old(allocator)@.index, old(allocator)@.offset).0,
            final(allocator)@.index, final(allocator)@.offset) == frame_step(
                old(allocator)@.descriptors,
                old(allocator)@.index,
                old(allocator)@.offset,
            ),
            match r {
                Ok(t) => {
                    &&& t.wf()
                    &&& frame_step(
                        old(allocator)@.descriptors,
                        old(allocator)@.index,
                        old(allocator)@.offset,
                    ).0 == Some(t@.root)
                    &&& t@.frames.len() == 1
                    &&& forall|i: int| 0 <= i < 512 ==> t@.tables[0][i] == 0
                },
                Err(e) => {
                    &&& e == PagingError::OutOfMemory ==> frame_step(
                        final(allocator)@.descriptors,
                        final(allocator)@.index,
                        final(allocator)@.offset,
                    ).0 is None
                    &&& {
                    let f = frame_step(
                        old(allocator)@.descriptors,
                        old(allocator)@.index,
                        old(allocator)@.offset,
                    ).0;
                    &&& e == PagingError::OutOfMemory <==> f is None
                    &&& e == PagingError::UnusableFrame <==> (f is Some && f->0 & 0xFFF != 0)
                    &&& e != PagingError::BadTable
                    }
                },
            },
    {
        let frame = match allocator.allocate_frame() {
            None => {
                proof {
                    lemma_step_exhausted(
                        old(allocator)@.descriptors,
                        old(allocator)@.index,
                        old(allocator)@.offset,
                    );
                }
                return Err(PagingError::OutOfMemory);
            },
            Some(f) => f,
        };
        if frame & 0xFFF != 0 {
            return Err(PagingError::UnusableFrame);
        }
        let mut frames: Vec<u64> = Vec::new();
        frames.push(frame);
        let mut levels: Vec<u8> = Vec::new();
        levels.push(3);
        let mut tables: Vec<PageTable> = Vec::new();
        tables.push(PageTable::new());
        let r = PageTables { root: frame, frames, levels, tables };
        assert(r@.tables[0] == r.tables@[0].entries@);
        proof {
            lemma_zero_absent();
            assert forall|j: int, e: int| !#[trigger] directory_entry(r@, j, e) by {
                if 0 <= j < 1 && 0 <= e < 512 {
                    assert(r@.tables[j][e] == 0);
                }
            }
        }
        Ok(r)
    }

    /// Physical address of the PML4.
    pub fn root(&self) -> (r: u64)
        ensures
            r == self@.root,
    {
        self.root
    }

    /// Number of tables, the PML4 included.
    pub fn table_count(&self) -> (r: usize)
        ensures
            r == self@.frames.len(),
    {
        self.frames.len()
    }

    /// Frame and entries of table `k`, for writing the tables out to memory.
    pub fn table(&self, k: usize) -> (r: (u64, &PageTable))
        requires
            k < self@.frames.len(),
            self.wf(),
        ensures
            r.0 == self@.frames[k as int],
            r.1.entries@ == self@.tables[k as int],
    {
        (self.frames[k], &self.tables[k])
    }

    fn index_of_frame(&self, a: u64) -> (k: usize)
        ensures
            k == table_index(self@, a),
    {
        let n = self.frames.len();
        let mut i: usize = 0;
        while i < n
            invariant
                n == self.frames.len(),
                i <= n,
                find_frame(self@.frames, a, i as int) == find_frame(self@.frames, a, 0),
            decreases n - i,
        {
            if self.frames[i] == a {
                return i;
            }
            i = i + 1;
        }
        i
    }

    /// Entry `i` of table `k`, leading to a table of level `level - 1`: when
    /// absent, a fresh zeroed table is made in a new frame and the entry is
    /// set to that frame with `P|W|U`. Returns the index of the lower table.
    fn descend(&mut self, k: usize, i: usize, level: u8, allocator: &mut FrameAllocator) -> (r:
        Result<usize, PagingError>)
        requires
            old(self).wf(),
            old(allocator).wf(),
            k < old(self)@.frames.len(),
            i < 512,
            1 <= level <= 3,
            old(self)@.levels[k as int] == level,
        ensures
            final(self).wf(),
            final(allocator).wf(),
            final(allocator)@.descriptors == old(allocator)@.descriptors,
            grows_from(old(self)@, final(self)@, k as int, i as int),
            keeps_present(old(self)@, final(self)@),
            keeps_leaves(old(self)@, final(self)@),
            finds_kept(old(self)@, final(self)@),
            r matches Ok(c) ==> {
                &&& c < final(self)@.frames.len()
                &&& final(self)@.levels[c as int] == level - 1
                &&& present(final(self)@.tables[k as int][i as int])
                &&& entry_address(final(self)@.tables[k as int][i as int]) == final(self)@.frames[c as int]
                &&& table_index(final(self)@, final(self)@.frames[c as int]) == c
                &&& present(old(self)@.tables[k as int][i as int]) ==> final(self)@.tables[k as int][i as int]
                    == old(self)@.tables[k as int][i as int]
                &&& !present(old(self)@.tables[k as int][i as int]) ==> final(self)@.tables[k as int][i as int]
                    & 7 == 7
            },
            present(old(self)@.tables[k as int][i as int]) ==> final(self)@.tables[k as int][i as int]
                == old(self)@.tables[k as int][i as int],
            present(old(self)@.tables[k as int][i as int]) ==> r == Ok::<usize, PagingError>(
                child_index(old(self)@, k as int, i as int) as usize,
            ) && final(self)@ == old(self)@ && final(allocator)@ == old(allocator)@,
            !present(old(self)@.tables[k as int][i as int]) ==> ({
                let (f, i1, o1) = frame_step(
                    old(allocator)@.descriptors,
                    old(allocator)@.index,
                    old(allocator)@.offset,
                );
                &&& final(allocator)@.index == i1
                &&& final(allocator)@.offset == o1
                &&& f is None ==> r == Err::<usize, PagingError>(PagingError::OutOfMemory)
                    && final(self)@ == old(self)@
                &&& f is Some && !usable_frame(old(self)@.frames, f->0) ==> r == Err::<
                    usize,
                    PagingError,
                >(PagingError::UnusableFrame) && final(self)@ == old(self)@
                &&& f is Some && usable_frame(old(self)@.frames, f->0) ==> (r matches Ok(c) && c
                    == old(self)@.frames.len()) && final(self)@.frames == old(self)@.frames.push(
                    f->0,
                ) && forall|e: int|
                    0 <= e < 512 ==> #[trigger] final(self)@.tables[old(self)@.frames.len() as int][e]
                        == 0
            }),
            r == Err::<usize, PagingError>(PagingError::OutOfMemory) ==> frame_step(
                final(allocator)@.descriptors,
                final(allocator)@.index,
                final(allocator)@.offset,
            ).0 is None,
    {
        let e = self.tables[k].entries[i];
        assert(e == self@.tables[k as int][i as int]);
        if e & PAGE_PRESENT == 0 {
            let frame = match allocator.allocate_frame() {
                None => {
                    proof {
                        lemma_step_exhausted(
                            old(allocator)@.descriptors,
                            old(allocator)@.index,
                            old(allocator)@.offset,
                        );
                    }
                    return Err(PagingError::OutOfMemory);
                },
                Some(f) => f,
            };
            if frame & 0xFFF != 0 || self.index_of_frame(frame) < self.frames.len() {
                return Err(PagingError::UnusableFrame);
            }
            let ghost old_view = self@;
            proof {
                lemma_table_entry(frame);
                lemma_find_frame(self@.frames, frame, 0);
            }
            self.frames.push(frame);
            self.levels.push(level - 1);
            self.tables.push(PageTable::new());
            let mut t = self.tables[k];
            t.entries[i] = frame | TABLE_ENTRY_FLAGS;
            self.tables.set(k, t);
            proof {
                let w = self@;
                assert forall|a: u64| #![trigger find_frame(w.frames, a, 0)]
                    find_frame(old_view.frames, a, 0) < old_view.frames.len() implies find_frame(
                    w.frames,
                    a,
                    0,
                ) == find_frame(old_view.frames, a, 0) by {
                    lemma_find_frame_push(old_view.frames, frame, a);
                }
                lemma_find_frame_push(old_view.frames, frame, frame);
                assert forall|j: int| 0 <= j < w.tables.len() implies (#[trigger] w.tables[j]).len()
                    == 512 by {
                    if j < old_view.tables.len() {
                        assert(old_view.tables[j].len() == 512);
                    }
                }
                assert(w.frames[w.frames.len() - 1] == frame);
                lemma_keeps_step(old_view, w, k as int, i as int);
                assert(w.frames =~= old_view.frames.push(frame));
                assert(w.levels =~= old_view.levels.push((old_view.levels[k as int] - 1) as u8));
                assert forall|e: int| 0 <= e < 512 implies #[trigger] w.tables[old_view.frames.len() as int][e] == 0 by {}
                lemma_tree_after_fresh(old_view, w, k as int, i as int, frame);
            }
            Ok(self.frames.len() - 1)
        } else {
            let a = e & !0xFFF;
            let c = self.index_of_frame(a);
            proof {
                lemma_find_frame(self@.frames, a, 0);
            }
            proof {
                assert(directory_entry(self@, k as int, i as int));
                assert(c == child_index(self@, k as int, i as int));
            }
            if c == self.frames.len() || self.levels[c] != level - 1 {
                return Err(PagingError::BadTable);
            }
            Ok(c)
        }
    }

    /// Maps the 4 KiB page at `virt` to `phys`: walks the four levels,
    /// making missing tables on the way, and writes the leaf entry
    /// `phys | flags | P`.
    #[verifier::spinoff_prover]
    #[verifier::rlimit(100)]
    pub fn map_page(
        &mut self,
        virt: u64,
        phys: u64,
        flags: u64,
        allocator: &mut FrameAllocator,
    ) -> (r: Result<(), PagingError>)
        requires
            old(self).wf(),
            old(allocator).wf(),
        ensures
            final(self).wf(),
            final(allocator).wf(),
            final(allocator)@.descriptors == old(allocator)@.descriptors,
            final(self)@.root == old(self)@.root,
            ({
                let (err, ci, co, fr) = table_allocations(
                    old(self)@.frames,
                    old(allocator)@.descriptors,
                    old(allocator)@.index,
                    old(allocator)@.offset,
                    missing_tables(old(self)@, virt),
                );
                &&& final(allocator)@.index == ci
                &&& final(allocator)@.offset == co
                &&& err is None ==> final(self)@.frames == fr
                &&& r == match err {
                    Some(e) => Err::<(), PagingError>(e),
                    None => Ok::<(), PagingError>(()),
                }
            }),
            r is Ok ==> translate(final(self)@, virt) == Some(phys | flags | PAGE_PRESENT),
            r is Ok ==> leaf_slot(final(self)@, virt) is Some,
            r is Ok ==> leaf_slot(old(self)@, virt) is Some ==> leaf_slot(final(self)@, virt)
                == leaf_slot(old(self)@, virt),
            r is Ok ==> forall|u: u64|
                leaf_slot(old(self)@, u) is Some && !same_slots(u, virt) ==> #[trigger] leaf_slot(
                    final(self)@,
                    u,
                ) == leaf_slot(old(self)@, u),
            // Every present page-table entry is the leaf of `virt` or was there before.
            r is Ok ==> forall|j: int, e: int|
                0 <= j < final(self)@.frames.len() && 0 <= e < 512 && final(self)@.levels[j] == 0
                    && present(#[trigger] final(self)@.tables[j][e]) ==> leaf_slot(final(self)@, virt)
                    == Some((j, e)) || (j < old(self)@.frames.len() && old(self)@.levels[j] == 0
                    && old(self)@.tables[j][e] == final(self)@.tables[j][e]),
            r is Ok ==> forall|u: u64|
                translate(old(self)@, u) is Some && !same_slots(u, virt) ==> #[trigger] translate(
                    final(self)@,
                    u,
                ) == translate(old(self)@, u),
            // No entry that was present is overwritten, but for the leaf of `virt`.
            forall|j: int, e: int|
                0 <= j < old(self)@.frames.len() && 0 <= e < 512 && present(
                    #[trigger] old(self)@.tables[j][e],
                ) && !(old(self)@.levels[j] == 0 && e == level_index(virt, 0)) ==> final(self)@.tables[j][e]
                    == old(self)@.tables[j][e],
            r == Err::<(), PagingError>(PagingError::OutOfMemory) ==> frame_step(
                final(allocator)@.descriptors,
                final(allocator)@.index,
                final(allocator)@.offset,
            ).0 is None,
    {
        proof {
            lemma_index_bound(virt, 39);
            lemma_index_bound(virt, 30);
            lemma_index_bound(virt, 21);
            lemma_index_bound(virt, 12);
        }
        let i4 = ((virt >> 39) & 0x1FF) as usize;
        let i3 = ((virt >> 30) & 0x1FF) as usize;
        let i2 = ((virt >> 21) & 0x1FF) as usize;
        let i1 = ((virt >> 12) & 0x1FF) as usize;
        let ghost v0 = self@;
        let ghost s = allocator@.descriptors;
        let ghost a0 = (allocator@.index, allocator@.offset);
        let ghost m = missing_tables(v0, virt);
        proof {
            assert(level_index(virt, 3) == i4 && level_index(virt, 2) == i3);
            assert(level_index(virt, 1) == i2 && level_index(virt, 0) == i1);
        }
        let k3 = match self.descend(0, i4, 3, allocator) {
            Ok(c) => c,
            Err(e) => {
                return Err(e);
            },
        };
        let ghost v1 = self@;
        let ghost a1 = (allocator@.index, allocator@.offset);
        proof {
            if !present(v0.tables[0][i4 as int]) {
                assert(m == 3);
                assert(table_allocations(v0.frames, s, a0.0, a0.1, 3) == table_allocations(
                    v1.frames,
                    s,
                    a1.0,
                    a1.1,
                    2,
                ));
                assert(!present(v1.tables[k3 as int][i3 as int])) by {
                    lemma_zero_absent();
                    assert(k3 == v0.frames.len());
                    assert(v1.tables[v0.frames.len() as int][i3 as int] == 0);
                }
            }
        }
        let k2 = match self.descend(k3, i3, 2, allocator) {
            Ok(c) => c,
            Err(e) => {
                proof {
                    lemma_keeps_trans(v0, v1, self@);
                }
                return Err(e);
            },
        };
        let ghost v2 = self@;
        let ghost a2 = (allocator@.index, allocator@.offset);
        proof {
            lemma_keeps_trans(v0, v1, v2);
            lemma_kept_trans(v0, v1, v2);
            if !present(v0.tables[0][i4 as int]) {
                assert(table_allocations(v1.frames, s, a1.0, a1.1, 2) == table_allocations(
                    v2.frames,
                    s,
                    a2.0,
                    a2.1,
                    1,
                ));
                assert(!present(v2.tables[k2 as int][i2 as int])) by {
                    lemma_zero_absent();
                    assert(k2 == v1.frames.len());
                    assert(v2.tables[v1.frames.len() as int][i2 as int] == 0);
                }
            } else if !present(v0.tables[k3 as int][i3 as int]) {
                assert(m == 2);
                assert(table_allocations(v0.frames, s, a0.0, a0.1, 2) == table_allocations(
                    v2.frames,
                    s,
                    a2.0,
                    a2.1,
                    1,
                ));
                assert(!present(v2.tables[k2 as int][i2 as int])) by {
                    lemma_zero_absent();
                    assert(k2 == v1.frames.len());
                    assert(v2.tables[v1.frames.len() as int][i2 as int] == 0);
                }
            }
        }
        let k1 = match self.descend(k2, i2, 1, allocator) {
            Ok(c) => c,
            Err(e) => {
                proof {
                    lemma_keeps_trans(v0, v2, self@);
                }
                return Err(e);
            },
        };
        let ghost v3 = self@;
        proof {
            lemma_keeps_trans(v0, v2, v3);
            lemma_kept_trans(v0, v2, v3);
            if !present(v0.tables[0][i4 as int]) || !present(v0.tables[k3 as int][i3 as int]) {
                assert(table_allocations(v2.frames, s, a2.0, a2.1, 1) == table_allocations(
                    v3.frames,
                    s,
                    allocator@.index,
                    allocator@.offset,
                    0,
                ));
            } else if !present(v0.tables[k2 as int][i2 as int]) {
                assert(m == 1);
                assert(v2 == v0 && a2 == a0);
                assert(table_allocations(v0.frames, s, a0.0, a0.1, 1) == table_allocations(
                    v3.frames,
                    s,
                    allocator@.index,
                    allocator@.offset,
                    0,
                ));
            } else {
                assert(m == 0);
                assert(v2 == v0 && a2 == a0);
                assert(allocator@.index == a0.0 && allocator@.offset == a0.1);
            }
        }
        let mut t = self.tables[k1];
        t.entries[i1] = phys | flags | PAGE_PRESENT;
        self.tables.set(k1, t);
        let ghost v4 = self@;
        proof {
            assert(v4.tables[k1 as int][i1 as int] == phys | flags | PAGE_PRESENT);
            assert(v4.frames =~= v3.frames);
            assert(v4.levels =~= v3.levels);
            assert forall|j: int, e: int|
                0 <= j < v3.frames.len() && 0 <= e < 512 && (j != k1 || e != i1) implies #[trigger] v4.tables[j][e]
                    == v3.tables[j][e] by {
                if j == k1 {
                    assert(v4.tables[j] == v3.tables[j].update(i1 as int, phys | flags | PAGE_PRESENT));
                }
            }
            lemma_tree_after_leaf(v3, v4, k1 as int, i1 as int);
            assert(finds_kept(v0, v4)) by {
                assert forall|a: u64| #![trigger find_frame(v4.frames, a, 0)]
                    find_frame(v0.frames, a, 0) < v0.frames.len() implies find_frame(v4.frames, a, 0)
                    == find_frame(v0.frames, a, 0) by {
                    assert(find_frame(v3.frames, a, 0) == find_frame(v0.frames, a, 0));
                }
            }
            assert forall|j: int, e: int|
                0 <= j < v0.frames.len() && 0 <= e < 512 && v0.levels[j] >= 1 && present(
                    #[trigger] v0.tables[j][e],
                ) implies v4.tables[j][e] == v0.tables[j][e] by {
                assert(v3.tables[j][e] == v0.tables[j][e]);
                assert(v3.levels[j] == v0.levels[j]);
            }
            assert forall|j: int, e: int|
                0 <= j < v0.frames.len() && 0 <= e < 512 && v0.levels[j] == 0 && (j != k1 || e
                    != level_index(virt, 0)) implies #[trigger] v4.tables[j][e] == v0.tables[j][e] by {
                assert(v3.tables[j][e] == v0.tables[j][e]);
            }
            assert forall|j: int| 0 <= j < v0.frames.len() implies #[trigger] v4.levels[j] == v0.levels[j] by {
                assert(v3.levels[j] == v0.levels[j]);
            }
            assert forall|j: int| 0 <= j < v4.tables.len() implies (#[trigger] v4.tables[j]).len()
                == 512 by {
                assert(v3.tables[j].len() == 512);
            }
            // The path entries written first survive the later writes, which
            // go to tables of other levels.
            assert(v1.levels[k3 as int] == 2 && v2.levels[k2 as int] == 1 && v3.levels[k1 as int] == 0);
            assert(v2.levels[0] == 3 && v3.levels[0] == 3 && v3.levels[k3 as int] == 2);
            assert(k3 != 0 && k2 != 0 && k1 != 0 && k2 != k3 && k1 != k3 && k1 != k2);
            assert(v2.tables[0][i4 as int] == v1.tables[0][i4 as int]);
            assert(v3.tables[0][i4 as int] == v2.tables[0][i4 as int]);
            assert(v4.tables[0] == v3.tables[0]);
            assert(v4.tables[0][i4 as int] == v1.tables[0][i4 as int]);
            assert(v3.tables[k3 as int][i3 as int] == v2.tables[k3 as int][i3 as int]);
            assert(v4.tables[k3 as int] == v3.tables[k3 as int]);
            assert(v4.tables[k3 as int][i3 as int] == v2.tables[k3 as int][i3 as int]);
            assert(v4.tables[k2 as int] == v3.tables[k2 as int]);
            assert(v4.tables[k2 as int][i2 as int] == v3.tables[k2 as int][i2 as int]);
            assert(table_index(v4, v4.root) == 0) by {
                lemma_find_frame(v4.frames, v4.root, 0);
            }
            assert(v4.levels[0] == 3);
            assert(table_index(v4, v4.frames[k3 as int]) == k3);
            assert(table_index(v4, v4.frames[k2 as int]) == k2);
            assert(table_index(v4, v4.frames[k1 as int]) == k1);
            assert(level_index(virt, 3) == i4);
            assert(level_index(virt, 2) == i3);
            assert(level_index(virt, 1) == i2);
            assert(level_index(virt, 0) == i1);
            assert(walk(v4, v4.frames[k1 as int], 0, virt) == Some(phys | flags | PAGE_PRESENT));
            assert(walk(v4, v4.frames[k2 as int], 1, virt) == Some(phys | flags | PAGE_PRESENT));
            assert(walk(v4, v4.frames[k3 as int], 2, virt) == Some(phys | flags | PAGE_PRESENT));
            assert(directory_entry(v4, 0, level_index(virt, 3)));
            assert(directory_entry(v4, k3 as int, level_index(virt, 2)));
            assert(directory_entry(v4, k2 as int, level_index(virt, 1)));
            assert forall|u: u64|
                translate(v0, u) is Some && !same_slots(u, virt) implies #[trigger] translate(v4, u)
                == translate(v0, u) by {
                lemma_walk_kept(v0, v4, u, virt, k3 as int, k2 as int, k1 as int);
            }
            assert forall|u: u64|
                leaf_slot(v0, u) is Some && !same_slots(u, virt) implies #[trigger] leaf_slot(v4, u)
                == leaf_slot(v0, u) by {
                lemma_translate_slot(v0, u);
                lemma_walk_kept(v0, v4, u, virt, k3 as int, k2 as int, k1 as int);
            }
            assert(leaf_slot(v4, virt) == Some((k1 as int, i1 as int)));
            if leaf_slot(v0, virt) is Some {
                assert(present(v0.tables[0][i4 as int]));
                assert(v1 == v0);
                assert(present(v0.tables[k3 as int][i3 as int]));
                assert(v2 == v0);
                assert(present(v0.tables[k2 as int][i2 as int]));
                assert(leaf_slot(v0, virt) == Some((k1 as int, i1 as int)));
            }
            // New tables: at most one per level, and the one page table among
            // them is zero but for the leaf just written.
            assert(v1.frames.len() == v0.frames.len() || (v1.frames.len() == v0.frames.len() + 1
                && k3 == v0.frames.len()));
            assert(v2.frames.len() == v1.frames.len() || (v2.frames.len() == v1.frames.len() + 1
                && k2 == v1.frames.len()));
            assert(v3.frames.len() == v2.frames.len() || (v3.frames.len() == v2.frames.len() + 1
                && k1 == v2.frames.len() && forall|e: int|
                0 <= e < 512 ==> #[trigger] v3.tables[v2.frames.len() as int][e] == 0));
            assert forall|j: int, e: int|
                0 <= j < v4.frames.len() && 0 <= e < 512 && v4.levels[j] == 0 && present(
                    #[trigger] v4.tables[j][e],
                ) implies leaf_slot(v4, virt) == Some((j, e)) || (j < v0.frames.len() && v0.levels[j]
                == 0 && v0.tables[j][e] == v4.tables[j][e]) by {
                if j < v0.frames.len() {
                    assert(v3.levels[j] == v0.levels[j]);
                    if j != k1 || e != i1 {
                        assert(v3.tables[j][e] == v0.tables[j][e]);
                    }
                } else if j < v1.frames.len() {
                    assert(v1.levels[j] == 2);
                    assert(v2.levels[j] == v1.levels[j]);
                    assert(v3.levels[j] == v2.levels[j]);
                } else if j < v2.frames.len() {
                    assert(v2.levels[j] == 1);
                    assert(v3.levels[j] == v2.levels[j]);
                } else {
                    assert(j == k1);
                    if e != i1 {
                        assert(v4.tables[j][e] == v3.tables[j][e]);
                        lemma_zero_absent();
                    }
                }
            }
            assert forall|j: int, e: int|
                0 <= j < v0.frames.len() && 0 <= e < 512 && present(#[trigger] v0.tables[j][e]) && !(
                v0.levels[j] == 0 && e == level_index(virt, 0)) implies v4.tables[j][e] == v0.tables[j][e] by {
                assert(v3.tables[j][e] == v0.tables[j][e]);
                assert(v3.levels[j] == v0.levels[j]);
                if j == k1 {
                    assert(v4.tables[j] == v3.tables[j].update(i1 as int, phys | flags | PAGE_PRESENT));
                } else {
                    assert(v4.tables[j] == v3.tables[j]);
                }
            }
        }
        Ok(())
    }

    /// The leaf entry that maps `virt`, if the walk reaches one.
    pub fn translate(&self, virt: u64) -> (r: Option<u64>)
        requires
            self.wf(),
        ensures
            r == translate(self@, virt),
    {
        proof {
            lemma_index_bound(virt, 39);
            lemma_index_bound(virt, 30);
            lemma_index_bound(virt, 21);
            lemma_index_bound(virt, 12);
        }
        let mut a = self.root;
        let mut level: u8 = 3;
        loop
            invariant
                self.wf(),
                level <= 3,
                walk(self@, a, level as int, virt) == translate(self@, virt),
            decreases level,
        {
            let k = self.index_of_frame(a);
            proof {
                lemma_find_frame(self@.frames, a, 0);
            }
            if k == self.frames.len() || self.levels[k] != level {
                return None;
            }
            let shift: u64 = if level == 3 {
                39
            } else if level == 2 {
                30
            } else if level == 1 {
                21
            } else {
                12
            };
            proof {
                lemma_index_bound(virt, shift);
            }
            let e = self.tables[k].entries[((virt >> shift) & 0x1FF) as usize];
            assert(e == self@.tables[k as int][level_index(virt, level as int)]);
            if level == 0 {
                return Some(e);
            }
            if e & PAGE_PRESENT == 0 {
                return None;
            }
            a = e & !0xFFF;
            level = level - 1;
        }
    }
}

/// Page `k` of region `d`.
pub open spec fn region_page(d: EFI_MEMORY_DESCRIPTOR, k: int) -> u64 {
    (d.PhysicalStart + k * PAGE_SIZE) as u64
}

/// `p` translates to itself, present, writable and user-accessible.
pub open spec fn maps_identity(v: PageTablesView, p: u64) -> bool {
    translate(v, p) == Some(p | 7u64)
}

/// A page-aligned address below 2^48.
pub open spec fn low_page(p: u64) -> bool {
    p & 0xFFFu64 == 0 && p < 0x1_0000_0000_0000u64
}

/// Every identity-mapped region and the framebuffer are page aligned and
/// lie below 2^48.
pub open spec fn regions_low(s: Seq<EFI_MEMORY_DESCRIPTOR>, info: BootInfo) -> bool {
    &&& forall|j: int|
        0 <= j < s.len() && identity_mapped_type(#[trigger] s[j].Type) ==> s[j].PhysicalStart
            & 0xFFFu64 == 0 && s[j].PhysicalStart + s[j].NumberOfPages * PAGE_SIZE
            <= 0x1_0000_0000_0000u64
    &&& info.framebuffer_base & 0xFFFu64 == 0
    &&& info.framebuffer_base + info.framebuffer_size <= 0x1_0000_0000_0000u64
}

/// Pages `k` of region `j` are mapped for every identity-mapped region
/// before `i`, and for region `i` below page `p`.
pub open spec fn regions_mapped(v: PageTablesView, s: Seq<EFI_MEMORY_DESCRIPTOR>, i: int, p: int) -> bool {
    forall|j: int, k: int|
        0 <= j < s.len() && identity_mapped_type(s[j].Type) && 0 <= k < s[j].NumberOfPages && (j
            < i || (j == i && k < p)) ==> maps_identity(v, #[trigger] region_page(s[j], k))
}

/// The first `n` framebuffer pages from `base` are mapped.
pub open spec fn framebuffer_mapped(v: PageTablesView, base: u64, n: int) -> bool {
    forall|k: int| 0 <= k < n ==> maps_identity(v, #[trigger] ((base + k * PAGE_SIZE) as u64))
}

proof fn lemma_low_pages_distinct(p: u64, q: u64)
    requires
        low_page(p),
        low_page(q),
        same_slots(p, q),
    ensures
        p == q,
{
    assert(p == q) by (bit_vector)
        requires
            p & 0xFFFu64 == 0,
            p < 0x1_0000_0000_0000u64,
            q & 0xFFFu64 == 0,
            q < 0x1_0000_0000_0000u64,
            (p >> 39u64) & 0x1FFu64 == (q >> 39u64) & 0x1FFu64,
            (p >> 30u64) & 0x1FFu64 == (q >> 30u64) & 0x1FFu64,
            (p >> 21u64) & 0x1FFu64 == (q >> 21u64) & 0x1FFu64,
            (p >> 12u64) & 0x1FFu64 == (q >> 12u64) & 0x1FFu64,
    ;
}

proof fn lemma_page_step_low(a: u64, k: u64)
    requires
        a & 0xFFFu64 == 0,
        a + k * 4096 < 0x1_0000_0000_0000u64,
    ensures
        low_page((a + k * 4096) as u64),
{
    let m = (k * 4096) as u64;
    assert(m & 0xFFFu64 == 0) by (bit_vector)
        requires
            m == k * 4096,
    ;
    let b = (a + m) as u64;
    assert(b & 0xFFFu64 == 0) by (bit_vector)
        requires
            a & 0xFFFu64 == 0,
            m & 0xFFFu64 == 0,
            b == a + m,
    ;
}

/// A page mapped before stays mapped after another low page is mapped.
proof fn lemma_identity_kept(v: PageTablesView, w: PageTablesView, q: u64, addr: u64)
    requires
        maps_identity(v, q),
        low_page(q),
        low_page(addr),
        maps_identity(w, addr),
        forall|u: u64|
            translate(v, u) is Some && !same_slots(u, addr) ==> #[trigger] translate(w, u)
                == translate(v, u),
    ensures
        maps_identity(w, q),
{
    if same_slots(q, addr) {
        lemma_low_pages_distinct(q, addr);
    }
}

proof fn lemma_leaf_value(addr: u64)
    ensures
        addr | (PAGE_WRITABLE | PAGE_USER) | PAGE_PRESENT == addr | 7u64,
{
    assert(addr | (2u64 | 4u64) | 1u64 == addr | 7u64) by (bit_vector);
}

/// Pages of the identity-mapped regions from descriptor `i` on.
pub open spec fn identity_pages_from(s: Seq<EFI_MEMORY_DESCRIPTOR>, i: int) -> int
    decreases s.len() - i,
{
    if i < 0 || i >= s.len() {
        0
    } else {
        (if identity_mapped_type(s[i].Type) {
            s[i].NumberOfPages as int
        } else {
            0
        }) + identity_pages_from(s, i + 1)
    }
}

/// Pages the framebuffer spans.
pub open spec fn framebuffer_pages(info: BootInfo) -> int {
    (info.framebuffer_size + 4095) / 4096
}

/// Frames that building the tables can take at most: the PML4 and three
/// tables per mapped page.
pub open spec fn frames_needed(s: Seq<EFI_MEMORY_DESCRIPTOR>, info: BootInfo) -> int {
    1 + 3 * (identity_pages_from(s, 0) + framebuffer_pages(info))
}

proof fn lemma_identity_pages_nonneg(s: Seq<EFI_MEMORY_DESCRIPTOR>, i: int)
    ensures
        identity_pages_from(s, i) >= 0,
    decreases s.len() - i,
{
    if 0 <= i < s.len() {
        lemma_identity_pages_nonneg(s, i + 1);
    }
}

proof fn lemma_missing_at_most_three(v: PageTablesView, virt: u64)
    ensures
        missing_tables(v, virt) <= 3,
{
}

/// `q` is a page of an identity-mapped region or of the framebuffer.
pub open spec fn in_identity_set(s: Seq<EFI_MEMORY_DESCRIPTOR>, info: BootInfo, q: u64) -> bool {
    ||| exists|j: int, k: int|
        0 <= j < s.len() && identity_mapped_type(s[j].Type) && 0 <= k < s[j].NumberOfPages
            && #[trigger] region_page(s[j], k) == q
    ||| exists|k: int|
        0 <= k && info.framebuffer_base + k * PAGE_SIZE < info.framebuffer_base
            + info.framebuffer_size && #[trigger] ((info.framebuffer_base + k * PAGE_SIZE) as u64)
            == q
}

/// Every present page-table entry is the leaf of a low page of the identity
/// set.
pub open spec fn leaves_owned(v: PageTablesView, s: Seq<EFI_MEMORY_DESCRIPTOR>, info: BootInfo) -> bool {
    forall|j: int, e: int|
        0 <= j < v.frames.len() && 0 <= e < 512 && v.levels[j] == 0 && present(
            #[trigger] v.tables[j][e],
        ) ==> exists|q: u64|
            low_page(q) && in_identity_set(s, info, q) && #[trigger] leaf_slot(v, q) == Some((j, e))
}

/// `leaves_owned` survives mapping a low page `addr` of the identity set.
proof fn lemma_owned_step(
    before: PageTablesView,
    after: PageTablesView,
    s: Seq<EFI_MEMORY_DESCRIPTOR>,
    info: BootInfo,
    addr: u64,
)
    requires
        leaves_owned(before, s, info),
        low_page(addr),
        in_identity_set(s, info, addr),
        leaf_slot(before, addr) is Some ==> leaf_slot(after, addr) == leaf_slot(before, addr),
        forall|u: u64|
            leaf_slot(before, u) is Some && !same_slots(u, addr) ==> #[trigger] leaf_slot(after, u)
                == leaf_slot(before, u),
        forall|j: int, e: int|
            0 <= j < after.frames.len() && 0 <= e < 512 && after.levels[j] == 0 && present(
                #[trigger] after.tables[j][e],
            ) ==> leaf_slot(after, addr) == Some((j, e)) || (j < before.frames.len()
                && before.levels[j] == 0 && before.tables[j][e] == after.tables[j][e]),
    ensures
        leaves_owned(after, s, info),
{
    assert forall|j: int, e: int|
        0 <= j < after.frames.len() && 0 <= e < 512 && after.levels[j] == 0 && present(
            #[trigger] after.tables[j][e],
        ) implies exists|q: u64|
        low_page(q) && in_identity_set(s, info, q) && #[trigger] leaf_slot(after, q) == Some((j, e)) by {
        if leaf_slot(after, addr) == Some((j, e)) {
            assert(low_page(addr) && in_identity_set(s, info, addr) && leaf_slot(after, addr) == Some((j, e)));
        } else {
            assert(present(before.tables[j][e]));
            let q = choose|q: u64|
                low_page(q) && in_identity_set(s, info, q) && #[trigger] leaf_slot(before, q) == Some((j, e));
            if same_slots(q, addr) {
                lemma_low_pages_distinct(q, addr);
            }
            assert(leaf_slot(after, q) == Some((j, e)));
        }
    }
}

/// Builds the kernel's page tables: a fresh PML4, every page of each
/// identity-mapped region mapped to itself with `W|U`, then the framebuffer
/// likewise. The caller loads `CR3` with the returned root.
pub fn init_paging(boot_info: &BootInfo, allocator: &mut FrameAllocator) -> (r: Result<
    PageTables,
    PagingError,
>)
    requires
        old(allocator).wf(),
        boot_info.framebuffer_base + boot_info.framebuffer_size + PAGE_SIZE <= u64::MAX,
    ensures
        final(allocator).wf(),
        final(allocator)@.descriptors == old(allocator)@.descriptors,
        r matches Ok(t) ==> t.wf() && Some(t@.root) == frame_step(
            old(allocator)@.descriptors,
            old(allocator)@.index,
            old(allocator)@.offset,
        ).0,
        r == Err::<PageTables, PagingError>(PagingError::OutOfMemory) ==> frame_step(
            final(allocator)@.descriptors,
            final(allocator)@.index,
            final(allocator)@.offset,
        ).0 is None,
        orderly_map(old(allocator)@.descriptors) && remaining(
            old(allocator)@.descriptors,
            old(allocator)@.index,
            old(allocator)@.offset,
        ) >= frames_needed(old(allocator)@.descriptors, *boot_info) ==> r is Ok,
        r matches Err(e) ==> e == PagingError::OutOfMemory || e == PagingError::UnusableFrame,
        orderly_map(old(allocator)@.descriptors) ==> r != Err::<PageTables, PagingError>(
            PagingError::UnusableFrame,
        ),
        r matches Ok(t) ==> regions_low(old(allocator)@.descriptors, *boot_info) ==> forall|u: u64|
            low_page(u) && #[trigger] translate(t@, u) is Some && present(translate(t@, u)->0) ==> in_identity_set(
                old(allocator)@.descriptors,
                *boot_info,
                u,
            ),
        r matches Ok(t) ==> regions_low(old(allocator)@.descriptors, *boot_info) ==> {
            &&& regions_mapped(t@, old(allocator)@.descriptors, old(allocator)@.descriptors.len() as int, 0)
            &&& forall|k: int|
                0 <= k && boot_info.framebuffer_base + k * PAGE_SIZE < boot_info.framebuffer_base
                    + boot_info.framebuffer_size ==> maps_identity(
                    t@,
                    #[trigger] ((boot_info.framebuffer_base + k * PAGE_SIZE) as u64),
                )
        },
{
    let ghost s = allocator@.descriptors;
    let ghost low = regions_low(s, *boot_info);
    let ghost plenty = orderly_map(s) && remaining(s, allocator@.index, allocator@.offset)
        >= frames_needed(s, *boot_info);
    let ghost orderly = orderly_map(s);
    proof {
        lemma_identity_pages_nonneg(s, 0);
        if orderly {
            lemma_step_shape(s, allocator@.index, allocator@.offset);
        }
        if orderly && frame_step(s, allocator@.index, allocator@.offset).0 is Some {
            let (f, i1, o1) = frame_step(s, allocator@.index, allocator@.offset);
            assert(s[i1].PhysicalStart & 0xFFFu64 == 0);
            assert(s[i1].PhysicalStart + s[i1].NumberOfPages * PAGE_SIZE <= u64::MAX);
            lemma_aligned_step(s[i1].PhysicalStart, (o1 - 1) as u64);
            lemma_frames_increase(s, allocator@.index, allocator@.offset);
            lemma_step_shape(s, i1, o1);
        }
        if plenty {
            lemma_step_remaining(s, allocator@.index, allocator@.offset);
            lemma_step_shape(s, allocator@.index, allocator@.offset);
            let (f, i1, o1) = frame_step(s, allocator@.index, allocator@.offset);
            assert(s[i1].PhysicalStart & 0xFFFu64 == 0);
            assert(s[i1].PhysicalStart + s[i1].NumberOfPages * PAGE_SIZE <= u64::MAX);
            lemma_aligned_step(s[i1].PhysicalStart, (o1 - 1) as u64);
            lemma_frames_increase(s, allocator@.index, allocator@.offset);
            lemma_step_shape(s, i1, o1);
        }
    }
    let mut tables = match PageTables::new(allocator) {
        Ok(t) => t,
        Err(e) => {
            return Err(e);
        },
    };
    proof {
        if orderly {
            assert(tables@.frames.len() == 1);
            assert(below_cursor(tables@.frames, s, allocator@.index, allocator@.offset));
        }
    }
    let ghost root = tables@.root;
    let n = allocator.descriptors().len();
    let mut i: usize = 0;
    while i < n
        invariant
            i <= n,
            n == allocator@.descriptors.len(),
            allocator.wf(),
            allocator@.descriptors == old(allocator)@.descriptors,
            tables.wf(),
            tables@.root == root,
            Some(root) == frame_step(
                old(allocator)@.descriptors,
                old(allocator)@.index,
                old(allocator)@.offset,
            ).0,
            s == old(allocator)@.descriptors,
            low == regions_low(s, *boot_info),
            low ==> regions_mapped(tables@, s, i as int, 0),
            plenty == (orderly_map(s) && remaining(s, old(allocator)@.index, old(allocator)@.offset)
                >= frames_needed(s, *boot_info)),
            orderly == orderly_map(s),
            orderly ==> below_cursor(tables@.frames, s, allocator@.index, allocator@.offset),
            plenty ==> remaining(s, allocator@.index, allocator@.offset) >= 3 * (identity_pages_from(
                s,
                i as int,
            ) + framebuffer_pages(*boot_info)),
            low ==> leaves_owned(tables@, s, *boot_info),
        decreases n - i,
    {
        let d = allocator.descriptors()[i];
        if is_identity_mapped(d.Type) {
            assert(d.PhysicalStart + d.NumberOfPages * PAGE_SIZE <= u64::MAX);
            let mut p: u64 = 0;
            while p < d.NumberOfPages
                invariant
                    p <= d.NumberOfPages,
                    d.PhysicalStart + d.NumberOfPages * PAGE_SIZE <= u64::MAX,
                    allocator.wf(),
                    allocator@.descriptors == old(allocator)@.descriptors,
                    n == allocator@.descriptors.len(),
                    tables.wf(),
                    tables@.root == root,
                    s == old(allocator)@.descriptors,
                    d == s[i as int],
                    i < n,
                    identity_mapped_type(d.Type),
                    low == regions_low(s, *boot_info),
                    low ==> regions_mapped(tables@, s, i as int, p as int),
                    plenty == (orderly_map(s) && remaining(s, old(allocator)@.index, old(allocator)@.offset)
                        >= frames_needed(s, *boot_info)),
                    orderly == orderly_map(s),
            orderly ==> below_cursor(tables@.frames, s, allocator@.index, allocator@.offset),
                    plenty ==> remaining(s, allocator@.index, allocator@.offset) >= 3 * (
                    identity_pages_from(s, i + 1) + (d.NumberOfPages - p) + framebuffer_pages(
                        *boot_info,
                    )),
                    low ==> leaves_owned(tables@, s, *boot_info),
                decreases d.NumberOfPages - p,
            {
                assert(p * PAGE_SIZE < d.NumberOfPages * PAGE_SIZE);
                let addr = d.PhysicalStart + p * PAGE_SIZE;
                let ghost before = tables@;
                proof {
                    lemma_allocation_errors(tables@.frames, s, allocator@.index, allocator@.offset, missing_tables(tables@, addr));
                    lemma_missing_at_most_three(tables@, addr);
                    lemma_identity_pages_nonneg(s, i + 1);
                    if plenty {
                        lemma_allocations_succeed(tables@.frames, s, allocator@.index, allocator@.offset, missing_tables(tables@, addr));
                    }
                    if orderly {
                        lemma_allocations_orderly(tables@.frames, s, allocator@.index, allocator@.offset, missing_tables(tables@, addr));
                    }
                }
                match tables.map_page(addr, addr, PAGE_WRITABLE | PAGE_USER, allocator) {
                    Ok(()) => {},
                    Err(e) => {
                        return Err(e);
                    },
                }
                proof {
                    if low {
                        lemma_leaf_value(addr);
                        assert(addr == region_page(s[i as int], p as int));
                        lemma_page_step_low(d.PhysicalStart, p);
                        assert(in_identity_set(s, *boot_info, addr));
                        lemma_owned_step(before, tables@, s, *boot_info, addr);
                        lemma_page_step_low(d.PhysicalStart, p);
                        assert forall|j: int, k: int|
                            0 <= j < s.len() && identity_mapped_type(s[j].Type) && 0 <= k
                                < s[j].NumberOfPages && (j < i || (j == i && k < p + 1)) implies maps_identity(
                            tables@,
                            #[trigger] region_page(s[j], k),
                        ) by {
                            if j == i && k == p {
                            } else {
                                assert(maps_identity(before, region_page(s[j], k)));
                                assert(s[j].PhysicalStart + s[j].NumberOfPages * PAGE_SIZE <= 0x1_0000_0000_0000u64);
                                assert(k * PAGE_SIZE < s[j].NumberOfPages * PAGE_SIZE);
                                lemma_page_step_low(s[j].PhysicalStart, k as u64);
                                lemma_identity_kept(before, tables@, region_page(s[j], k), addr);
                            }
                        }
                    }
                }
                p = p + 1;
            }
        }
        i = i + 1;
    }
    let fb_base = boot_info.framebuffer_base;
    let fb_end = fb_base + boot_info.framebuffer_size as u64;
    let mut addr = fb_base;
    let ghost mut count: int = 0;
    while addr < fb_end
        invariant
            fb_end + PAGE_SIZE <= u64::MAX,
            fb_end == boot_info.framebuffer_base + boot_info.framebuffer_size,
            fb_base == boot_info.framebuffer_base,
            addr <= fb_end + PAGE_SIZE,
            allocator.wf(),
            allocator@.descriptors == old(allocator)@.descriptors,
            tables.wf(),
            tables@.root == root,
            count >= 0,
            addr == fb_base + count * PAGE_SIZE,
            s == old(allocator)@.descriptors,
            low == regions_low(s, *boot_info),
            low ==> regions_mapped(tables@, s, s.len() as int, 0),
            low ==> framebuffer_mapped(tables@, fb_base, count),
            plenty == (orderly_map(s) && remaining(s, old(allocator)@.index, old(allocator)@.offset)
                >= frames_needed(s, *boot_info)),
            orderly == orderly_map(s),
            orderly ==> below_cursor(tables@.frames, s, allocator@.index, allocator@.offset),
            plenty ==> remaining(s, allocator@.index, allocator@.offset) >= 3 * (framebuffer_pages(
                *boot_info,
            ) - count),
            low ==> leaves_owned(tables@, s, *boot_info),
        decreases fb_end + PAGE_SIZE - addr,
    {
        let ghost before = tables@;
        proof {
            lemma_allocation_errors(tables@.frames, s, allocator@.index, allocator@.offset, missing_tables(tables@, addr));
            lemma_missing_at_most_three(tables@, addr);
            if plenty {
                assert(count * 4096 < boot_info.framebuffer_size);
                assert(count < framebuffer_pages(*boot_info));
                lemma_allocations_succeed(tables@.frames, s, allocator@.index, allocator@.offset, missing_tables(tables@, addr));
            }
            if orderly {
                lemma_allocations_orderly(tables@.frames, s, allocator@.index, allocator@.offset, missing_tables(tables@, addr));
            }
        }
        match tables.map_page(addr, addr, PAGE_WRITABLE | PAGE_USER, allocator) {
            Ok(()) => {},
            Err(e) => {
                return Err(e);
            },
        }
        proof {
            if low {
                assert(regions_low(s, *boot_info));
                assert(fb_base & 0xFFFu64 == 0);
                lemma_leaf_value(addr);
                lemma_page_step_low(fb_base, count as u64);
                assert(((boot_info.framebuffer_base + count * PAGE_SIZE) as u64) == addr);
                assert(in_identity_set(s, *boot_info, addr));
                lemma_owned_step(before, tables@, s, *boot_info, addr);
                assert forall|j: int, k: int|
                    0 <= j < s.len() && identity_mapped_type(s[j].Type) && 0 <= k < s[j].NumberOfPages
                        && (j < s.len() || (j == s.len() && k < 0)) implies maps_identity(
                    tables@,
                    #[trigger] region_page(s[j], k),
                ) by {
                    assert(maps_identity(before, region_page(s[j], k)));
                    assert(s[j].PhysicalStart + s[j].NumberOfPages * PAGE_SIZE <= 0x1_0000_0000_0000u64);
                    assert(k * PAGE_SIZE < s[j].NumberOfPages * PAGE_SIZE);
                    lemma_page_step_low(s[j].PhysicalStart, k as u64);
                    lemma_identity_kept(before, tables@, region_page(s[j], k), addr);
                }
                assert forall|k: int| 0 <= k < count + 1 implies maps_identity(
                    tables@,
                    #[trigger] ((fb_base + k * PAGE_SIZE) as u64),
                ) by {
                    if k < count {
                        assert(maps_identity(before, (fb_base + k * PAGE_SIZE) as u64));
                        lemma_page_step_low(fb_base, k as u64);
                        lemma_identity_kept(before, tables@, (fb_base + k * PAGE_SIZE) as u64, addr);
                    }
                }
            }
        }
        addr = addr + PAGE_SIZE;
        proof {
            count = count + 1;
        }
    }
    proof {
        if low {
            assert forall|u: u64|
                low_page(u) && #[trigger] translate(tables@, u) is Some && present(translate(tables@, u)->0) implies in_identity_set(
                s,
                *boot_info,
                u,
            ) by {
                lemma_translate_slot(tables@, u);
                let (j, e) = leaf_slot(tables@, u)->0;
                assert(present(tables@.tables[j][e]));
                let q = choose|q: u64|
                    low_page(q) && in_identity_set(s, *boot_info, q) && #[trigger] leaf_slot(tables@, q)
                        == Some((j, e));
                lemma_same_leaf(tables@, u, q);
                lemma_low_pages_distinct(u, q);
            }
            assert forall|k: int|
                0 <= k && boot_info.framebuffer_base + k * PAGE_SIZE < boot_info.framebuffer_base
                    + boot_info.framebuffer_size implies maps_identity(
                tables@,
                #[trigger] ((boot_info.framebuffer_base + k * PAGE_SIZE) as u64),
            ) by {
                assert(k < count);
            }
        }
    }
    Ok(tables)
}

} // verus!
