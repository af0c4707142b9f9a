//! Physical frame allocator: a monotone bump over the conventional memory
//! that the firmware memory map reports, in map order. Frames are never
//! freed.
use vstd::prelude::*;
use crate::uefi::{BootInfo, EFI_CONVENTIONAL_MEMORY, EFI_MEMORY_DESCRIPTOR};

verus! {

pub const PAGE_SIZE: u64 = 4096;

pub open spec fn is_conventional(d: EFI_MEMORY_DESCRIPTOR) -> bool {
    d.Type == EFI_CONVENTIONAL_MEMORY
}

/// Every region ends within the 64-bit address space.
pub open spec fn descriptors_fit(s: Seq<EFI_MEMORY_DESCRIPTOR>) -> bool {
    forall|i: int|
        0 <= i < s.len() ==> (#[trigger] s[i]).PhysicalStart + s[i].NumberOfPages * PAGE_SIZE
            <= u64::MAX
}

/// Pages of descriptor `idx` left from page `off` (0 out of range).
pub open spec fn pages_left(s: Seq<EFI_MEMORY_DESCRIPTOR>, idx: int, off: int) -> int {
    if 0 <= idx < s.len() && off < s[idx].NumberOfPages {
        s[idx].NumberOfPages - off
    } else {
        0
    }
}

/// One allocation from cursor `(idx, off)`: the frame handed out (if any) and
/// the cursor after it. The page at physical address 0 is never handed out;
/// the cursor steps over it.
pub open spec fn frame_step(s: Seq<EFI_MEMORY_DESCRIPTOR>, idx: int, off: int) -> (
    Option<u64>,
    int,
    int,
)
    decreases s.len() - idx, pages_left(s, idx, off),
{
    if idx < 0 || idx >= s.len() {
        (None, idx, off)
    } else if is_conventional(s[idx]) && off < s[idx].NumberOfPages {
        let f = s[idx].PhysicalStart + off * PAGE_SIZE;
        if f > 0 {
            (Some(f as u64), idx, off + 1)
        } else {
            frame_step(s, idx, off + 1)
        }
    } else {
        frame_step(s, idx + 1, 0)
    }
}

/// `f` lies in a page of conventional descriptor `j`.
pub open spec fn in_descriptor(s: Seq<EFI_MEMORY_DESCRIPTOR>, j: int, f: int) -> bool {
    &&& 0 <= j < s.len()
    &&& is_conventional(s[j])
    &&& s[j].PhysicalStart <= f < s[j].PhysicalStart + s[j].NumberOfPages * PAGE_SIZE
}

/// Conventional regions come in ascending address order and do not overlap.
pub open spec fn conventional_ascending(s: Seq<EFI_MEMORY_DESCRIPTOR>) -> bool {
    forall|i: int, j: int|
        0 <= i < j < s.len() && is_conventional(#[trigger] s[i]) && is_conventional(
            #[trigger] s[j],
        ) ==> s[i].PhysicalStart + s[i].NumberOfPages * PAGE_SIZE <= s[j].PhysicalStart
}

/// No conventional region starts at physical address 0.
pub open spec fn no_region_at_zero(s: Seq<EFI_MEMORY_DESCRIPTOR>) -> bool {
    forall|i: int| 0 <= i < s.len() && is_conventional(#[trigger] s[i]) ==> s[i].PhysicalStart > 0
}

/// Every conventional region starts on a page boundary.
pub open spec fn conventional_aligned(s: Seq<EFI_MEMORY_DESCRIPTOR>) -> bool {
    forall|i: int|
        0 <= i < s.len() && is_conventional(#[trigger] s[i]) ==> s[i].PhysicalStart & 0xFFFu64 == 0
}

/// Conventional pages left from cursor `(idx, off)` on.
pub open spec fn remaining(s: Seq<EFI_MEMORY_DESCRIPTOR>, idx: int, off: int) -> int
    decreases s.len() - idx,
{
    if idx < 0 || idx >= s.len() {
        0
    } else {
        (if is_conventional(s[idx]) && off < s[idx].NumberOfPages {
            s[idx].NumberOfPages - off
        } else {
            0
        }) + remaining(s, idx + 1, 0)
    }
}

/// Total conventional pages of the map.
pub open spec fn total_conventional_pages(s: Seq<EFI_MEMORY_DESCRIPTOR>) -> int {
    remaining(s, 0, 0)
}

/// `k` allocations from `(idx, off)`: whether each handed out a frame, and
/// the cursor after them.
pub open spec fn take_frames(s: Seq<EFI_MEMORY_DESCRIPTOR>, idx: int, off: int, k: nat) -> (
    bool,
    int,
    int,
)
    decreases k,
{
    if k == 0 {
        (true, idx, off)
    } else {
        let (f, i1, o1) = frame_step(s, idx, off);
        let (ok, i2, o2) = take_frames(s, i1, o1, (k - 1) as nat);
        (f is Some && ok, i2, o2)
    }
}

/// Abstract state of the frame allocator.
pub struct FrameView {
    pub descriptors: Seq<EFI_MEMORY_DESCRIPTOR>,
    pub index: int,
    pub offset: int,
}

pub struct FrameAllocator {
    descriptors: Vec<EFI_MEMORY_DESCRIPTOR>,
    pub descriptor_size: usize,
    pub descriptor_version: u32,
    current_descriptor_index: usize,
    current_page_offset: u64,
}

impl View for FrameAllocator {
    type V = FrameView;

    closed spec fn view(&self) -> FrameView {
        FrameView {
            descriptors: self.descriptors@,
            index: self.current_descriptor_index as int,
            offset: self.current_page_offset as int,
        }
    }
}

pub(crate) proof fn lemma_step_shape(s: Seq<EFI_MEMORY_DESCRIPTOR>, idx: int, off: int)
    requires
        descriptors_fit(s),
        0 <= idx,
        0 <= off,
    ensures
        ({
            let (f, j, o) = frame_step(s, idx, off);
            &&& f is Some ==> {
                &&& idx <= j < s.len()
                &&& is_conventional(s[j])
                &&& 1 <= o <= s[j].NumberOfPages
                &&& f->0 == s[j].PhysicalStart + (o - 1) * PAGE_SIZE
                &&& j == idx ==> o >= off + 1
            }
            &&& f is None ==> j >= s.len() && (o == 0 || (j == idx && o == off))
        }),
    decreases s.len() - idx, pages_left(s, idx, off),
{
    if idx < s.len() {
        if is_conventional(s[idx]) && off < s[idx].NumberOfPages {
            assert(s[idx].PhysicalStart + s[idx].NumberOfPages * PAGE_SIZE <= u64::MAX);
            if s[idx].PhysicalStart + off * PAGE_SIZE <= 0 {
                lemma_step_shape(s, idx, off + 1);
            }
        } else {
            lemma_step_shape(s, idx + 1, 0);
        }
    }
}

/// Once an allocation finds nothing, so does every later one.
pub proof fn lemma_step_exhausted(s: Seq<EFI_MEMORY_DESCRIPTOR>, idx: int, off: int)
    requires
        descriptors_fit(s),
        0 <= idx,
        0 <= off,
        frame_step(s, idx, off).0 is None,
    ensures
        frame_step(s, frame_step(s, idx, off).1, frame_step(s, idx, off).2).0 is None,
{
    lemma_step_shape(s, idx, off);
}

/// A handed-out frame lies in the conventional descriptor under the cursor.
proof fn lemma_step_in_descriptor(s: Seq<EFI_MEMORY_DESCRIPTOR>, idx: int, off: int)
    requires
        descriptors_fit(s),
        0 <= idx,
        0 <= off,
    ensures
        ({
            let (f, j, o) = frame_step(s, idx, off);
            f is Some ==> in_descriptor(s, j, f->0 as int)
        }),
{
    lemma_step_shape(s, idx, off);
}

/// Frames come out in strictly increasing address order when the
/// conventional regions are listed in ascending order: of two successive
/// allocations that both succeed, the second frame is above the first.
pub proof fn lemma_frames_increase(s: Seq<EFI_MEMORY_DESCRIPTOR>, idx: int, off: int)
    requires
        descriptors_fit(s),
        conventional_ascending(s),
        0 <= idx,
        0 <= off,
    ensures
        ({
            let (f1, i1, o1) = frame_step(s, idx, off);
            let (f2, i2, o2) = frame_step(s, i1, o1);
            f1 is Some && f2 is Some ==> f1->0 < f2->0
        }),
{
    let (f1, i1, o1) = frame_step(s, idx, off);
    lemma_step_shape(s, idx, off);
    if f1 is Some {
        lemma_step_shape(s, i1, o1);
        let (f2, i2, o2) = frame_step(s, i1, o1);
        if f2 is Some && i2 > i1 {
            assert(s[i1].PhysicalStart + s[i1].NumberOfPages * PAGE_SIZE <= s[i2].PhysicalStart);
        }
    }
}

pub(crate) proof fn lemma_step_remaining(s: Seq<EFI_MEMORY_DESCRIPTOR>, idx: int, off: int)
    requires
        no_region_at_zero(s),
        0 <= idx,
        0 <= off,
    ensures
        ({
            let (f, j, o) = frame_step(s, idx, off);
            &&& (f is Some <==> remaining(s, idx, off) > 0)
            &&& f is Some ==> remaining(s, j, o) == remaining(s, idx, off) - 1 && 0 <= j && 0
                <= o
            &&& f is None ==> remaining(s, j, o) == 0
        }),
    decreases s.len() - idx, pages_left(s, idx, off),
{
    if idx < s.len() {
        if is_conventional(s[idx]) && off < s[idx].NumberOfPages {
            assert(s[idx].PhysicalStart > 0);
            lemma_remaining_nonneg(s, idx + 1, 0);
        } else {
            lemma_step_remaining(s, idx + 1, 0);
        }
    }
}

pub(crate) proof fn lemma_remaining_nonneg(s: Seq<EFI_MEMORY_DESCRIPTOR>, idx: int, off: int)
    ensures
        remaining(s, idx, off) >= 0,
    decreases s.len() - idx,
{
    if 0 <= idx < s.len() {
        lemma_remaining_nonneg(s, idx + 1, 0);
    }
}

proof fn lemma_take_remaining(s: Seq<EFI_MEMORY_DESCRIPTOR>, idx: int, off: int, k: nat)
    requires
        no_region_at_zero(s),
        0 <= idx,
        0 <= off,
        k == remaining(s, idx, off),
    ensures
        take_frames(s, idx, off, k).0,
        frame_step(s, take_frames(s, idx, off, k).1, take_frames(s, idx, off, k).2).0 is None,
    decreases k,
{
    lemma_step_remaining(s, idx, off);
    if k > 0 {
        let (f, i1, o1) = frame_step(s, idx, off);
        lemma_take_remaining(s, i1, o1, (k - 1) as nat);
    } else {
        let (f, i1, o1) = frame_step(s, idx, off);
        assert(f is None);
    }
}

/// With no conventional region at address 0, allocating as many frames as
/// there are conventional pages succeeds every time, and the next allocation
/// finds nothing.
pub proof fn lemma_allocates_every_page(s: Seq<EFI_MEMORY_DESCRIPTOR>)
    requires
        no_region_at_zero(s),
    ensures
        total_conventional_pages(s) >= 0,
        take_frames(s, 0, 0, total_conventional_pages(s) as nat).0,
        frame_step(
            s,
            take_frames(s, 0, 0, total_conventional_pages(s) as nat).1,
            take_frames(s, 0, 0, total_conventional_pages(s) as nat).2,
        ).0 is None,
{
    lemma_remaining_nonneg(s, 0, 0);
    lemma_take_remaining(s, 0, 0, total_conventional_pages(s) as nat);
}

impl FrameAllocator {
    pub open spec fn wf(&self) -> bool {
        &&& descriptors_fit(self@.descriptors)
        &&& 0 <= self@.index <= self@.descriptors.len()
        &&& 0 <= self@.offset
        &&& self@.index < self@.descriptors.len() ==> self@.offset <= self@.descriptors[self@.index].NumberOfPages
    }

    /// An allocator over the decoded memory map, with its cursor at the
    /// first page of the first descriptor.
    pub fn new(boot_info: &BootInfo, descriptors: Vec<EFI_MEMORY_DESCRIPTOR>) -> (r: Self)
        requires
            descriptors_fit(descriptors@),
        ensures
            r.wf(),
            r@.descriptors == descriptors@,
            r@.index == 0 && r@.offset == 0,
    {
        FrameAllocator {
            descriptors,
            descriptor_size: boot_info.descriptor_size,
            descriptor_version: boot_info.descriptor_version,
            current_descriptor_index: 0,
            current_page_offset: 0,
        }
    }

    /// The descriptors the allocator walks.
    pub fn descriptors(&self) -> (r: &Vec<EFI_MEMORY_DESCRIPTOR>)
        ensures
            r@ == self@.descriptors,
    {
        &self.descriptors
    }

    /// Next 4 KiB frame: `PhysicalStart + offset * PAGE_SIZE` of the
    /// conventional descriptor under the cursor, moving on through the map
    /// as descriptors run out. `None` when the map is exhausted.
    pub fn allocate_frame(&mut self) -> (r: Option<u64>)
        requires
            old(self).wf(),
        ensures
            final(self).wf(),
            final(self)@.descriptors == old(self)@.descriptors,
            (r, final(self)@.index, final(self)@.offset) == frame_step(
                old(self)@.descriptors,
                old(self)@.index,
                old(self)@.offset,
            ),
            r matches Some(f) ==> in_descriptor(final(self)@.descriptors, final(self)@.index, f as int),
    {
        proof {
            lemma_step_in_descriptor(self@.descriptors, self@.index, self@.offset);
        }
        let n = self.descriptors.len();
        while self.current_descriptor_index < n
            invariant
                n == self.descriptors.len(),
                self.wf(),
                self@.descriptors == old(self)@.descriptors,
                frame_step(self@.descriptors, self@.index, self@.offset) == frame_step(
                    old(self)@.descriptors,
                    old(self)@.index,
                    old(self)@.offset,
                ),
            decreases n - self.current_descriptor_index, pages_left(
                self@.descriptors,
                self@.index,
                self@.offset,
            ),
        {
            let d = self.descriptors[self.current_descriptor_index];
            if d.Type == EFI_CONVENTIONAL_MEMORY && self.current_page_offset < d.NumberOfPages {
                assert(d.PhysicalStart + d.NumberOfPages * PAGE_SIZE <= u64::MAX);
                let frame_address = d.PhysicalStart + self.current_page_offset * PAGE_SIZE;
                self.current_page_offset = self.current_page_offset + 1;
                if frame_address > 0 {
                    return Some(frame_address);
                }
            } else {
                self.current_descriptor_index = self.current_descriptor_index + 1;
                self.current_page_offset = 0;
            }
        }
        None
    }
}

} // verus!
