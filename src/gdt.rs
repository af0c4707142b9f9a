//! Global Descriptor Table and Task State Segment contents.
use vstd::prelude::*;

verus! {

pub const KERNEL_CODE_SEL: u16 = 0x08;
pub const KERNEL_DATA_SEL: u16 = 0x10;
pub const USER_DATA_SEL: u16 = 0x1B;
pub const USER_CODE_SEL: u16 = 0x23;
pub const TSS_SEL: u16 = 0x28;

/// IST slot used for the double-fault handler.
pub const DOUBLE_FAULT_IST_INDEX: u8 = 1;

/// Bytes of the TSS.
pub const TSS_SIZE: u16 = 104;

/// Number of 8-byte slots of the GDT (the TSS descriptor takes two).
pub const GDT_ENTRIES: usize = 7;

/// A code or data segment descriptor.
#[derive(Clone, Copy, Debug, PartialEq, Eq, Structural)]
pub struct GdtEntry {
    pub limit_low: u16,
    pub base_low: u16,
    pub base_middle: u8,
    pub access: u8,
    pub granularity: u8,
    pub base_high: u8,
}

/// The eight bytes of a descriptor, least significant first.
pub open spec fn descriptor_word(e: GdtEntry) -> u64 {
    (e.limit_low as u64) | ((e.base_low as u64) << 16u64) | ((e.base_middle as u64) << 32u64)
        | ((e.access as u64) << 40u64) | ((e.granularity as u64) << 48u64) | ((e.base_high as u64)
        << 56u64)
}

impl GdtEntry {
    /// Splits `base` and the low 20 bits of `limit` over the descriptor's
    /// fields; the flags nibble comes from the high nibble of `gran`.
    pub fn new(base: u32, limit: u32, access: u8, gran: u8) -> (r: GdtEntry)
        ensures
            r == GdtEntry::new_spec(base, limit, access, gran),
    {
        proof {
            assert(base & 0xFFFFu32 <= 0xFFFF) by (bit_vector);
            assert((base >> 16u32) & 0xFFu32 <= 0xFF) by (bit_vector);
            assert((base >> 24u32) & 0xFFu32 <= 0xFF) by (bit_vector);
            assert(limit & 0xFFFFu32 <= 0xFFFF) by (bit_vector);
            assert((limit >> 16u32) & 0x0Fu32 <= 0x0F) by (bit_vector);
        }
        let low_flags = ((limit >> 16) & 0x0F) as u8;
        let g = low_flags | (gran & 0xF0);
        proof {
            assert(((((limit >> 16u32) & 0x0Fu32) as u8) | (gran & 0xF0u8)) == ((((limit >> 16u32)
                & 0x0Fu32) | ((gran & 0xF0u8) as u32)) as u8)) by (bit_vector);
        }
        GdtEntry {
            limit_low: (limit & 0xFFFF) as u16,
            base_low: (base & 0xFFFF) as u16,
            base_middle: ((base >> 16) & 0xFF) as u8,
            access,
            granularity: g,
            base_high: ((base >> 24) & 0xFF) as u8,
        }
    }

    /// The descriptor as it sits in memory.
    pub fn to_word(&self) -> (r: u64)
        ensures
            r == descriptor_word(*self),
    {
        (self.limit_low as u64) | ((self.base_low as u64) << 16) | ((self.base_middle as u64) << 32)
            | ((self.access as u64) << 40) | ((self.granularity as u64) << 48) | ((
        self.base_high as u64) << 56)
    }
}

/// The seven GDT slots: null, kernel code, kernel data, user data, user
/// code, and the 16-byte TSS descriptor for the TSS at `tss_base`.
pub fn build_gdt(tss_base: u64) -> (r: Vec<u64>)
    ensures
        r@.len() == GDT_ENTRIES,
        r@[0] == descriptor_word(GdtEntry::new_spec(0, 0, 0, 0)),
        r@[1] == descriptor_word(GdtEntry::new_spec(0, 0xFFFF_FFFF, 0x9A, 0xAF)),
        r@[2] == descriptor_word(GdtEntry::new_spec(0, 0xFFFF_FFFF, 0x92, 0xCF)),
        r@[3] == descriptor_word(GdtEntry::new_spec(0, 0xFFFF_FFFF, 0xF2, 0xCF)),
        r@[4] == descriptor_word(GdtEntry::new_spec(0, 0xFFFF_FFFF, 0xFA, 0xAF)),
        r@[5] == descriptor_word(
            GdtEntry::new_spec(tss_base as u32, (TSS_SIZE - 1) as u32, 0x89, 0x00),
        ),
        r@[6] == tss_base >> 32,
{
    let mut r: Vec<u64> = Vec::new();
    r.push(GdtEntry::new(0, 0, 0, 0).to_word());
    r.push(GdtEntry::new(0, 0xFFFF_FFFF, 0x9A, 0xAF).to_word());
    r.push(GdtEntry::new(0, 0xFFFF_FFFF, 0x92, 0xCF).to_word());
    r.push(GdtEntry::new(0, 0xFFFF_FFFF, 0xF2, 0xCF).to_word());
    r.push(GdtEntry::new(0, 0xFFFF_FFFF, 0xFA, 0xAF).to_word());
    r.push(GdtEntry::new(tss_base as u32, (TSS_SIZE - 1) as u32, 0x89, 0x00).to_word());
    r.push(tss_base >> 32);
    r
}

impl GdtEntry {
    /// The descriptor `new` builds.
    pub open spec fn new_spec(base: u32, limit: u32, access: u8, gran: u8) -> GdtEntry {
        GdtEntry {
            limit_low: (limit & 0xFFFF) as u16,
            base_low: (base & 0xFFFF) as u16,
            base_middle: ((base >> 16) & 0xFF) as u8,
            access,
            granularity: (((limit >> 16) & 0x0F) | (gran & 0xF0) as u32) as u8,
            base_high: ((base >> 24) & 0xFF) as u8,
        }
    }
}

/// The 64-bit Task State Segment.
#[derive(Clone, Copy, Debug)]
pub struct Tss {
    pub rsp0: u64,
    pub rsp1: u64,
    pub rsp2: u64,
    pub ist: [u64; 7],
    pub iomap_base: u16,
}

impl Tss {
    /// An empty TSS: no privilege or IST stacks yet, and the I/O map base
    /// pointing past its end.
    pub fn new() -> (r: Tss)
        ensures
            r.rsp0 == 0 && r.rsp1 == 0 && r.rsp2 == 0,
            forall|i: int| 0 <= i < 7 ==> r.ist@[i] == 0,
            r.iomap_base == TSS_SIZE,
    {
        let mut ist = [0u64; 7];
        let mut i: usize = 0;
        while i < 7
            invariant
                i <= 7,
                forall|j: int| 0 <= j < i ==> ist@[j] == 0,
            decreases 7 - i,
        {
            ist[i] = 0;
            i = i + 1;
        }
        Tss { rsp0: 0, rsp1: 0, rsp2: 0, ist, iomap_base: TSS_SIZE }
    }

    /// Sets the stack the CPU switches to on a Ring 3 to Ring 0 transition.
    pub fn set_tss_stack(&mut self, stack: u64)
        ensures
            *final(self) == (Tss { rsp0: stack, ..*old(self) }),
    {
        self.rsp0 = stack;
    }
}

} // verus!
