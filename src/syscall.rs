//! System-call gateway: MSR values programmed at boot, the per-task
//! `KernelGsBase` record, and decoding of a call by id.
use vstd::prelude::*;
use crate::gdt::KERNEL_CODE_SEL;

verus! {

pub const MSR_EFER: u32 = 0xC000_0080;
pub const MSR_STAR: u32 = 0xC000_0081;
pub const MSR_LSTAR: u32 = 0xC000_0082;
pub const MSR_SFMASK: u32 = 0xC000_0084;
pub const MSR_GS_BASE: u32 = 0xC000_0101;
pub const MSR_KERNEL_GS_BASE: u32 = 0xC000_0102;

/// `EFER.SCE`: system-call extensions.
pub const EFER_SCE: u64 = 1;

/// `RFLAGS` bits cleared on `SYSCALL` entry: `IF`.
pub const SFMASK_VALUE: u64 = 0x200;

/// Selector base from which `SYSRET` derives the user segments.
pub const USER_SEGMENT_BASE: u64 = 0x10;

/// What an unknown call returns.
pub const UNKNOWN_SYSCALL: usize = usize::MAX;

/// The record `GS` points at in the syscall stub: `GS:[0]` is the kernel
/// stack to switch to, `GS:[8]` where the user stack pointer is kept.
#[derive(Clone, Copy, Debug, PartialEq, Eq, Structural)]
pub struct KernelGsBase {
    pub kernel_stack: u64,
    pub user_stack: u64,
    pub scratch: u64,
}

impl KernelGsBase {
    pub fn new(kernel_stack: u64, user_stack: u64) -> (r: Self)
        ensures
            r == (KernelGsBase { kernel_stack, user_stack, scratch: 0 }),
    {
        KernelGsBase { kernel_stack, user_stack, scratch: 0 }
    }
}

/// `STAR`: user segment base in bits 48..63, kernel code selector in bits
/// 32..47.
pub fn star_value() -> (r: u64)
    ensures
        r == (USER_SEGMENT_BASE << 48u64) | ((KERNEL_CODE_SEL as u64) << 32u64),
{
    (USER_SEGMENT_BASE << 48) | ((KERNEL_CODE_SEL as u64) << 32)
}

/// A decoded system call.
#[derive(Clone, Copy, Debug, PartialEq, Eq, Structural)]
pub enum Syscall {
    Print { ptr: usize, len: usize },
    Alloc { size: usize, align: usize },
    Free { ptr: usize },
    AddTask { entry: usize, user_stack: usize },
    Yield,
    Exit,
    NvmeRead { nsid: usize, lba: usize, ptr: usize, count: usize },
    NvmeWrite { nsid: usize, lba: usize, ptr: usize, count: usize },
    XhciPoll,
    Shutdown,
    ReadKey,
    ClearScreen,
    Realloc { ptr: usize, size: usize, align: usize },
    Unknown { id: usize },
}

/// The call for id `id` with arguments `a1..a4` (ids fixed by the ABI).
pub open spec fn syscall_of(id: usize, a1: usize, a2: usize, a3: usize, a4: usize) -> Syscall {
    if id == 1 {
        Syscall::Print { ptr: a1, len: a2 }
    } else if id == 2 {
        Syscall::Alloc { size: a1, align: a2 }
    } else if id == 3 {
        Syscall::Free { ptr: a1 }
    } else if id == 4 {
        Syscall::AddTask { entry: a1, user_stack: a2 }
    } else if id == 5 {
        Syscall::Yield
    } else if id == 6 {
        Syscall::Exit
    } else if id == 7 {
        Syscall::NvmeRead { nsid: a1, lba: a2, ptr: a3, count: a4 }
    } else if id == 8 {
        Syscall::NvmeWrite { nsid: a1, lba: a2, ptr: a3, count: a4 }
    } else if id == 9 {
        Syscall::XhciPoll
    } else if id == 10 {
        Syscall::Shutdown
    } else if id == 11 {
        Syscall::ReadKey
    } else if id == 12 {
        Syscall::ClearScreen
    } else if id == 13 {
        Syscall::Realloc { ptr: a1, size: a2, align: a3 }
    } else {
        Syscall::Unknown { id }
    }
}

/// Decodes the call in `RAX` with its arguments from `RDI, RSI, RDX, R10`
/// (`R8`, `R9` are unused by every call).
pub fn decode_syscall(id: usize, arg1: usize, arg2: usize, arg3: usize, arg4: usize) -> (r: Syscall)
    ensures
        r == syscall_of(id, arg1, arg2, arg3, arg4),
{
    match id {
        1 => Syscall::Print { ptr: arg1, len: arg2 },
        2 => Syscall::Alloc { size: arg1, align: arg2 },
        3 => Syscall::Free { ptr: arg1 },
        4 => Syscall::AddTask { entry: arg1, user_stack: arg2 },
        5 => Syscall::Yield,
        6 => Syscall::Exit,
        7 => Syscall::NvmeRead { nsid: arg1, lba: arg2, ptr: arg3, count: arg4 },
        8 => Syscall::NvmeWrite { nsid: arg1, lba: arg2, ptr: arg3, count: arg4 },
        9 => Syscall::XhciPoll,
        10 => Syscall::Shutdown,
        11 => Syscall::ReadKey,
        12 => Syscall::ClearScreen,
        13 => Syscall::Realloc { ptr: arg1, size: arg2, align: arg3 },
        _ => Syscall::Unknown { id },
    }
}

/// What the calls that return a constant put in `RAX`: 0 for those that
/// report nothing, `!0` for an unknown id. `None` for calls whose result
/// comes from their work (alloc, realloc, NVMe transfers, read_key).
pub fn fixed_result(call: &Syscall) -> (r: Option<usize>)
    ensures
        r == match *call {
            Syscall::Alloc { .. } | Syscall::Realloc { .. } | Syscall::NvmeRead { .. }
            | Syscall::NvmeWrite { .. } | Syscall::ReadKey => None,
            Syscall::Unknown { .. } => Some(UNKNOWN_SYSCALL),
            _ => Some(0usize),
        },
{
    match call {
        Syscall::Alloc { .. } | Syscall::Realloc { .. } | Syscall::NvmeRead { .. }
        | Syscall::NvmeWrite { .. } | Syscall::ReadKey => None,
        Syscall::Unknown { .. } => Some(UNKNOWN_SYSCALL),
        _ => Some(0),
    }
}

/// Result of `read_key`: the key, or 0 when none is waiting.
pub fn read_key_result(key: Option<u8>) -> (r: usize)
    ensures
        r == match key {
            Some(k) => k as usize,
            None => 0usize,
        },
{
    match key {
        Some(k) => k as usize,
        None => 0,
    }
}

} // verus!
