//! Verified core of a small x86_64 kernel: heap, frame allocator, page
//! tables, scheduler decisions, system-call decoding, xHCI ring machinery,
//! keyboard input and a tiny x86-64 encoder.
pub mod frames;
pub mod gdt;
pub mod heap;
pub mod hid;
pub mod interrupts;
pub mod nvme;
pub mod paging;
pub mod ring;
pub mod scheduler;
pub mod shell;
pub mod syscall;
pub mod tinyasm;
pub mod trb;
pub mod uefi;
pub mod writer;
pub mod xhci;
