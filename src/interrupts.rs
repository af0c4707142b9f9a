//! Interrupt Descriptor Table contents, the interrupt frame, and the 8259A
//! PIC programming.
use vstd::prelude::*;
use crate::gdt::{DOUBLE_FAULT_IST_INDEX, KERNEL_CODE_SEL};

verus! {

/// Present, ring 0, 64-bit interrupt gate.
pub const INTERRUPT_GATE: u8 = 0x8E;

pub const EXCEPTION_VECTORS: usize = 32;
pub const IRQ_BASE: u8 = 0x20;
pub const IDT_ENTRIES: usize = 256;
pub const DOUBLE_FAULT_VECTOR: usize = 8;
pub const PAGE_FAULT_VECTOR: u64 = 14;

pub const PIC1_COMMAND: u16 = 0x20;
pub const PIC1_DATA: u16 = 0x21;
pub const PIC2_COMMAND: u16 = 0xA0;
pub const PIC2_DATA: u16 = 0xA1;
pub const PIC_EOI: u8 = 0x20;
/// Port written to for a short delay after each PIC write.
pub const IO_WAIT_PORT: u16 = 0x80;

#[derive(Clone, Copy, Debug, PartialEq, Eq, Structural)]
pub struct IdtEntry {
    pub offset_low: u16,
    pub selector: u16,
    pub ist: u8,
    pub type_attr: u8,
    pub offset_mid: u16,
    pub offset_high: u32,
    pub zero: u32,
}

#[derive(Clone, Copy, Debug, PartialEq, Eq, Structural)]
pub struct IdtPointer {
    pub limit: u16,
    pub base: u64,
}

/// Registers as the common stub leaves them on the stack, lowest address
/// first.
#[derive(Clone, Copy, Debug, PartialEq, Eq, Structural)]
pub struct InterruptFrame {
    pub r15: u64,
    pub r14: u64,
    pub r13: u64,
    pub r12: u64,
    pub r11: u64,
    pub r10: u64,
    pub r9: u64,
    pub r8: u64,
    pub rsi: u64,
    pub rdi: u64,
    pub rbp: u64,
    pub rdx: u64,
    pub rcx: u64,
    pub rbx: u64,
    pub rax: u64,
    pub int_no: u64,
    pub err_code: u64,
    pub rip: u64,
    pub cs: u64,
    pub rflags: u64,
    pub rsp: u64,
    pub ss: u64,
}

/// The handler address a gate points at.
pub open spec fn gate_address(e: IdtEntry) -> u64 {
    (e.offset_low as u64) | ((e.offset_mid as u64) << 16u64) | ((e.offset_high as u64) << 32u64)
}

impl IdtEntry {
    pub fn missing() -> (r: IdtEntry)
        ensures
            r == (IdtEntry {
                offset_low: 0,
                selector: 0,
                ist: 0,
                type_attr: 0,
                offset_mid: 0,
                offset_high: 0,
                zero: 0,
            }),
    {
        IdtEntry { offset_low: 0, selector: 0, ist: 0, type_attr: 0, offset_mid: 0, offset_high: 0, zero: 0 }
    }

    /// A gate to `handler` through code segment `selector`, with no IST.
    pub fn set_gate(handler: u64, selector: u16, type_attr: u8) -> (r: IdtEntry)
        ensures
            gate_address(r) == handler,
            r.selector == selector,
            r.type_attr == type_attr,
            r.ist == 0,
            r.zero == 0,
    {
        let r = IdtEntry {
            offset_low: (handler & 0xFFFF) as u16,
            selector,
            ist: 0,
            type_attr,
            offset_mid: ((handler >> 16) & 0xFFFF) as u16,
            offset_high: ((handler >> 32) & 0xFFFF_FFFF) as u32,
            zero: 0,
        };
        proof {
            assert(((handler & 0xFFFFu64) as u16 as u64) | ((((handler >> 16u64) & 0xFFFFu64) as u16 as u64) << 16u64)
                | ((((handler >> 32u64) & 0xFFFF_FFFFu64) as u32 as u64) << 32u64) == handler) by (bit_vector);
        }
        r
    }
}

/// The IDT: the 32 exception gates, with the double fault on its IST stack,
/// and one gate per IRQ handler from vector 32 on; every other vector
/// absent.
pub fn build_idt(exceptions: &Vec<u64>, irqs: &Vec<u64>) -> (r: Vec<IdtEntry>)
    requires
        exceptions@.len() == EXCEPTION_VECTORS,
        irqs@.len() <= IDT_ENTRIES - EXCEPTION_VECTORS,
    ensures
        r@.len() == IDT_ENTRIES,
        forall|v: int|
            0 <= v < EXCEPTION_VECTORS ==> gate_address(#[trigger] r@[v]) == exceptions@[v]
                && r@[v].selector == KERNEL_CODE_SEL && r@[v].type_attr == INTERRUPT_GATE
                && r@[v].ist == (if v == DOUBLE_FAULT_VECTOR {
                DOUBLE_FAULT_IST_INDEX
            } else {
                0
            }),
        forall|i: int|
            0 <= i < irqs@.len() ==> gate_address(#[trigger] r@[EXCEPTION_VECTORS + i]) == irqs@[i]
                && r@[EXCEPTION_VECTORS + i].selector == KERNEL_CODE_SEL
                && r@[EXCEPTION_VECTORS + i].type_attr == INTERRUPT_GATE && r@[EXCEPTION_VECTORS
                + i].ist == 0,
        forall|v: int|
            EXCEPTION_VECTORS + irqs@.len() <= v < IDT_ENTRIES ==> #[trigger] r@[v]
                == IdtEntry::missing_spec(),
{
    let mut r: Vec<IdtEntry> = Vec::new();
    let mut v: usize = 0;
    while v < IDT_ENTRIES
        invariant
            v <= IDT_ENTRIES,
            exceptions@.len() == EXCEPTION_VECTORS,
            irqs@.len() <= IDT_ENTRIES - EXCEPTION_VECTORS,
            r@.len() == v,
            forall|w: int|
                0 <= w < v && w < EXCEPTION_VECTORS ==> gate_address(#[trigger] r@[w]) == exceptions@[w]
                    && r@[w].selector == KERNEL_CODE_SEL && r@[w].type_attr == INTERRUPT_GATE
                    && r@[w].ist == (if w == DOUBLE_FAULT_VECTOR {
                    DOUBLE_FAULT_IST_INDEX
                } else {
                    0
                }),
            forall|i: int|
                0 <= i < irqs@.len() && EXCEPTION_VECTORS + i < v ==> gate_address(
                    #[trigger] r@[EXCEPTION_VECTORS + i],
                ) == irqs@[i] && r@[EXCEPTION_VECTORS + i].selector == KERNEL_CODE_SEL
                    && r@[EXCEPTION_VECTORS + i].type_attr == INTERRUPT_GATE && r@[EXCEPTION_VECTORS
                    + i].ist == 0,
            forall|w: int|
                EXCEPTION_VECTORS + irqs@.len() <= w < v ==> #[trigger] r@[w] == IdtEntry::missing_spec(),
        decreases IDT_ENTRIES - v,
    {
        if v < EXCEPTION_VECTORS {
            let mut e = IdtEntry::set_gate(exceptions[v], KERNEL_CODE_SEL, INTERRUPT_GATE);
            if v == DOUBLE_FAULT_VECTOR {
                e.ist = DOUBLE_FAULT_IST_INDEX;
            }
            r.push(e);
        } else if v - EXCEPTION_VECTORS < irqs.len() {
            r.push(IdtEntry::set_gate(irqs[v - EXCEPTION_VECTORS], KERNEL_CODE_SEL, INTERRUPT_GATE));
        } else {
            r.push(IdtEntry::missing());
        }
        v = v + 1;
    }
    r
}

impl IdtEntry {
    pub open spec fn missing_spec() -> IdtEntry {
        IdtEntry { offset_low: 0, selector: 0, ist: 0, type_attr: 0, offset_mid: 0, offset_high: 0, zero: 0 }
    }
}

/// `lidt` operand for a table of `IDT_ENTRIES` gates at `base`.
pub fn idt_pointer(base: u64) -> (r: IdtPointer)
    ensures
        r == (IdtPointer { limit: 4095, base }),
{
    IdtPointer { limit: (IDT_ENTRIES * 16 - 1) as u16, base }
}

/// What an IRQ handler does for IRQ line `irq`.
#[derive(Clone, Copy, Debug, PartialEq, Eq, Structural)]
pub enum IrqKind {
    Timer,
    Keyboard,
    Other,
}

/// Dispatch by `vector - 32`: line 0 is the timer, line 1 the PS/2
/// keyboard.
pub fn classify_irq(vector: u64) -> (r: (u64, IrqKind))
    requires
        vector >= 32,
    ensures
        r.0 == vector - 32,
        r.1 == if vector == 32 {
            IrqKind::Timer
        } else if vector == 33 {
            IrqKind::Keyboard
        } else {
            IrqKind::Other
        },
{
    let irq = vector - 32;
    let kind = if irq == 0 {
        IrqKind::Timer
    } else if irq == 1 {
        IrqKind::Keyboard
    } else {
        IrqKind::Other
    };
    (irq, kind)
}

/// Ports that get `PIC_EOI` at the end of IRQ `irq`: the slave first when
/// the line is on it, then always the master.
pub fn eoi_ports(irq: u8) -> (r: Vec<u16>)
    ensures
        irq >= 8 ==> r@ == seq![PIC2_COMMAND, PIC1_COMMAND],
        irq < 8 ==> r@ == seq![PIC1_COMMAND],
{
    let mut r: Vec<u16> = Vec::new();
    if irq >= 8 {
        r.push(PIC2_COMMAND);
    }
    r.push(PIC1_COMMAND);
    assert(irq >= 8 ==> r@ =~= seq![PIC2_COMMAND, PIC1_COMMAND]);
    assert(irq < 8 ==> r@ =~= seq![PIC1_COMMAND]);
    r
}

/// The remap sequence of `(port, byte)` writes: ICW1 to both, vector
/// offsets 0x20 and 0x28, cascade wiring, 8086 mode, then the final masks
/// (only IRQ1 unmasked on the master, all masked on the slave). Each write
/// but the masks is followed by a delay write to `IO_WAIT_PORT`.
pub fn pic_remap_writes() -> (r: Vec<(u16, u8)>)
    ensures
        r@ == seq![
            (PIC1_COMMAND, 0x11u8),
            (IO_WAIT_PORT, 0u8),
            (PIC2_COMMAND, 0x11u8),
            (IO_WAIT_PORT, 0u8),
            (PIC1_DATA, 0x20u8),
            (IO_WAIT_PORT, 0u8),
            (PIC2_DATA, 0x28u8),
            (IO_WAIT_PORT, 0u8),
            (PIC1_DATA, 4u8),
            (IO_WAIT_PORT, 0u8),
            (PIC2_DATA, 2u8),
            (IO_WAIT_PORT, 0u8),
            (PIC1_DATA, 1u8),
            (IO_WAIT_PORT, 0u8),
            (PIC2_DATA, 1u8),
            (IO_WAIT_PORT, 0u8),
            (PIC1_DATA, 0xFDu8),
            (PIC2_DATA, 0xFFu8),
        ],
{
    let mut r: Vec<(u16, u8)> = Vec::new();
    r.push((PIC1_COMMAND, 0x11));
    r.push((IO_WAIT_PORT, 0));
    r.push((PIC2_COMMAND, 0x11));
    r.push((IO_WAIT_PORT, 0));
    r.push((PIC1_DATA, 0x20));
    r.push((IO_WAIT_PORT, 0));
    r.push((PIC2_DATA, 0x28));
    r.push((IO_WAIT_PORT, 0));
    r.push((PIC1_DATA, 4));
    r.push((IO_WAIT_PORT, 0));
    r.push((PIC2_DATA, 2));
    r.push((IO_WAIT_PORT, 0));
    r.push((PIC1_DATA, 1));
    r.push((IO_WAIT_PORT, 0));
    r.push((PIC2_DATA, 1));
    r.push((IO_WAIT_PORT, 0));
    r.push((PIC1_DATA, 0xFD));
    r.push((PIC2_DATA, 0xFF));
    assert(r@ =~= seq![
        (PIC1_COMMAND, 0x11u8),
        (IO_WAIT_PORT, 0u8),
        (PIC2_COMMAND, 0x11u8),
        (IO_WAIT_PORT, 0u8),
        (PIC1_DATA, 0x20u8),
        (IO_WAIT_PORT, 0u8),
        (PIC2_DATA, 0x28u8),
        (IO_WAIT_PORT, 0u8),
        (PIC1_DATA, 4u8),
        (IO_WAIT_PORT, 0u8),
        (PIC2_DATA, 2u8),
        (IO_WAIT_PORT, 0u8),
        (PIC1_DATA, 1u8),
        (IO_WAIT_PORT, 0u8),
        (PIC2_DATA, 1u8),
        (IO_WAIT_PORT, 0u8),
        (PIC1_DATA, 0xFDu8),
        (PIC2_DATA, 0xFFu8),
    ]);
    r
}

} // verus!
