//! NVMe: submission and completion queue bookkeeping with the phase tag,
//! command construction, and controller register values.
use vstd::prelude::*;

verus! {

pub const NVME_ADMIN_OP_CREATE_IOSQ: u8 = 0x01;
pub const NVME_ADMIN_OP_CREATE_IOCQ: u8 = 0x05;
pub const NVME_ADMIN_OP_IDENTIFY: u8 = 0x06;
pub const NVME_OP_READ: u8 = 0x02;
pub const NVME_OP_WRITE: u8 = 0x01;

/// Entries of each queue the driver creates.
pub const QUEUE_ENTRIES: u16 = 64;

/// Offset of the doorbell registers from the controller base.
pub const DOORBELL_BASE: u64 = 0x1000;

/// Snapshot of the controller registers the driver reads or programs.
#[derive(Clone, Copy, Debug, PartialEq, Eq, Structural)]
pub struct NvmeRegisters {
    pub cap: u64,
    pub vs: u32,
    pub cc: u32,
    pub csts: u32,
    pub aqa: u32,
    pub asq: u64,
    pub acq: u64,
}

/// A 64-byte submission queue entry.
#[derive(Clone, Copy, Debug, PartialEq, Eq, Structural)]
pub struct NvmeSQEntry {
    pub opcode: u8,
    pub flags: u8,
    pub command_id: u16,
    pub nsid: u32,
    pub reserved1: u64,
    pub metadata_ptr: u64,
    pub prp1: u64,
    pub prp2: u64,
    pub cdw10: u32,
    pub cdw11: u32,
    pub cdw12: u32,
    pub cdw13: u32,
    pub cdw14: u32,
    pub cdw15: u32,
}

/// A 16-byte completion queue entry; bit 0 of `status` is the phase tag.
#[derive(Clone, Copy, Debug, PartialEq, Eq, Structural)]
pub struct NvmeCQEntry {
    pub cdw0: u32,
    pub reserved: u32,
    pub sq_head: u16,
    pub sq_id: u16,
    pub command_id: u16,
    pub status: u16,
}

impl NvmeSQEntry {
    pub open spec fn blank() -> NvmeSQEntry {
        NvmeSQEntry {
            opcode: 0,
            flags: 0,
            command_id: 0,
            nsid: 0,
            reserved1: 0,
            metadata_ptr: 0,
            prp1: 0,
            prp2: 0,
            cdw10: 0,
            cdw11: 0,
            cdw12: 0,
            cdw13: 0,
            cdw14: 0,
            cdw15: 0,
        }
    }

    /// A command with `opcode`, id `cid` and PRP1 `prp1`, other fields 0.
    pub fn new(opcode: u8, cid: u16, prp1: u64) -> (r: NvmeSQEntry)
        ensures
            r == (NvmeSQEntry { opcode, command_id: cid, prp1, ..NvmeSQEntry::blank() }),
    {
        NvmeSQEntry {
            opcode,
            flags: 0,
            command_id: cid,
            nsid: 0,
            reserved1: 0,
            metadata_ptr: 0,
            prp1,
            prp2: 0,
            cdw10: 0,
            cdw11: 0,
            cdw12: 0,
            cdw13: 0,
            cdw14: 0,
            cdw15: 0,
        }
    }
}

/// A read or write of `count` blocks at `lba` of namespace `nsid` into or
/// from the buffer at `buffer`.
pub fn io_command(opcode: u8, cid: u16, nsid: u32, lba: u64, buffer: u64, count: u32) -> (r: NvmeSQEntry)
    requires
        count >= 1,
    ensures
        r == (NvmeSQEntry {
            opcode,
            command_id: cid,
            nsid,
            prp1: buffer,
            cdw10: lba as u32,
            cdw11: (lba >> 32u64) as u32,
            cdw12: (count - 1) as u32 & 0xFFFF,
            ..NvmeSQEntry::blank()
        }),
{
    let mut c = NvmeSQEntry::new(opcode, cid, buffer);
    c.nsid = nsid;
    c.cdw10 = lba as u32;
    c.cdw11 = (lba >> 32) as u32;
    c.cdw12 = (count - 1) & 0xFFFF;
    c
}

/// Identify Controller (CNS 1) into the 4 KiB buffer at `buffer`.
pub fn identify_controller_command(cid: u16, buffer: u64) -> (r: NvmeSQEntry)
    ensures
        r == (NvmeSQEntry { opcode: NVME_ADMIN_OP_IDENTIFY, command_id: cid, prp1: buffer, cdw10: 1, ..NvmeSQEntry::blank() }),
{
    let mut c = NvmeSQEntry::new(NVME_ADMIN_OP_IDENTIFY, cid, buffer);
    c.cdw10 = 1;
    c
}

/// Create I/O Completion Queue `qid` of `QUEUE_ENTRIES` entries at
/// `buffer`, physically contiguous.
pub fn create_io_cq_command(cid: u16, qid: u16, buffer: u64) -> (r: NvmeSQEntry)
    ensures
        r == (NvmeSQEntry {
            opcode: NVME_ADMIN_OP_CREATE_IOCQ,
            command_id: cid,
            prp1: buffer,
            cdw10: (63u32 << 16u32) | qid as u32,
            cdw11: 1,
            ..NvmeSQEntry::blank()
        }),
{
    let mut c = NvmeSQEntry::new(NVME_ADMIN_OP_CREATE_IOCQ, cid, buffer);
    c.cdw10 = ((QUEUE_ENTRIES - 1) as u32) << 16 | qid as u32;
    c.cdw11 = 1;
    c
}

/// Create I/O Submission Queue `qid` of `QUEUE_ENTRIES` entries at
/// `buffer`, bound to completion queue `qid`, physically contiguous.
pub fn create_io_sq_command(cid: u16, qid: u16, buffer: u64) -> (r: NvmeSQEntry)
    ensures
        r == (NvmeSQEntry {
            opcode: NVME_ADMIN_OP_CREATE_IOSQ,
            command_id: cid,
            prp1: buffer,
            cdw10: (63u32 << 16u32) | qid as u32,
            cdw11: ((qid as u32) << 16u32) | 1,
            ..NvmeSQEntry::blank()
        }),
{
    let mut c = NvmeSQEntry::new(NVME_ADMIN_OP_CREATE_IOSQ, cid, buffer);
    c.cdw10 = ((QUEUE_ENTRIES - 1) as u32) << 16 | qid as u32;
    c.cdw11 = ((qid as u32) << 16) | 1;
    c
}

/// `AQA` for admin queues of `q_size` entries each.
pub fn aqa_value(q_size: u32) -> (r: u32)
    requires
        1 <= q_size <= 4096,
    ensures
        r == (((q_size - 1) as u32) << 16u32) | (q_size - 1) as u32,
{
    ((q_size - 1) << 16) | (q_size - 1)
}

/// `CC` that enables the controller with 16-byte completion and 64-byte
/// submission entries.
pub fn enable_cc_value() -> (r: u32)
    ensures
        r == (4u32 << 20u32) | (6u32 << 16u32) | 1,
{
    (4 << 20) | (6 << 16) | 1
}

/// Physical address of the controller registers: BAR0 with its low flag
/// bits cleared, BAR1 as the high half when non-zero.
pub fn controller_base(bar0: u32, bar1: u32) -> (r: u64)
    ensures
        r == if bar1 != 0 {
            ((bar0 & 0xFFFF_FFF0) as u64) | ((bar1 as u64) << 32u64)
        } else {
            (bar0 & 0xFFFF_FFF0) as u64
        },
{
    let low = (bar0 & 0xFFFF_FFF0) as u64;
    if bar1 != 0 {
        low | ((bar1 as u64) << 32)
    } else {
        low
    }
}

/// What the completion poller does with the entry at the queue head.
#[derive(Clone, Copy, Debug, PartialEq, Eq, Structural)]
pub enum CompletionStep {
    /// The entry's phase tag is stale: keep waiting.
    Wait,
    /// The entry was consumed: write `head` to the head doorbell; `done`
    /// when it completed the awaited command.
    Consumed { head: u16, done: bool },
}

/// A submission/completion queue pair.
#[derive(Clone, Copy, Debug, PartialEq, Eq, Structural)]
pub struct NvmeQueue {
    pub id: u16,
    pub tail: u16,
    pub head: u16,
    pub size: u16,
    pub phase: u16,
    pub doorbell_tail: u64,
    pub doorbell_head: u64,
    pub sq_base: u64,
    pub cq_base: u64,
}

/// Position after one more entry on a ring of `size` entries.
pub open spec fn next_slot(i: u16, size: u16) -> u16 {
    if i + 1 >= size {
        0
    } else {
        (i + 1) as u16
    }
}

impl NvmeQueue {
    pub open spec fn wf(&self) -> bool {
        &&& self.size >= 1
        &&& self.tail < self.size
        &&& self.head < self.size
        &&& self.phase <= 1
    }

    /// Queue `qid` of `size` entries over `sq_base` and `cq_base`, its
    /// doorbells at `base + 0x1000 + 8 * qid` (tail) and `+ 4` (head).
    /// Expects phase 1 first.
    pub fn new(qid: u16, size: u16, base: u64, sq_base: u64, cq_base: u64) -> (r: NvmeQueue)
        requires
            size >= 1,
            base + DOORBELL_BASE + 8 * 0x1_0000 <= u64::MAX,
        ensures
            r.wf(),
            r == (NvmeQueue {
                id: qid,
                tail: 0,
                head: 0,
                size,
                phase: 1,
                doorbell_tail: (base + DOORBELL_BASE + 8 * qid) as u64,
                doorbell_head: (base + DOORBELL_BASE + 8 * qid + 4) as u64,
                sq_base,
                cq_base,
            }),
    {
        let tail_db = base + DOORBELL_BASE + 8 * (qid as u64);
        NvmeQueue {
            id: qid,
            tail: 0,
            head: 0,
            size,
            phase: 1,
            doorbell_tail: tail_db,
            doorbell_head: tail_db + 4,
            sq_base,
            cq_base,
        }
    }

    /// Takes the submission slot at the tail for a new command. Returns the
    /// slot; the new tail is what goes to the tail doorbell.
    pub fn submit_slot(&mut self) -> (slot: u16)
        requires
            old(self).wf(),
        ensures
            final(self).wf(),
            slot == old(self).tail,
            *final(self) == (NvmeQueue { tail: next_slot(old(self).tail, old(self).size), ..*old(self) }),
    {
        let slot = self.tail;
        self.tail = self.tail + 1;
        if self.tail >= self.size {
            self.tail = 0;
        }
        slot
    }

    /// Looks at the completion entry at the head while waiting for command
    /// `cid`: an entry whose phase tag matches is consumed (the head
    /// advances, and the expected phase toggles when it wraps); any other is
    /// left for later.
    pub fn completion_step(&mut self, entry: &NvmeCQEntry, cid: u16) -> (r: CompletionStep)
        requires
            old(self).wf(),
        ensures
            final(self).wf(),
            (entry.status & 1) as u16 != old(self).phase ==> r == CompletionStep::Wait && *final(self)
                == *old(self),
            (entry.status & 1) as u16 == old(self).phase ==> {
                &&& final(self).head == next_slot(old(self).head, old(self).size)
                &&& final(self).phase == if old(self).head + 1 >= old(self).size {
                    1 - old(self).phase
                } else {
                    old(self).phase as int
                }
                &&& *final(self) == (NvmeQueue { head: final(self).head, phase: final(self).phase, ..*old(self) })
                &&& r == (CompletionStep::Consumed { head: final(self).head, done: entry.command_id == cid })
            },
    {
        if (entry.status & 1) != self.phase {
            return CompletionStep::Wait;
        }
        self.head = self.head + 1;
        if self.head >= self.size {
            self.head = 0;
            self.phase = if self.phase == 1 {
                0
            } else {
                1
            };
        }
        CompletionStep::Consumed { head: self.head, done: entry.command_id == cid }
    }
}

/// The model string of an Identify Controller page: bytes 24..64 with
/// trailing spaces removed.
pub fn model_string(identify: &Vec<u8>) -> (r: Vec<u8>)
    requires
        identify@.len() >= 64,
    ensures
        r@.len() <= 40,
        r@ == identify@.subrange(24, 24 + r@.len() as int),
        forall|i: int| r@.len() <= i < 40 ==> #[trigger] identify@[24 + i] == 0x20,
        r@.len() == 0 || identify@[24 + r@.len() - 1] != 0x20,
{
    let mut len: usize = 40;
    while len > 0 && identify[24 + len - 1] == 0x20
        invariant
            len <= 40,
            identify@.len() >= 64,
            forall|i: int| len <= i < 40 ==> #[trigger] identify@[24 + i] == 0x20,
        decreases len,
    {
        len = len - 1;
    }
    let mut r: Vec<u8> = Vec::new();
    let mut i: usize = 0;
    while i < len
        invariant
            i <= len <= 40,
            identify@.len() >= 64,
            r@ == identify@.subrange(24, 24 + i as int),
        decreases len - i,
    {
        r.push(identify[24 + i]);
        i = i + 1;
    }
    r
}

} // verus!
