//! xHCI host-controller logic: register layout, port handling, command and
//! control-transfer TRBs, event classification, device contexts, the
//! configuration-descriptor walk, and keyboard reports.
use vstd::prelude::*;
use crate::hid::{KeyBuffer, new_presses, presses};
use crate::ring::{CommandRing, EventRing, TransferRing};
use crate::trb::{
    Trb, TRB_ADDRESS_DEVICE_COMMAND, TRB_COMMAND_COMPLETION_EVENT, TRB_CONFIGURE_ENDPOINT_COMMAND,
    TRB_DATA_STAGE, TRB_ENABLE_SLOT_COMMAND, TRB_NOOP_COMMAND, TRB_NORMAL,
    TRB_PORT_STATUS_CHANGE_EVENT, TRB_SETUP_STAGE, TRB_STATUS_STAGE, TRB_TRANSFER_EVENT, type_of,
};

verus! {

pub const COMPLETION_SUCCESS: u8 = 1;
pub const COMPLETION_STALL: u8 = 6;
pub const COMPLETION_SHORT_PACKET: u8 = 13;

/// Event-ring slots: one page of TRBs.
pub const EVENT_RING_TRBS: usize = 256;

/// Snapshot of the capability registers.
#[derive(Clone, Copy, Debug, PartialEq, Eq, Structural)]
pub struct XhciCapabilityRegisters {
    pub caplength: u8,
    pub reserved1: u8,
    pub hciversion: u16,
    pub hcsparams1: u32,
    pub hcsparams2: u32,
    pub hcsparams3: u32,
    pub hccparams1: u32,
    pub dboff: u32,
    pub rtsoff: u32,
    pub hccparams2: u32,
}

/// Snapshot of the operational registers the driver programs.
#[derive(Clone, Copy, Debug, PartialEq, Eq, Structural)]
pub struct XhciOperationalRegisters {
    pub usbcmd: u32,
    pub usbsts: u32,
    pub pagesize: u32,
    pub dnctrl: u32,
    pub crcr: u64,
    pub dcbaap: u64,
    pub config: u32,
}

#[derive(Clone, Copy, Debug, PartialEq, Eq, Structural)]
pub struct XhciInterrupterRegisterSet {
    pub iman: u32,
    pub imod: u32,
    pub erstsz: u32,
    pub reserved: u32,
    pub erstba: u64,
    pub erdp: u64,
}

/// Runtime registers: microframe index and interrupter 0.
#[derive(Clone, Copy, Debug, PartialEq, Eq, Structural)]
pub struct XhciRuntimeRegisters {
    pub mfindex: u32,
    pub ir0: XhciInterrupterRegisterSet,
}

#[derive(Clone, Copy, Debug, PartialEq, Eq, Structural)]
pub struct EventRingSegmentTableEntry {
    pub base_address: u64,
    pub size: u16,
}

/// Physical address of BAR0, with BAR1 as its high half when BAR0 is a
/// 64-bit memory BAR (type bits `10`).
pub open spec fn bar_address(bar0: u32, bar1: u32) -> u64 {
    let low = (bar0 & 0xFFFF_FFF0u32) as u64;
    if (bar0 >> 1u32) & 3u32 == 2 {
        low | ((bar1 as u64) << 32u64)
    } else {
        low
    }
}

pub fn bar_base(bar0: u32, bar1: u32) -> (r: u64)
    ensures
        r == bar_address(bar0, bar1),
{
    let low = (bar0 & 0xFFFF_FFF0) as u64;
    if (bar0 >> 1) & 3 == 2 {
        low | ((bar1 as u64) << 32)
    } else {
        low
    }
}

/// The controller as the driver sees it: register bases, the command ring,
/// the event-ring consumer, and the number of root ports.
pub struct XhciContext {
    pub cap: u64,
    pub op: u64,
    pub rt: u64,
    pub db: u64,
    pub cmd_ring: CommandRing,
    pub event_ring: EventRing,
    pub max_ports: u8,
}

impl XhciContext {
    /// Register bases from BAR `bar` and the capability registers:
    /// operational at `CAPLENGTH`, runtime at `RTSOFF` (32-byte aligned),
    /// doorbells at `DBOFF` (4-byte aligned). A fresh command ring over one
    /// page at `cmd_ring_buffer` and an event ring of `EVENT_RING_TRBS`
    /// TRBs at `event_ring_buffer`.
    pub fn new(bar: u64, cap: &XhciCapabilityRegisters, cmd_ring_buffer: u64, event_ring_buffer: u64) -> (r:
        Self)
        requires
            bar + 0x1_0000_0000 <= u64::MAX,
            event_ring_buffer + 4096 <= u64::MAX,
        ensures
            r.cap == bar,
            r.op == bar + cap.caplength,
            r.rt == bar + (cap.rtsoff & 0xFFFF_FFE0),
            r.db == bar + (cap.dboff & 0xFFFF_FFFC),
            r.max_ports == cap.hcsparams1 >> 24,
            r.cmd_ring.wf(),
            r.cmd_ring@.base == cmd_ring_buffer,
            r.cmd_ring@.size == 255,
            r.cmd_ring@.enqueue_index == 0 && r.cmd_ring@.cycle_bit,
            r.event_ring.wf(),
            r.event_ring@.base == event_ring_buffer,
            r.event_ring@.size == EVENT_RING_TRBS,
            r.event_ring@.dequeue_index == 0 && r.event_ring@.cycle_bit,
    {
        proof {
            let h = cap.hcsparams1;
            assert(h >> 24u32 < 256) by (bit_vector);
            let ro = cap.rtsoff;
            let dof = cap.dboff;
            assert(ro & 0xFFFF_FFE0u32 <= 0xFFFF_FFFFu32) by (bit_vector);
            assert(dof & 0xFFFF_FFFCu32 <= 0xFFFF_FFFFu32) by (bit_vector);
        }
        XhciContext {
            cap: bar,
            op: bar + cap.caplength as u64,
            rt: bar + (cap.rtsoff & 0xFFFF_FFE0) as u64,
            db: bar + (cap.dboff & 0xFFFF_FFFC) as u64,
            cmd_ring: TransferRing::new(cmd_ring_buffer, 4096),
            event_ring: EventRing::new(event_ring_buffer, EVENT_RING_TRBS),
            max_ports: (cap.hcsparams1 >> 24) as u8,
        }
    }
}

/// `CONFIG` with `MaxSlotsEn` set to the controller's slot count
/// (`HCSPARAMS1` bits 0..7).
pub fn config_with_slots(config: u32, hcsparams1: u32) -> (r: u32)
    ensures
        r == (config & !0xFFu32) | (hcsparams1 & 0xFF),
{
    (config & !0xFF) | (hcsparams1 & 0xFF)
}

/// `CRCR`: ring base with the Ring Cycle State bit set.
pub fn crcr_value(ring_base: u64) -> (r: u64)
    ensures
        r == ring_base | 1,
{
    ring_base | 1
}

/// `ERDP` after consuming events: dequeue pointer with Event Handler Busy
/// cleared (written as 1).
pub fn erdp_value(dequeue: u64) -> (r: u64)
    ensures
        r == dequeue | 8,
{
    dequeue | 8
}

/// Offset of root port `i`'s `PORTSC` from the operational base.
pub fn portsc_offset(i: u8) -> (r: u64)
    ensures
        r == 0x400 + i * 0x10,
{
    0x400 + (i as u64) * 0x10
}

/// A device is connected (`CCS`) but the port is not enabled (`PED`).
pub fn port_needs_reset(portsc: u32) -> (r: bool)
    ensures
        r == (portsc & 1 != 0 && portsc & 2 == 0),
{
    portsc & 1 != 0 && portsc & 2 == 0
}

/// `PORTSC` value that starts a port reset: read-write bits kept, change
/// bits cleared, `PR` set.
pub fn port_reset_value(portsc: u32) -> (r: u32)
    ensures
        r == (portsc & 0x0E01_C0E1) | 0x10,
{
    (portsc & 0x0E01_C0E1) | 0x10
}

/// Whether the port reset has completed (`PRC`).
pub fn port_reset_done(portsc: u32) -> (r: bool)
    ensures
        r == (portsc & 0x20_0000 != 0),
{
    portsc & 0x20_0000 != 0
}

/// `PORTSC` value that acknowledges `PRC`.
pub fn port_clear_prc_value(portsc: u32) -> (r: u32)
    ensures
        r == (portsc & 0x0E01_C0E1) | 0x20_0000,
{
    (portsc & 0x0E01_C0E1) | 0x20_0000
}

/// Port speed, `PORTSC` bits 10..13.
pub fn port_speed(portsc: u32) -> (r: u32)
    ensures
        r == (portsc >> 10) & 0xF,
{
    (portsc >> 10) & 0xF
}

/// A command TRB of `trb_type` for slot `slot_id` with parameter `param`.
pub fn command_trb(trb_type: u8, slot_id: u8, param: u64) -> (r: Trb)
    ensures
        r == (Trb { param, status: 0, control: ((trb_type as u32) << 10u32) | ((slot_id as u32) << 24u32) }),
{
    Trb { param, status: 0, control: ((trb_type as u32) << 10) | ((slot_id as u32) << 24) }
}

pub fn noop_command() -> (r: Trb)
    ensures
        r == (Trb { param: 0, status: 0, control: ((TRB_NOOP_COMMAND as u32) << 10u32) | ((0u8 as u32) << 24u32) }),
{
    command_trb(TRB_NOOP_COMMAND, 0, 0)
}

pub fn enable_slot_command() -> (r: Trb)
    ensures
        r == (Trb { param: 0, status: 0, control: ((TRB_ENABLE_SLOT_COMMAND as u32) << 10u32) | ((0u8 as u32) << 24u32) }),
{
    command_trb(TRB_ENABLE_SLOT_COMMAND, 0, 0)
}

/// Address Device (BSR = 0) for `slot_id` with the input context at
/// `input_context`.
pub fn address_device_command(slot_id: u8, input_context: u64) -> (r: Trb)
    ensures
        r == (Trb {
            param: input_context,
            status: 0,
            control: ((TRB_ADDRESS_DEVICE_COMMAND as u32) << 10u32) | ((slot_id as u32) << 24u32),
        }),
{
    command_trb(TRB_ADDRESS_DEVICE_COMMAND, slot_id, input_context)
}

pub fn configure_endpoint_command(slot_id: u8, input_context: u64) -> (r: Trb)
    ensures
        r == (Trb {
            param: input_context,
            status: 0,
            control: ((TRB_CONFIGURE_ENDPOINT_COMMAND as u32) << 10u32) | ((slot_id as u32) << 24u32),
        }),
{
    command_trb(TRB_CONFIGURE_ENDPOINT_COMMAND, slot_id, input_context)
}

/// The eight setup bytes as the little-endian `param` of a Setup TRB.
pub open spec fn setup_param(s: Seq<u8>) -> u64 {
    (s[0] as u64) | ((s[1] as u64) << 8u64) | ((s[2] as u64) << 16u64) | ((s[3] as u64) << 24u64)
        | ((s[4] as u64) << 32u64) | ((s[5] as u64) << 40u64) | ((s[6] as u64) << 48u64) | ((
    s[7] as u64) << 56u64)
}

/// The TRBs of a control transfer on EP0: Setup (immediate data, transfer
/// type IN/OUT when there is a data stage), an optional Data stage, and a
/// Status stage in the opposite direction with Interrupt On Completion.
pub open spec fn control_trbs(setup: Seq<u8>, data: u64, data_len: u16, is_in: bool) -> Seq<Trb> {
    let trt: u32 = if data_len > 0 {
        (if is_in {
            3u32
        } else {
            2u32
        }) << 16u32
    } else {
        0u32
    };
    let setup_trb = Trb {
        param: setup_param(setup),
        status: 8,
        control: ((TRB_SETUP_STAGE as u32) << 10u32) | 0x40u32 | trt,
    };
    let status_trb = Trb {
        param: 0,
        status: 0,
        control: ((TRB_STATUS_STAGE as u32) << 10u32) | ((if is_in && data_len > 0 {
            0u32
        } else {
            1u32
        }) << 16u32) | 0x20u32,
    };
    if data_len > 0 {
        seq![
            setup_trb,
            Trb {
                param: data,
                status: data_len as u32,
                control: ((TRB_DATA_STAGE as u32) << 10u32) | ((if is_in {
                    1u32
                } else {
                    0u32
                }) << 16u32),
            },
            status_trb,
        ]
    } else {
        seq![setup_trb, status_trb]
    }
}

pub fn control_transfer_trbs(setup: &[u8; 8], data: u64, data_len: u16, is_in: bool) -> (r: Vec<Trb>)
    ensures
        r@ == control_trbs(setup@, data, data_len, is_in),
{
    let param = (setup[0] as u64) | ((setup[1] as u64) << 8) | ((setup[2] as u64) << 16) | ((
    setup[3] as u64) << 24) | ((setup[4] as u64) << 32) | ((setup[5] as u64) << 40) | ((
    setup[6] as u64) << 48) | ((setup[7] as u64) << 56);
    let mut control = ((TRB_SETUP_STAGE as u32) << 10) | 0x40;
    if data_len > 0 {
        control = control | ((if is_in {
            3u32
        } else {
            2u32
        }) << 16);
    } else {
        proof {
            let c = control;
            assert(c | 0u32 == c) by (bit_vector);
        }
    }
    let mut r: Vec<Trb> = Vec::new();
    r.push(Trb { param, status: 8, control });
    if data_len > 0 {
        r.push(
            Trb {
                param: data,
                status: data_len as u32,
                control: ((TRB_DATA_STAGE as u32) << 10) | ((if is_in {
                    1u32
                } else {
                    0u32
                }) << 16),
            },
        );
    }
    let status_control = ((TRB_STATUS_STAGE as u32) << 10) | ((if is_in && data_len > 0 {
        0u32
    } else {
        1u32
    }) << 16) | 0x20;
    r.push(Trb { param: 0, status: 0, control: status_control });
    assert(r@ =~= control_trbs(setup@, data, data_len, is_in));
    r
}

/// A Normal TRB asking for one 8-byte report into `buffer`, with Interrupt
/// On Completion.
pub fn report_request_trb(buffer: u64) -> (r: Trb)
    ensures
        r == (Trb { param: buffer, status: 8, control: ((TRB_NORMAL as u32) << 10u32) | 0x20u32 }),
{
    Trb { param: buffer, status: 8, control: ((TRB_NORMAL as u32) << 10) | 0x20 }
}

/// An event read from the event ring.
#[derive(Clone, Copy, Debug, PartialEq, Eq, Structural)]
pub enum XhciEvent {
    PortStatusChange { port_id: u8 },
    CommandCompletion { code: u8, slot_id: u8, param: u64 },
    Transfer { code: u8, slot_id: u8, trb_address: u64 },
    Other { trb_type: u8 },
}

/// Sorts an event TRB by type: port status change (port in `param` bits
/// 24..31), command completion and transfer events (completion code in
/// `status` bits 24..31, slot in `control` bits 24..31).
pub fn classify_event(trb: &Trb) -> (r: XhciEvent)
    ensures
        type_of(trb.control) == TRB_PORT_STATUS_CHANGE_EVENT ==> r == (XhciEvent::PortStatusChange {
            port_id: (trb.param >> 24u64) as u8,
        }),
        type_of(trb.control) == TRB_COMMAND_COMPLETION_EVENT ==> r == (XhciEvent::CommandCompletion {
            code: (trb.status >> 24u32) as u8,
            slot_id: (trb.control >> 24u32) as u8,
            param: trb.param,
        }),
        type_of(trb.control) == TRB_TRANSFER_EVENT ==> r == (XhciEvent::Transfer {
            code: (trb.status >> 24u32) as u8,
            slot_id: (trb.control >> 24u32) as u8,
            trb_address: trb.param,
        }),
        type_of(trb.control) != TRB_PORT_STATUS_CHANGE_EVENT && type_of(trb.control)
            != TRB_COMMAND_COMPLETION_EVENT && type_of(trb.control) != TRB_TRANSFER_EVENT ==> r
            == (XhciEvent::Other { trb_type: type_of(trb.control) as u8 }),
{
    let t = trb.trb_type();
    if t == TRB_PORT_STATUS_CHANGE_EVENT {
        XhciEvent::PortStatusChange { port_id: (trb.param >> 24) as u8 }
    } else if t == TRB_COMMAND_COMPLETION_EVENT {
        XhciEvent::CommandCompletion { code: trb.completion_code(), slot_id: trb.slot_id(), param: trb.param }
    } else if t == TRB_TRANSFER_EVENT {
        XhciEvent::Transfer { code: trb.completion_code(), slot_id: trb.slot_id(), trb_address: trb.param }
    } else {
        XhciEvent::Other { trb_type: t }
    }
}

/// `keys` after pushing each of `new` in turn (a push onto a full buffer is
/// dropped).
pub open spec fn push_all(keys: Seq<u8>, new: Seq<u8>) -> Seq<u8>
    decreases new.len(),
{
    if new.len() == 0 {
        keys
    } else {
        let k1 = if keys.len() < 255 {
            keys.push(new[0])
        } else {
            keys
        };
        push_all(k1, new.drop_first())
    }
}

/// A keyboard report arrived: each fresh press (a keycode not in the
/// previous report) is translated and queued, and the report becomes the
/// previous one.
pub fn handle_keyboard_report(keys: &mut KeyBuffer, previous: &mut [u8; 8], report: &[u8; 8])
    requires
        old(keys).wf(),
    ensures
        final(keys).wf(),
        final(keys)@ == push_all(old(keys)@, presses(old(previous)@, report@)),
        *final(previous) == *report,
{
    let fresh = new_presses(previous, report);
    let mut i: usize = 0;
    assert(fresh@.subrange(0, fresh@.len() as int) =~= fresh@);
    while i < fresh.len()
        invariant
            keys.wf(),
            i <= fresh@.len(),
            push_all(keys@, fresh@.subrange(i as int, fresh@.len() as int)) == push_all(
                old(keys)@,
                fresh@,
            ),
        decreases fresh.len() - i,
    {
        let ghost before = keys@;
        keys.push(fresh[i]);
        assert(fresh@.subrange(i as int, fresh@.len() as int).drop_first() =~= fresh@.subrange(
            i + 1,
            fresh@.len() as int,
        ));
        i = i + 1;
    }
    assert(fresh@.subrange(0, fresh@.len() as int) =~= fresh@);
    *previous = *report;
}

/// Vendor and product ids of an 18-byte device descriptor.
pub fn device_descriptor_ids(buf: &Vec<u8>) -> (r: (u16, u16))
    requires
        buf@.len() >= 12,
    ensures
        r.0 == buf@[8] + buf@[9] * 256,
        r.1 == buf@[10] + buf@[11] * 256,
{
    let vendor = (buf[8] as u16) + (buf[9] as u16) * 256;
    let product = (buf[10] as u16) + (buf[11] as u16) * 256;
    (vendor, product)
}

/// `wTotalLength` of a configuration descriptor header.
pub fn config_total_length(buf: &Vec<u8>) -> (r: u16)
    requires
        buf@.len() >= 4,
    ensures
        r == buf@[2] + buf@[3] * 256,
{
    (buf[2] as u16) + (buf[3] as u16) * 256
}

/// A GET_DESCRIPTOR setup packet for descriptor `kind` of `length` bytes.
pub fn get_descriptor_setup(kind: u8, length: u16) -> (r: [u8; 8])
    ensures
        r@ == seq![0x80u8, 0x06, 0x00, kind, 0x00, 0x00, (length & 0xFF) as u8, (length >> 8) as u8],
{
    let r = [0x80, 0x06, 0x00, kind, 0x00, 0x00, (length & 0xFF) as u8, (length >> 8) as u8];
    assert(r@ =~= seq![0x80u8, 0x06, 0x00, kind, 0x00, 0x00, (length & 0xFF) as u8, (length >> 8) as u8]);
    r
}

/// An Interrupt-In endpoint found in a configuration descriptor.
#[derive(Clone, Copy, Debug, PartialEq, Eq, Structural)]
pub struct InterruptEndpoint {
    pub address: u8,
    /// Device-context index: endpoint number times two, plus one for IN.
    pub ep_index: u8,
    pub max_packet_size: u16,
    pub interval: u8,
}

/// The first Interrupt-In endpoint descriptor in `buf[offset..total)`,
/// walking descriptor by descriptor (`bLength`, `bDescriptorType`). The walk
/// stops at a zero length or at a descriptor that runs past the buffer.
pub open spec fn find_interrupt_in(buf: Seq<u8>, total: int, offset: int) -> Option<InterruptEndpoint>
    decreases total - offset,
{
    if offset < 0 || offset >= total || offset + 7 > buf.len() {
        None
    } else {
        let len: int = buf[offset] as int;
        let ty = buf[offset + 1];
        let addr = buf[offset + 2];
        let attr = buf[offset + 3];
        if ty == 5 && addr & 0x80 != 0 && attr & 3 == 3 {
            Some(
                InterruptEndpoint {
                    address: addr,
                    ep_index: ((addr & 0x0F) as int * 2 + 1) as u8,
                    max_packet_size: (buf[offset + 4] + buf[offset + 5] * 256) as u16,
                    interval: buf[offset + 6],
                },
            )
        } else if len > 0 && offset + len < total {
            find_interrupt_in(buf, total, offset + len)
        } else {
            None
        }
    }
}

pub fn find_interrupt_in_endpoint(buf: &Vec<u8>, total_len: u16) -> (r: Option<InterruptEndpoint>)
    ensures
        r == find_interrupt_in(buf@, total_len as int, 0),
{
    let total = total_len as usize;
    let mut offset: usize = 0;
    while offset < total
        invariant
            find_interrupt_in(buf@, total as int, offset as int) == find_interrupt_in(
                buf@,
                total_len as int,
                0,
            ),
            total == total_len,
            offset <= total + 256,
        decreases total + 256 - offset,
    {
        if offset > buf.len() || buf.len() - offset < 7 {
            return None;
        }
        let len = buf[offset] as usize;
        let ty = buf[offset + 1];
        let addr = buf[offset + 2];
        let attr = buf[offset + 3];
        if ty == 5 && addr & 0x80 != 0 && attr & 3 == 3 {
            proof {
                assert(addr & 0x0Fu8 < 16) by (bit_vector);
            }
            let mps = (buf[offset + 4] as u16) + (buf[offset + 5] as u16) * 256;
            return Some(
                InterruptEndpoint {
                    address: addr,
                    ep_index: (addr & 0x0F) * 2 + 1,
                    max_packet_size: mps,
                    interval: buf[offset + 6],
                },
            );
        }
        if len == 0 {
            return None;
        }
        offset = offset + len;
    }
    None
}

/// Max packet size of EP0 for a port speed: 8 (low), 64 (full, high), 512
/// (super).
pub open spec fn ep0_mps(speed: u32) -> u32 {
    if speed == 2 {
        8u32
    } else if speed == 4 {
        512u32
    } else {
        64u32
    }
}

pub fn ep0_max_packet_size(speed: u32) -> (r: u32)
    ensures
        r == ep0_mps(speed),
{
    match speed {
        3 => 64,
        4 => 512,
        2 => 8,
        _ => 64,
    }
}

#[derive(Clone, Copy, Debug, PartialEq, Eq, Structural)]
pub struct SlotContext {
    pub field1: u32,
    pub field2: u32,
    pub field3: u32,
    pub field4: u32,
}

#[derive(Clone, Copy, Debug, PartialEq, Eq, Structural)]
pub struct EndpointContext {
    pub field1: u32,
    pub field2: u32,
    pub tr_dequeue_pointer: u64,
    pub field4: u32,
}

/// The slot context and the endpoint contexts the driver sets (EP0 and at
/// most one more), keyed by device-context index.
#[derive(Clone, Copy, Debug, PartialEq, Eq, Structural)]
pub struct DeviceContext {
    pub slot: SlotContext,
    pub ep0: EndpointContext,
    pub ep_index: u8,
    pub endpoint: EndpointContext,
}

#[derive(Clone, Copy, Debug, PartialEq, Eq, Structural)]
pub struct InputContext {
    pub drop_flags: u32,
    pub add_flags: u32,
    pub device: DeviceContext,
}

pub open spec fn zero_endpoint() -> EndpointContext {
    EndpointContext { field1: 0, field2: 0, tr_dequeue_pointer: 0, field4: 0 }
}

/// Device context of a freshly addressed device: one context entry, the
/// port speed and root-hub port, and EP0 as a control endpoint (CErr 3)
/// whose ring starts at `ep0_ring` with DCS 1.
pub fn address_device_context(speed: u32, port_id: u8, ep0_ring: u64) -> (r: DeviceContext)
    requires
        speed < 16,
    ensures
        r.slot == (SlotContext { field1: (1u32 << 27u32) | (speed << 20u32), field2: (port_id as u32) << 16u32, field3: 0, field4: 0 }),
        r.ep0 == (EndpointContext {
            field1: 0,
            field2: (4u32 << 3u32) | (ep0_mps(speed) << 16u32) | (3u32 << 1u32),
            tr_dequeue_pointer: ep0_ring | 1,
            field4: 0,
        }),
        r.ep_index == 0,
        r.endpoint == zero_endpoint(),
{
    let mps = ep0_max_packet_size(speed);
    DeviceContext {
        slot: SlotContext { field1: (1 << 27) | (speed << 20), field2: (port_id as u32) << 16, field3: 0, field4: 0 },
        ep0: EndpointContext { field1: 0, field2: (4 << 3) | (mps << 16) | (3 << 1), tr_dequeue_pointer: ep0_ring | 1, field4: 0 },
        ep_index: 0,
        endpoint: EndpointContext { field1: 0, field2: 0, tr_dequeue_pointer: 0, field4: 0 },
    }
}

/// Input context for Address Device: add the slot and EP0 contexts.
pub fn address_device_input(device: &DeviceContext) -> (r: InputContext)
    ensures
        r == (InputContext { drop_flags: 0, add_flags: 3, device: *device }),
{
    InputContext { drop_flags: 0, add_flags: 3, device: *device }
}

/// Input context for Configure Endpoint: add the slot and the endpoint at
/// `ep_index`, with Context Entries set to `ep_index`, and the endpoint as
/// Interrupt IN (CErr 3) of max packet `mps`, ring at `ring` with DCS 1,
/// and interval `interval - 1`.
pub fn configure_endpoint_input(slot: &SlotContext, ep_index: u8, mps: u16, interval: u8, ring: u64) -> (r:
    InputContext)
    requires
        1 <= ep_index < 32,
        interval >= 1,
    ensures
        r.drop_flags == 0,
        r.add_flags == 1u32 | (1u32 << ep_index as u32),
        r.device.slot == (SlotContext { field1: (slot.field1 & !(0x1Fu32 << 27u32)) | ((ep_index as u32) << 27u32), ..*slot }),
        r.device.ep_index == ep_index,
        r.device.endpoint == (EndpointContext {
            field1: 0,
            field2: (7u32 << 3u32) | ((mps as u32) << 16u32) | (3u32 << 1u32),
            tr_dequeue_pointer: ring | 1,
            field4: ((interval - 1) as u32) << 16u32,
        }),
{
    let s = SlotContext { field1: (slot.field1 & !(0x1F << 27)) | ((ep_index as u32) << 27), ..*slot };
    InputContext {
        drop_flags: 0,
        add_flags: 1 | (1u32 << ep_index as u32),
        device: DeviceContext {
            slot: s,
            ep0: EndpointContext { field1: 0, field2: 0, tr_dequeue_pointer: 0, field4: 0 },
            ep_index,
            endpoint: EndpointContext {
                field1: 0,
                field2: (7 << 3) | ((mps as u32) << 16) | (3 << 1),
                tr_dequeue_pointer: ring | 1,
                field4: ((interval - 1) as u32) << 16,
            },
        },
    }
}

/// SET_CONFIGURATION to configuration `value`.
pub fn set_configuration_setup(value: u8) -> (r: [u8; 8])
    ensures
        r@ == seq![0x00u8, 0x09, value, 0x00, 0x00, 0x00, 0x00, 0x00],
{
    let r = [0x00, 0x09, value, 0x00, 0x00, 0x00, 0x00, 0x00];
    assert(r@ =~= seq![0x00u8, 0x09, value, 0x00, 0x00, 0x00, 0x00, 0x00]);
    r
}

/// HID SET_IDLE with duration 0 (report only on change) on interface 0.
pub fn set_idle_setup() -> (r: [u8; 8])
    ensures
        r@ == seq![0x21u8, 0x0A, 0x00, 0x00, 0x00, 0x00, 0x00, 0x00],
{
    let r = [0x21, 0x0A, 0x00, 0x00, 0x00, 0x00, 0x00, 0x00];
    assert(r@ =~= seq![0x21u8, 0x0A, 0x00, 0x00, 0x00, 0x00, 0x00, 0x00]);
    r
}

/// HID SET_PROTOCOL to `protocol` (0 is the boot protocol) on interface 0.
pub fn set_protocol_setup(protocol: u8) -> (r: [u8; 8])
    ensures
        r@ == seq![0x21u8, 0x0B, protocol, 0x00, 0x00, 0x00, 0x00, 0x00],
{
    let r = [0x21, 0x0B, protocol, 0x00, 0x00, 0x00, 0x00, 0x00];
    assert(r@ =~= seq![0x21u8, 0x0B, protocol, 0x00, 0x00, 0x00, 0x00, 0x00]);
    r
}

/// What the driver does with one event from the event ring.
#[derive(Clone, Copy, Debug, PartialEq, Eq, Structural)]
pub struct EventEffect {
    /// New value of the last completion code, if the event sets it.
    pub completion_code: Option<u8>,
    /// New value of the last slot id, if the event sets it.
    pub slot_id: Option<u8>,
    /// A keyboard report arrived and is to be processed.
    pub report: bool,
    /// A new report request is to be queued on the interrupt endpoint.
    pub requeue: bool,
}

/// Command completions set the completion code and slot; transfer events
/// set the code, and when one completes (Success or Short Packet) a TRB of
/// the slot's keyboard ring, the report is processed and, with an
/// interrupt endpoint known (`ep_index != 0`), the next request queued.
pub fn event_effect(ev: &XhciEvent, keyboard_ring: Option<&TransferRing>, ep_index: u8) -> (r: EventEffect)
    ensures
        r == match *ev {
            XhciEvent::CommandCompletion { code, slot_id, .. } => EventEffect {
                completion_code: Some(code),
                slot_id: Some(slot_id),
                report: false,
                requeue: false,
            },
            XhciEvent::Transfer { code, trb_address, .. } => {
                let hit = match keyboard_ring {
                    Some(ring) => ring@.base <= trb_address && trb_address < ring@.base + ring@.size
                        * 16,
                    None => false,
                };
                let report = hit && (code == COMPLETION_SUCCESS || code == COMPLETION_SHORT_PACKET);
                EventEffect {
                    completion_code: Some(code),
                    slot_id: None,
                    report,
                    requeue: report && ep_index != 0,
                }
            },
            _ => EventEffect { completion_code: None, slot_id: None, report: false, requeue: false },
        },
{
    match ev {
        XhciEvent::CommandCompletion { code, slot_id, .. } => EventEffect {
            completion_code: Some(*code),
            slot_id: Some(*slot_id),
            report: false,
            requeue: false,
        },
        XhciEvent::Transfer { code, trb_address, .. } => {
            let hit = match keyboard_ring {
                Some(ring) => ring.holds_address(*trb_address),
                None => false,
            };
            let report = hit && (*code == COMPLETION_SUCCESS || *code == COMPLETION_SHORT_PACKET);
            EventEffect {
                completion_code: Some(*code),
                slot_id: None,
                report,
                requeue: report && ep_index != 0,
            }
        },
        _ => EventEffect { completion_code: None, slot_id: None, report: false, requeue: false },
    }
}

} // verus!
