use kernel::hid::{new_presses, translate_scan_code, KeyBuffer};
use kernel::ring::{EventRing, TransferRing};
use kernel::trb::{Trb, TRB_LINK};
use kernel::xhci::{
    bar_base, classify_event, control_transfer_trbs, find_interrupt_in_endpoint, handle_keyboard_report,
    port_needs_reset, port_reset_value, InterruptEndpoint, XhciEvent,
};

fn command(n: u64) -> Trb {
    Trb { param: n, status: 0, control: 23 << 10 }
}

#[test]
fn cycle_wrap_scenario() {
    let mut ring = TransferRing::new(0x8000, 4 * 16);
    assert_eq!(ring.size(), 3);
    for k in 0..4 {
        ring.enqueue(command(k));
    }
    assert_eq!(ring.enqueue_index(), 1);
    assert!(!ring.cycle_bit());
    let link = ring.trb(3);
    assert_eq!(link.control & 1, 1);
    assert_eq!(link.param, 0x8000);
    assert_eq!((link.control >> 10) & 0x3F, TRB_LINK as u32);
    assert_eq!(ring.trb(0).control & 1, 0);
    assert_eq!(ring.trb(1).control & 1, 1);
}

#[test]
fn producer_position_after_k_commands() {
    let n = 5usize;
    let mut ring = TransferRing::new(0x10000, (n + 1) * 16);
    for k in 1..=23usize {
        ring.enqueue(command(k as u64));
        assert_eq!(ring.enqueue_index(), k % n);
        assert_eq!(ring.cycle_bit(), (k / n) % 2 == 0);
        if k >= n {
            assert_eq!(ring.trb(n).control & 1 == 1, !ring.cycle_bit());
        }
    }
}

#[test]
fn consumer_takes_only_matching_cycle() {
    let mut er = EventRing::new(0x20000, 2);
    let stale = Trb { param: 0, status: 0, control: 33 << 10 };
    let fresh = Trb { param: 0, status: 0, control: (33 << 10) | 1 };
    assert!(!er.consume(&stale));
    assert_eq!(er.dequeue_address(), 0x20000);
    assert!(er.consume(&fresh));
    assert!(er.consume(&fresh));
    assert!(!er.cycle_bit());
    assert!(!er.consume(&fresh));
    assert!(er.consume(&stale));
    assert_eq!(er.dequeue_address(), 0x20010);
}

#[test]
fn keyboard_press_edge_scenario() {
    let prev = [0u8, 0, 0x04, 0, 0, 0, 0, 0];
    let cur = [0u8, 0, 0x04, 0x05, 0, 0, 0, 0];
    assert_eq!(new_presses(&prev, &cur), vec![0x62]);
}

#[test]
fn held_key_emits_once() {
    let r0 = [0u8; 8];
    let r1 = [0u8, 0, 0x1E, 0, 0, 0, 0, 0];
    let r2 = [0u8, 0, 0x1E, 0x52, 0x39, 0, 0, 0];
    assert_eq!(new_presses(&r0, &r1), vec![b'1']);
    assert_eq!(new_presses(&r1, &r2), vec![0x83]);
    assert_eq!(new_presses(&r2, &r2), Vec::<u8>::new());
}

#[test]
fn report_handling_queues_keys() {
    let mut keys = KeyBuffer::new();
    let mut prev = [0u8; 8];
    handle_keyboard_report(&mut keys, &mut prev, &[0, 0, 0x0B, 0x0C, 0, 0, 0, 0]);
    assert_eq!(prev, [0, 0, 0x0B, 0x0C, 0, 0, 0, 0]);
    assert_eq!(keys.pop(), Some(b'h'));
    assert_eq!(keys.pop(), Some(b'i'));
    assert_eq!(keys.pop(), None);
}

#[test]
fn key_buffer_holds_255() {
    let mut keys = KeyBuffer::new();
    for i in 0..300u32 {
        keys.push((i % 256) as u8);
    }
    for i in 0..255u32 {
        assert_eq!(keys.pop(), Some(i as u8));
    }
    assert_eq!(keys.pop(), None);
}

#[test]
fn scan_codes() {
    assert_eq!(translate_scan_code(0x1E), Some(b'a'));
    assert_eq!(translate_scan_code(0x9E), None);
    assert_eq!(translate_scan_code(0x1D), None);
    assert_eq!(translate_scan_code(0x39), Some(b' '));
}

#[test]
fn control_transfer_with_in_data() {
    let setup = [0x80, 0x06, 0x00, 0x01, 0x00, 0x00, 18, 0x00];
    let trbs = control_transfer_trbs(&setup, 0x5000, 18, true);
    assert_eq!(trbs.len(), 3);
    assert_eq!(trbs[0].param, 0x0012_0000_0100_0680);
    assert_eq!(trbs[0].status, 8);
    assert_eq!(trbs[0].control, (2 << 10) | (1 << 6) | (3 << 16));
    assert_eq!(trbs[1], Trb { param: 0x5000, status: 18, control: (3 << 10) | (1 << 16) });
    assert_eq!(trbs[2].control, (4 << 10) | (1 << 5));
}

#[test]
fn control_transfer_without_data() {
    let setup = [0x00, 0x09, 0x01, 0x00, 0x00, 0x00, 0x00, 0x00];
    let trbs = control_transfer_trbs(&setup, 0, 0, false);
    assert_eq!(trbs.len(), 2);
    assert_eq!(trbs[0].control, (2 << 10) | (1 << 6));
    assert_eq!(trbs[1].control, (4 << 10) | (1 << 16) | (1 << 5));
}

#[test]
fn events_are_classified() {
    let t = Trb { param: 0x1234, status: 1 << 24, control: (33 << 10) | (5 << 24) | 1 };
    assert_eq!(classify_event(&t), XhciEvent::CommandCompletion { code: 1, slot_id: 5, param: 0x1234 });
    let p = Trb { param: 3 << 24, status: 0, control: 34 << 10 };
    assert_eq!(classify_event(&p), XhciEvent::PortStatusChange { port_id: 3 });
}

#[test]
fn finds_keyboard_endpoint() {
    let buf = vec![
        9, 2, 34, 0, 1, 1, 0, 0xA0, 50, // configuration
        9, 4, 0, 0, 1, 3, 1, 1, 0, // interface (HID boot keyboard)
        9, 0x21, 0x11, 0x01, 0, 1, 0x22, 63, 0, // HID
        7, 5, 0x81, 3, 8, 0, 10, // endpoint 1 IN interrupt
    ];
    let ep = find_interrupt_in_endpoint(&buf, 34).unwrap();
    assert_eq!(ep, InterruptEndpoint { address: 0x81, ep_index: 3, max_packet_size: 8, interval: 10 });
    assert_eq!(find_interrupt_in_endpoint(&buf, 27), None);
}

#[test]
fn ports_and_bars() {
    assert!(port_needs_reset(0x1));
    assert!(!port_needs_reset(0x3));
    assert_eq!(port_reset_value(0xFFFF_FFFF), 0x0E01_C0F1);
    assert_eq!(bar_base(0xFEB0_0004, 0x1), 0x1_FEB0_0000);
    assert_eq!(bar_base(0xFEB0_0000, 0x1), 0xFEB0_0000);
}

use kernel::xhci::{event_effect, set_configuration_setup, set_idle_setup, set_protocol_setup, EventEffect};

#[test]
fn hid_setup_packets() {
    assert_eq!(set_configuration_setup(1), [0x00, 0x09, 0x01, 0, 0, 0, 0, 0]);
    assert_eq!(set_idle_setup(), [0x21, 0x0A, 0, 0, 0, 0, 0, 0]);
    assert_eq!(set_protocol_setup(0), [0x21, 0x0B, 0, 0, 0, 0, 0, 0]);
}

#[test]
fn event_effects() {
    let ring = TransferRing::new(0x9000, 4096);
    let done = XhciEvent::CommandCompletion { code: 1, slot_id: 3, param: 0 };
    assert_eq!(
        event_effect(&done, None, 0),
        EventEffect { completion_code: Some(1), slot_id: Some(3), report: false, requeue: false }
    );
    let report = XhciEvent::Transfer { code: 13, slot_id: 3, trb_address: 0x9010 };
    assert_eq!(
        event_effect(&report, Some(&ring), 3),
        EventEffect { completion_code: Some(13), slot_id: None, report: true, requeue: true }
    );
    let stall = XhciEvent::Transfer { code: 6, slot_id: 3, trb_address: 0x9010 };
    assert!(!event_effect(&stall, Some(&ring), 3).report);
    let elsewhere = XhciEvent::Transfer { code: 1, slot_id: 3, trb_address: 0xA000 };
    assert!(!event_effect(&elsewhere, Some(&ring), 3).report);
}
