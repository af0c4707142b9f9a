use kernel::gdt::{build_gdt, Tss, USER_CODE_SEL, USER_DATA_SEL};
use kernel::interrupts::{build_idt, eoi_ports, pic_remap_writes, IdtEntry};
use kernel::scheduler::{Scheduler, SwitchAction, TaskStatus};
use kernel::syscall::{decode_syscall, fixed_result, star_value, Syscall, UNKNOWN_SYSCALL};
use kernel::uefi::BootInfo;
use kernel::writer::{DrawOp, Writer, WHITE};

#[test]
fn syscall_print_scenario() {
    let msg = "hi";
    let ptr = msg.as_ptr() as usize;
    let call = decode_syscall(1, ptr, 2, 0, 0);
    assert_eq!(call, Syscall::Print { ptr, len: 2 });
    if let Syscall::Print { len, .. } = call {
        assert_eq!(&msg.as_bytes()[..len], &[0x68, 0x69]);
    }
    assert_eq!(fixed_result(&call), Some(0));
}

#[test]
fn unknown_syscall_returns_all_ones() {
    let call = decode_syscall(99, 1, 2, 3, 4);
    assert_eq!(call, Syscall::Unknown { id: 99 });
    assert_eq!(fixed_result(&call), Some(UNKNOWN_SYSCALL));
    assert_eq!(decode_syscall(2, 64, 16, 0, 0), Syscall::Alloc { size: 64, align: 16 });
    assert_eq!(fixed_result(&decode_syscall(11, 0, 0, 0, 0)), None);
}

#[test]
fn context_switch_scenario() {
    let mut s = Scheduler::new(0x7000);
    let a = s.add_new_task(0xA000, 0x10_0000, 0x4000);
    let b = s.add_new_task(0xB000, 0x20_0000, 0x4000);
    assert_eq!(a.rsp, 0x10_4000 - 64);
    assert_eq!(b.words, vec![0, 0, 0, 0, 0, 0, 0xB000]);
    // The bootstrap thread leaves; task 1 (A) runs and task 2 (B) is ready.
    let first = s.terminate_task();
    assert_eq!(first, SwitchAction::Switch { old_index: 0, new_index: 1, new_stack: a.rsp, gs_base: 0 });
    let mut output = String::new();
    let mut ids = Vec::new();
    for _ in 0..4 {
        let id = s.current_task_id();
        ids.push(id);
        output.push(if id == 1 { 'A' } else { 'B' });
        match s.switch_task() {
            SwitchAction::Switch { .. } => {}
            other => panic!("no switch: {:?}", other),
        }
    }
    assert_eq!(output, "ABAB");
    assert_eq!(ids, vec![1, 2, 1, 2]);
    assert_eq!(s.task(0).status, TaskStatus::Terminated);
}

#[test]
fn lone_task_continues_and_terminated_halts() {
    let mut s = Scheduler::new(0);
    assert_eq!(s.switch_task(), SwitchAction::Continue);
    assert_eq!(s.terminate_task(), SwitchAction::Halt);
}

#[test]
fn user_task_stack_image() {
    let mut s = Scheduler::new(0);
    let img = s.add_new_user_task(0x40_0000, 0x80_0000, 0x4000, 0x90_0000, 0x5000, 0x1234);
    assert_eq!(img.rsp, 0x90_4000 - 96);
    assert_eq!(
        img.words,
        vec![0, 0, 0, 0, 0, 0, 0x1234, 0x40_0000, USER_CODE_SEL as u64, 0x202, 0x80_4000, USER_DATA_SEL as u64]
    );
    assert_eq!(s.task(1).gs_base, 0x5000);
}

#[test]
fn gdt_and_tss() {
    let g = build_gdt(0x1234_5678_9ABC);
    assert_eq!(g[0], 0);
    assert_eq!(g[1], 0x00AF_9A00_0000_FFFF);
    assert_eq!(g[2], 0x00CF_9200_0000_FFFF);
    assert_eq!(g[6], 0x1234);
    let mut t = Tss::new();
    t.set_tss_stack(0xDEAD_0000);
    assert_eq!(t.rsp0, 0xDEAD_0000);
    assert_eq!(t.iomap_base, 104);
    assert_eq!(star_value(), 0x0010_0008_0000_0000);
}

#[test]
fn idt_gates() {
    let exceptions: Vec<u64> = (0..32u64).map(|v| 0xFFFF_8000_0010_0000 + v * 16).collect();
    let idt = build_idt(&exceptions, &vec![0x2000, 0x3000]);
    assert_eq!(idt.len(), 256);
    let g = idt[14];
    let addr = (g.offset_low as u64) | ((g.offset_mid as u64) << 16) | ((g.offset_high as u64) << 32);
    assert_eq!(addr, 0xFFFF_8000_0010_00E0);
    assert_eq!(idt[8].ist, 1);
    assert_eq!(idt[33].offset_low, 0x3000);
    assert_eq!(idt[34], IdtEntry::missing());
    assert_eq!(g.type_attr, 0x8E);
}

#[test]
fn pic_programming() {
    let w = pic_remap_writes();
    assert_eq!(w.len(), 18);
    assert_eq!(w[16], (0x21, 0xFD));
    assert_eq!(w[17], (0xA1, 0xFF));
    assert_eq!(eoi_ports(1), vec![0x20]);
    assert_eq!(eoi_ports(9), vec![0xA0, 0x20]);
}

#[test]
fn writer_draws_font_glyph() {
    let info = BootInfo {
        framebuffer_base: 0xFD00_0000,
        framebuffer_size: 100 * 100 * 4,
        horizontal_resolution: 100,
        vertical_resolution: 100,
        pixels_per_scanline: 128,
        pixel_format: 1,
        memory_map: 0,
        memory_map_size: 0,
        descriptor_size: 48,
        descriptor_version: 1,
    };
    let mut w = Writer::new(info);
    let ops = w.write_char('A');
    assert_eq!(ops.len(), 64);
    // Row 0 of 'A' in font8x8 is 0x0C: columns 2 and 3 lit.
    assert_eq!(ops[2], DrawOp::Pixel { offset: 2, color: WHITE });
    assert_eq!(ops[0], DrawOp::Pixel { offset: 0, color: 0 });
    // Row 4 is 0x3F: columns 0..6 lit; that row starts at 4 * 128.
    assert_eq!(ops[32], DrawOp::Pixel { offset: 4 * 128, color: WHITE });
    let next = w.write_char('B');
    assert_eq!(next[0], DrawOp::Pixel { offset: 8, color: WHITE });
    assert_eq!(w.write_char('\u{e9}').len(), 0);
}
