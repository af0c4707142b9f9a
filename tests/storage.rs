use kernel::nvme::{
    aqa_value, controller_base, io_command, model_string, CompletionStep, NvmeCQEntry, NvmeQueue,
    NVME_OP_READ,
};
use kernel::shell::Shell;

fn completion(cid: u16, phase: u16) -> NvmeCQEntry {
    NvmeCQEntry { cdw0: 0, reserved: 0, sq_head: 0, sq_id: 1, command_id: cid, status: phase }
}

#[test]
fn queue_doorbells_and_tail_wrap() {
    let mut q = NvmeQueue::new(1, 2, 0xFEB0_0000, 0x1000, 0x2000);
    assert_eq!(q.doorbell_tail, 0xFEB0_1008);
    assert_eq!(q.doorbell_head, 0xFEB0_100C);
    assert_eq!(q.submit_slot(), 0);
    assert_eq!(q.submit_slot(), 1);
    assert_eq!(q.tail, 0);
}

#[test]
fn completion_phase_toggles_on_wrap() {
    let mut q = NvmeQueue::new(0, 2, 0, 0, 0);
    assert_eq!(q.completion_step(&completion(7, 0), 7), CompletionStep::Wait);
    assert_eq!(q.completion_step(&completion(3, 1), 7), CompletionStep::Consumed { head: 1, done: false });
    assert_eq!(q.completion_step(&completion(7, 1), 7), CompletionStep::Consumed { head: 0, done: true });
    assert_eq!(q.phase, 0);
    assert_eq!(q.completion_step(&completion(8, 1), 8), CompletionStep::Wait);
}

#[test]
fn read_command_fields() {
    let c = io_command(NVME_OP_READ, 100, 1, 0x1_0000_0002, 0x8000, 8);
    assert_eq!(c.cdw10, 2);
    assert_eq!(c.cdw11, 1);
    assert_eq!(c.cdw12, 7);
    assert_eq!(c.prp1, 0x8000);
    assert_eq!(aqa_value(64), 0x003F_003F);
    assert_eq!(controller_base(0xFE00_0004, 0), 0xFE00_0000);
    assert_eq!(controller_base(0xFE00_0004, 2), 0x2_FE00_0000);
}

#[test]
fn model_string_trims_trailing_spaces() {
    let mut page = vec![0u8; 4096];
    let model = b"QEMU NVMe Ctrl";
    for i in 0..40 {
        page[24 + i] = if i < model.len() { model[i] } else { b' ' };
    }
    assert_eq!(model_string(&page), model.to_vec());
}

#[test]
fn history_keeps_last_ten_newest_first() {
    let mut sh = Shell::new();
    assert!(sh.get_history(0).is_none());
    for i in 0..12u8 {
        sh.add_history(&[b'a' + i]);
    }
    assert_eq!(sh.history_len(), 10);
    assert_eq!(sh.get_history(0).unwrap(), &vec![b'a' + 11]);
    assert_eq!(sh.get_history(9).unwrap(), &vec![b'a' + 2]);
    assert!(sh.get_history(10).is_none());
    let long = vec![b'x'; 100];
    sh.add_history(&long);
    assert_eq!(sh.get_history(0).unwrap().len(), 64);
}

use kernel::shell::{parse_command, LineEditor, ShellCommand};

#[test]
fn editor_inserts_moves_and_deletes() {
    let sh = Shell::new();
    let mut ed = LineEditor::new();
    assert_eq!(ed.handle_key(b'a', &sh), (vec![b'a'], false));
    assert_eq!(ed.handle_key(b'c', &sh), (vec![b'c'], false));
    assert_eq!(ed.handle_key(0x81, &sh), (vec![0x08], false));
    assert_eq!(ed.handle_key(b'b', &sh), (vec![b'b', b'c', 0x08], false));
    assert_eq!(ed.line(), &b"abc".to_vec());
    assert_eq!(ed.handle_key(0x08, &sh), (vec![0x08, b'c', b' ', 0x08, 0x08], false));
    assert_eq!(ed.line(), &b"ac".to_vec());
    assert_eq!(ed.handle_key(0x0A, &sh), (vec![0x0A], true));
}

#[test]
fn editor_walks_history() {
    let mut sh = Shell::new();
    sh.add_history(b"one");
    sh.add_history(b"two");
    let mut ed = LineEditor::new();
    let (echo, _) = ed.handle_key(0x83, &sh);
    assert_eq!(echo, b"two".to_vec());
    ed.handle_key(0x83, &sh);
    assert_eq!(ed.line(), &b"one".to_vec());
    ed.handle_key(0x83, &sh);
    assert_eq!(ed.line(), &b"one".to_vec());
    ed.handle_key(0x82, &sh);
    assert_eq!(ed.line(), &b"two".to_vec());
    let (echo, _) = ed.handle_key(0x82, &sh);
    assert_eq!(echo, vec![0x08, 0x08, 0x08, b' ', b' ', b' ', 0x08, 0x08, 0x08]);
    assert!(ed.line().is_empty());
}

#[test]
fn shell_commands_by_first_word() {
    assert_eq!(parse_command(b"help"), ShellCommand::Help);
    assert_eq!(parse_command(b"history"), ShellCommand::History);
    assert_eq!(parse_command(b""), ShellCommand::Empty);
    assert_eq!(parse_command(b"HELP"), ShellCommand::Unknown);
}
