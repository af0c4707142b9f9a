use kernel::tinyasm::encoder::{encode_instruction, EncodeError, Instruction, MemoryAddr, Operand};
use kernel::tinyasm::registers::Register;

#[test]
fn test_encode_cmp() {
    let mut bytes = Vec::new();
    // CMP RAX, RBX -> 48 39 D8
    encode_instruction(
        Instruction::Cmp(Operand::Reg(Register::RAX), Operand::Reg(Register::RBX)),
        &mut bytes,
    )
    .unwrap();
    assert_eq!(bytes, vec![0x48, 0x39, 0xD8]);

    bytes.clear();
    // CMP RAX, 0x12 -> 48 83 F8 12
    encode_instruction(
        Instruction::Cmp(Operand::Reg(Register::RAX), Operand::Imm32(0x12)),
        &mut bytes,
    )
    .unwrap();
    assert_eq!(bytes, vec![0x48, 0x83, 0xF8, 0x12]);
}

#[test]
fn test_encode_call() {
    let mut bytes = Vec::new();
    // CALL RAX -> FF D0
    encode_instruction(Instruction::Call(Operand::Reg(Register::RAX)), &mut bytes).unwrap();
    assert_eq!(bytes, vec![0xFF, 0xD0]);

    bytes.clear();
    // CALL 0x1234 (relative) -> E8 34 12 00 00
    encode_instruction(Instruction::Call(Operand::Imm32(0x1234)), &mut bytes).unwrap();
    assert_eq!(bytes, vec![0xE8, 0x34, 0x12, 0x00, 0x00]);
}

#[test]
fn test_encode_jmp() {
    let mut bytes = Vec::new();
    // JMP RAX -> FF E0
    encode_instruction(Instruction::Jmp(Operand::Reg(Register::RAX)), &mut bytes).unwrap();
    assert_eq!(bytes, vec![0xFF, 0xE0]);

    bytes.clear();
    // JMP 0x1234 (relative) -> E9 34 12 00 00
    encode_instruction(Instruction::Jmp(Operand::Imm32(0x1234)), &mut bytes).unwrap();
    assert_eq!(bytes, vec![0xE9, 0x34, 0x12, 0x00, 0x00]);
}

#[test]
fn mov_imm64_to_extended_register() {
    let mut bytes = Vec::new();
    encode_instruction(
        Instruction::Mov(Operand::Reg(Register::R9), Operand::Imm64(0x1122334455667788)),
        &mut bytes,
    )
    .unwrap();
    assert_eq!(bytes, vec![0x49, 0xB9, 0x88, 0x77, 0x66, 0x55, 0x44, 0x33, 0x22, 0x11]);
}

#[test]
fn add_large_immediate_uses_imm32() {
    let mut bytes = Vec::new();
    encode_instruction(
        Instruction::Add(Operand::Reg(Register::RCX), Operand::Imm32(0x1000)),
        &mut bytes,
    )
    .unwrap();
    assert_eq!(bytes, vec![0x48, 0x81, 0xC1, 0x00, 0x10, 0x00, 0x00]);
}

#[test]
fn load_through_rsp_uses_sib() {
    let mut bytes = Vec::new();
    let mem = MemoryAddr { base: Some(Register::RSP), index: None, scale: 1, disp: 8 };
    encode_instruction(Instruction::Mov(Operand::Reg(Register::RAX), Operand::Mem(mem)), &mut bytes)
        .unwrap();
    assert_eq!(bytes, vec![0x48, 0x8B, 0x44, 0x24, 0x08]);
}

#[test]
fn push_pop_syscall_ret() {
    let mut bytes = Vec::new();
    encode_instruction(Instruction::Push(Operand::Reg(Register::R12)), &mut bytes).unwrap();
    encode_instruction(Instruction::Pop(Operand::Reg(Register::RBX)), &mut bytes).unwrap();
    encode_instruction(Instruction::Syscall, &mut bytes).unwrap();
    encode_instruction(Instruction::Ret, &mut bytes).unwrap();
    assert_eq!(bytes, vec![0x41, 0x54, 0x5B, 0x0F, 0x05, 0xC3]);
}

#[test]
fn shifts_by_cl_one_and_imm8() {
    let mut bytes = Vec::new();
    encode_instruction(
        Instruction::Shl(Operand::Reg(Register::RAX), Operand::Reg(Register::RCX)),
        &mut bytes,
    )
    .unwrap();
    encode_instruction(Instruction::Shr(Operand::Reg(Register::RDX), Operand::Imm32(1)), &mut bytes)
        .unwrap();
    encode_instruction(Instruction::Shl(Operand::Reg(Register::RBX), Operand::Imm32(4)), &mut bytes)
        .unwrap();
    assert_eq!(bytes, vec![0x48, 0xD3, 0xE0, 0x48, 0xD1, 0xEA, 0x48, 0xC1, 0xE3, 0x04]);
}

#[test]
fn call_with_imm64_is_unsupported() {
    let mut bytes = Vec::new();
    let r = encode_instruction(Instruction::Call(Operand::Imm64(5)), &mut bytes);
    assert!(matches!(r, Err(EncodeError::UnsupportedOperand(_))));
    assert!(bytes.is_empty());
}

#[test]
fn bad_scale_is_rejected_after_rex() {
    let mut bytes = Vec::new();
    let mem = MemoryAddr { base: Some(Register::RAX), index: Some(Register::RBX), scale: 3, disp: 0 };
    let r = encode_instruction(Instruction::Not(Operand::Mem(mem)), &mut bytes);
    assert_eq!(r, Err(EncodeError::InvalidScale(3)));
    assert_eq!(bytes, vec![0x48]);
}
