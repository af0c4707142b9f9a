use kernel::tinyasm::encoder::{encode_instruction, Instruction, Operand};
use kernel::tinyasm::parser::parse_instruction;
use kernel::tinyasm::registers::Register;

#[test]
fn parses_two_operand_forms() {
    assert_eq!(
        parse_instruction("  MOV rax, 0x10 "),
        Some(Instruction::Mov(Operand::Reg(Register::RAX), Operand::Imm64(0x10)))
    );
    assert_eq!(
        parse_instruction("add RBX,-5"),
        Some(Instruction::Add(Operand::Reg(Register::RBX), Operand::Imm32(-5)))
    );
    assert_eq!(
        parse_instruction("shl r12 , rcx"),
        Some(Instruction::Shl(Operand::Reg(Register::R12), Operand::Reg(Register::RCX)))
    );
    assert_eq!(
        parse_instruction("mov r8, 99999999999"),
        Some(Instruction::Mov(Operand::Reg(Register::R8), Operand::Imm64(99999999999)))
    );
}

#[test]
fn parses_one_and_zero_operand_forms() {
    assert_eq!(parse_instruction("syscall"), Some(Instruction::Syscall));
    assert_eq!(parse_instruction("Not r9"), Some(Instruction::Not(Operand::Reg(Register::R9))));
    assert_eq!(parse_instruction("div\trdi"), Some(Instruction::Div(Operand::Reg(Register::RDI))));
}

#[test]
fn rejects_malformed_lines() {
    assert_eq!(parse_instruction(""), None);
    assert_eq!(parse_instruction("   "), None);
    assert_eq!(parse_instruction("mov rax"), None);
    assert_eq!(parse_instruction("mov rax, 1, 2"), None);
    assert_eq!(parse_instruction("jmp rax"), None);
    assert_eq!(parse_instruction("mov rax, 0xZZ"), None);
    assert_eq!(parse_instruction("mov rax, 0x1FFFFFFFFFFFFFFFF"), None);
    assert_eq!(parse_instruction("mov rbx, -"), None);
}

#[test]
fn parsed_line_encodes() {
    let mut bytes = Vec::new();
    let i = parse_instruction("xor rax, rax").unwrap();
    encode_instruction(i, &mut bytes).unwrap();
    assert_eq!(bytes, vec![0x48, 0x31, 0xC0]);
}
