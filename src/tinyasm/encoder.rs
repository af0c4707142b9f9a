//! Machine-code encoding of TinyASM instructions (64-bit operand size).
use vstd::prelude::*;
use crate::tinyasm::registers::Register;

verus! {

#[derive(Clone, Debug, PartialEq, Eq)]
pub enum EncodeError {
    UnsupportedOperand(String),
    InvalidScale(u8),
    InvalidDisplacement(String),
    Other(String),
}

/// `[base + index*scale + disp]`.
#[derive(Clone, Copy, Debug, PartialEq, Eq, Structural)]
pub struct MemoryAddr {
    pub base: Option<Register>,
    pub index: Option<Register>,
    /// 1, 2, 4 or 8.
    pub scale: u8,
    pub disp: i32,
}

#[derive(Clone, Copy, Debug, PartialEq, Eq, Structural)]
pub enum Operand {
    Reg(Register),
    Imm64(u64),
    Imm32(i32),
    Mem(MemoryAddr),
}

#[derive(Clone, Copy, Debug, PartialEq, Eq, Structural)]
pub enum Instruction {
    Mov(Operand, Operand),
    Add(Operand, Operand),
    Sub(Operand, Operand),
    And(Operand, Operand),
    Or(Operand, Operand),
    Xor(Operand, Operand),
    Not(Operand),
    Shl(Operand, Operand),
    Shr(Operand, Operand),
    Mul(Operand),
    Div(Operand),
    Cmp(Operand, Operand),
    Call(Operand),
    Jmp(Operand),
    Syscall,
    Ret,
    Push(Operand),
    Pop(Operand),
}

/// Outcome of an encoding: the bytes emitted, and whether it succeeded or
/// stopped on an unsupported operand or an invalid scale (the bytes emitted
/// before stopping stay).
#[derive(Clone, Copy, Debug, PartialEq, Eq, Structural)]
pub enum Status {
    Done,
    Unsupported,
    BadScale,
}

pub open spec fn ext(r: Option<Register>) -> bool {
    r is Some && r->0.number() >= 8
}

/// The REX prefix for the given W bit and R, X, B registers, left out when
/// it would be a bare `0x40`.
pub open spec fn rex_bytes(w: bool, r: Option<Register>, x: Option<Register>, b: Option<
    Register,
>) -> Seq<u8> {
    let v = 0x40u8 | (if w {
        8u8
    } else {
        0u8
    }) | (if ext(r) {
        4u8
    } else {
        0u8
    }) | (if ext(x) {
        2u8
    } else {
        0u8
    }) | (if ext(b) {
        1u8
    } else {
        0u8
    });
    if v == 0x40u8 {
        Seq::empty()
    } else {
        seq![v]
    }
}

pub open spec fn le32(v: i32) -> Seq<u8> {
    let u = v as u32;
    seq![(u & 0xFF) as u8, ((u >> 8) & 0xFF) as u8, ((u >> 16) & 0xFF) as u8, ((u >> 24) & 0xFF) as u8]
}

pub open spec fn le64(v: u64) -> Seq<u8> {
    seq![
        (v & 0xFF) as u8,
        ((v >> 8) & 0xFF) as u8,
        ((v >> 16) & 0xFF) as u8,
        ((v >> 24) & 0xFF) as u8,
        ((v >> 32) & 0xFF) as u8,
        ((v >> 40) & 0xFF) as u8,
        ((v >> 48) & 0xFF) as u8,
        ((v >> 56) & 0xFF) as u8,
    ]
}

pub open spec fn disp_bytes(disp: i32, size: int) -> Seq<u8> {
    if size == 1 {
        seq![disp as u8]
    } else if size == 4 {
        le32(disp)
    } else {
        Seq::empty()
    }
}

/// Whether a memory operand names a base or an index register.
pub open spec fn mem_well_formed(m: MemoryAddr) -> bool {
    m.base is Some || m.index is Some
}

pub open spec fn uses_sib(m: MemoryAddr) -> bool {
    m.index is Some || m.base == Some(Register::RSP) || m.base == Some(Register::R12)
}

/// `(mod bits, displacement size)` of a memory operand.
pub open spec fn mod_and_disp(m: MemoryAddr) -> (u8, int) {
    if m.disp == 0 && m.base is Some && m.base != Some(Register::RBP) && m.base != Some(
        Register::R13,
    ) {
        (0x00, 0)
    } else if -128 <= m.disp <= 127 {
        (0x01, 1)
    } else {
        (0x10, 4)
    }
}

pub open spec fn scale_bits(s: u8) -> Option<u8> {
    if s == 1 {
        Some(0)
    } else if s == 2 {
        Some(1)
    } else if s == 4 {
        Some(2)
    } else if s == 8 {
        Some(3)
    } else {
        None
    }
}

/// REX prefix of a memory form: W set, R from `reg_ext`, X and B from the
/// index and base.
pub open spec fn mem_rex(reg_ext: bool, m: MemoryAddr) -> u8 {
    0x48u8 | (if reg_ext {
        4u8
    } else {
        0u8
    }) | (if ext(m.base) {
        1u8
    } else {
        0u8
    }) | (if ext(m.index) {
        2u8
    } else {
        0u8
    })
}

pub open spec fn mem_modrm(reg_val: u8, m: MemoryAddr) -> u8 {
    let rm: u8 = if uses_sib(m) {
        4u8
    } else {
        (m.base->0.number() % 8) as u8
    };
    ((mod_and_disp(m).0 << 6u8) | (reg_val << 3u8) | rm) as u8
}

pub open spec fn mem_sib(m: MemoryAddr) -> u8 {
    let index_bits: u8 = if m.index is Some {
        (m.index->0.number() % 8) as u8
    } else {
        4u8
    };
    let base_bits: u8 = if m.base is Some {
        (m.base->0.number() % 8) as u8
    } else {
        5u8
    };
    ((scale_bits(m.scale)->0 << 6u8) | (index_bits << 3u8) | base_bits) as u8
}

/// A memory-operand instruction: REX, opcode, ModRM, SIB when needed, and
/// the displacement.
pub open spec fn mem_form(reg_val: u8, reg_ext: bool, m: MemoryAddr, opcode: u8) -> (Seq<u8>, Status) {
    if uses_sib(m) && scale_bits(m.scale) is None {
        (seq![mem_rex(reg_ext, m)], Status::BadScale)
    } else {
        (
            seq![mem_rex(reg_ext, m), opcode, mem_modrm(reg_val, m)] + (if uses_sib(m) {
                seq![mem_sib(m)]
            } else {
                Seq::empty()
            }) + disp_bytes(m.disp, mod_and_disp(m).1),
            Status::Done,
        )
    }
}

/// `mem_form` followed by `tail` when it succeeds.
pub open spec fn mem_form_then(reg_val: u8, reg_ext: bool, m: MemoryAddr, opcode: u8, tail: Seq<u8>) -> (
    Seq<u8>,
    Status,
) {
    let (b, s) = mem_form(reg_val, reg_ext, m, opcode);
    if s == Status::Done {
        (b + tail, s)
    } else {
        (b, s)
    }
}

pub open spec fn modrm_reg(ext_idx: u8, r: Register) -> u8 {
    (0xC0u8 | (ext_idx << 3u8) | ((r.number() % 8) as u8)) as u8
}

pub open spec fn unsupported() -> (Seq<u8>, Status) {
    (Seq::empty(), Status::Unsupported)
}

/// `CALL` (ext 2, `E8`) and `JMP` (ext 4, `E9`).
pub open spec fn branch_bytes(ext_idx: u8, rel_opcode: u8, op: Operand) -> (Seq<u8>, Status) {
    match op {
        Operand::Reg(r) => (
            (if r.number() >= 8 {
                rex_bytes(false, None, None, Some(r))
            } else {
                Seq::empty()
            }) + seq![0xFFu8, modrm_reg(ext_idx, r)],
            Status::Done,
        ),
        Operand::Mem(m) => mem_form(ext_idx, false, m, 0xFF),
        Operand::Imm32(i) => (seq![rel_opcode] + le32(i), Status::Done),
        _ => unsupported(),
    }
}

pub open spec fn push_bytes(op: Operand) -> (Seq<u8>, Status) {
    match op {
        Operand::Reg(r) => (
            (if r.number() >= 8 {
                rex_bytes(false, None, None, Some(r))
            } else {
                Seq::empty()
            }) + seq![(0x50 + r.number() % 8) as u8],
            Status::Done,
        ),
        Operand::Imm32(i) => (seq![0x68u8] + le32(i), Status::Done),
        Operand::Mem(m) => mem_form(6, false, m, 0xFF),
        _ => unsupported(),
    }
}

pub open spec fn pop_bytes(op: Operand) -> (Seq<u8>, Status) {
    match op {
        Operand::Reg(r) => (
            (if r.number() >= 8 {
                rex_bytes(false, None, None, Some(r))
            } else {
                Seq::empty()
            }) + seq![(0x58 + r.number() % 8) as u8],
            Status::Done,
        ),
        Operand::Mem(m) => mem_form(0, false, m, 0x8F),
        _ => unsupported(),
    }
}

/// A shift of `dst` by `opcode`'s count form, with `tail` after it.
pub open spec fn shift_form(ext_idx: u8, opcode: u8, dst: Operand, tail: Seq<u8>) -> (Seq<u8>, Status) {
    match dst {
        Operand::Reg(r) => (
            rex_bytes(true, None, None, Some(r)) + seq![opcode, modrm_reg(ext_idx, r)] + tail,
            Status::Done,
        ),
        Operand::Mem(m) => mem_form_then(ext_idx, false, m, opcode, tail),
        _ => unsupported(),
    }
}

pub open spec fn shift_bytes(ext_idx: u8, dst: Operand, count: Operand) -> (Seq<u8>, Status) {
    match count {
        Operand::Reg(Register::RCX) => shift_form(ext_idx, 0xD3, dst, Seq::empty()),
        Operand::Imm32(i) => if i == 1 {
            shift_form(ext_idx, 0xD1, dst, Seq::empty())
        } else {
            shift_form(ext_idx, 0xC1, dst, seq![i as u8])
        },
        _ => unsupported(),
    }
}

pub open spec fn unary_bytes(opcode: u8, ext_idx: u8, op: Operand) -> (Seq<u8>, Status) {
    match op {
        Operand::Reg(r) => (
            rex_bytes(true, None, None, Some(r)) + seq![opcode, modrm_reg(ext_idx, r)],
            Status::Done,
        ),
        Operand::Mem(m) => mem_form(ext_idx, false, m, opcode),
        _ => unsupported(),
    }
}

pub open spec fn mov_bytes(dst: Operand, src: Operand) -> (Seq<u8>, Status) {
    match (dst, src) {
        (Operand::Reg(d), Operand::Imm64(i)) => (
            rex_bytes(true, None, None, Some(d)) + seq![(0xB8 + d.number() % 8) as u8] + le64(i),
            Status::Done,
        ),
        (Operand::Reg(d), Operand::Reg(s)) => (
            rex_bytes(true, Some(s), None, Some(d)) + seq![0x89u8, modrm_reg(s.number() % 8, d)],
            Status::Done,
        ),
        (Operand::Reg(d), Operand::Mem(m)) => mem_form(
            (d.number() % 8) as u8,
            d.number() >= 8,
            m,
            0x8B,
        ),
        (Operand::Mem(m), Operand::Reg(s)) => mem_form(
            (s.number() % 8) as u8,
            s.number() >= 8,
            m,
            0x89,
        ),
        (Operand::Reg(d), Operand::Imm32(i)) => (
            rex_bytes(true, None, None, Some(d)) + seq![0xC7u8, modrm_reg(0, d)] + le32(i),
            Status::Done,
        ),
        (Operand::Mem(m), Operand::Imm32(i)) => mem_form_then(0, false, m, 0xC7, le32(i)),
        _ => unsupported(),
    }
}

pub open spec fn fits_i8(i: i32) -> bool {
    -128 <= i <= 127
}

pub open spec fn imm_bytes(i: i32) -> Seq<u8> {
    if fits_i8(i) {
        seq![i as u8]
    } else {
        le32(i)
    }
}

pub open spec fn arith_bytes(op_mr: u8, op_rm: u8, ext_idx: u8, dst: Operand, src: Operand) -> (
    Seq<u8>,
    Status,
) {
    match (dst, src) {
        (Operand::Reg(d), Operand::Reg(s)) => (
            rex_bytes(true, Some(s), None, Some(d)) + seq![op_mr, modrm_reg(s.number() % 8, d)],
            Status::Done,
        ),
        (Operand::Reg(d), Operand::Mem(m)) => mem_form(
            (d.number() % 8) as u8,
            d.number() >= 8,
            m,
            op_rm,
        ),
        (Operand::Mem(m), Operand::Reg(s)) => mem_form(
            (s.number() % 8) as u8,
            s.number() >= 8,
            m,
            op_mr,
        ),
        (Operand::Reg(d), Operand::Imm32(i)) => (
            seq![
                (0x48u8 | (if d.number() >= 8 {
                    1u8
                } else {
                    0u8
                })) as u8,
                if fits_i8(i) {
                    0x83u8
                } else {
                    0x81u8
                },
                modrm_reg(ext_idx, d),
            ] + imm_bytes(i),
            Status::Done,
        ),
        (Operand::Mem(m), Operand::Imm32(i)) => mem_form_then(
            ext_idx,
            false,
            m,
            if fits_i8(i) {
                0x83u8
            } else {
                0x81u8
            },
            imm_bytes(i),
        ),
        _ => unsupported(),
    }
}

/// The bytes an instruction encodes to, and how the encoding ended.
pub open spec fn encoding(instr: Instruction) -> (Seq<u8>, Status) {
    match instr {
        Instruction::Mov(d, s) => mov_bytes(d, s),
        Instruction::Add(d, s) => arith_bytes(0x01, 0x03, 0, d, s),
        Instruction::Sub(d, s) => arith_bytes(0x29, 0x2B, 5, d, s),
        Instruction::And(d, s) => arith_bytes(0x21, 0x23, 4, d, s),
        Instruction::Or(d, s) => arith_bytes(0x09, 0x0B, 1, d, s),
        Instruction::Xor(d, s) => arith_bytes(0x31, 0x33, 6, d, s),
        Instruction::Shl(d, c) => shift_bytes(4, d, c),
        Instruction::Shr(d, c) => shift_bytes(5, d, c),
        Instruction::Not(o) => unary_bytes(0xF7, 2, o),
        Instruction::Mul(o) => unary_bytes(0xF7, 4, o),
        Instruction::Div(o) => unary_bytes(0xF7, 6, o),
        Instruction::Cmp(d, s) => arith_bytes(0x39, 0x3B, 7, d, s),
        Instruction::Call(o) => branch_bytes(2, 0xE8, o),
        Instruction::Jmp(o) => branch_bytes(4, 0xE9, o),
        Instruction::Syscall => (seq![0x0Fu8, 0x05u8], Status::Done),
        Instruction::Ret => (seq![0xC3u8], Status::Done),
        Instruction::Push(o) => push_bytes(o),
        Instruction::Pop(o) => pop_bytes(o),
    }
}

pub open spec fn operand_ok(o: Operand) -> bool {
    o matches Operand::Mem(m) ==> mem_well_formed(m)
}

/// Every memory operand of `instr` names a base or an index.
pub open spec fn instruction_ok(instr: Instruction) -> bool {
    match instr {
        Instruction::Mov(d, s) | Instruction::Add(d, s) | Instruction::Sub(d, s) | Instruction::And(
            d,
            s,
        ) | Instruction::Or(d, s) | Instruction::Xor(d, s) | Instruction::Shl(d, s)
        | Instruction::Shr(d, s) | Instruction::Cmp(d, s) => operand_ok(d) && operand_ok(s),
        Instruction::Not(o) | Instruction::Mul(o) | Instruction::Div(o) | Instruction::Call(o)
        | Instruction::Jmp(o) | Instruction::Push(o) | Instruction::Pop(o) => operand_ok(o),
        Instruction::Syscall | Instruction::Ret => true,
    }
}

/// How a result reports a status.
pub open spec fn reports(r: Result<(), EncodeError>, s: Status) -> bool {
    match s {
        Status::Done => r is Ok,
        Status::Unsupported => r matches Err(EncodeError::UnsupportedOperand(_)),
        Status::BadScale => r matches Err(EncodeError::InvalidScale(_)),
    }
}

fn unsupported_operand(what: &str) -> (r: Result<(), EncodeError>)
    ensures
        r matches Err(EncodeError::UnsupportedOperand(_)),
{
    Err(EncodeError::UnsupportedOperand(what.to_owned()))
}

fn push_le32(bytes: &mut Vec<u8>, v: i32)
    ensures
        final(bytes)@ == old(bytes)@ + le32(v),
{
    let u = v as u32;
    bytes.push((u & 0xFF) as u8);
    bytes.push(((u >> 8) & 0xFF) as u8);
    bytes.push(((u >> 16) & 0xFF) as u8);
    bytes.push(((u >> 24) & 0xFF) as u8);
    assert(bytes@ =~= old(bytes)@ + le32(v));
}

fn push_le64(bytes: &mut Vec<u8>, v: u64)
    ensures
        final(bytes)@ == old(bytes)@ + le64(v),
{
    bytes.push((v & 0xFF) as u8);
    bytes.push(((v >> 8) & 0xFF) as u8);
    bytes.push(((v >> 16) & 0xFF) as u8);
    bytes.push(((v >> 24) & 0xFF) as u8);
    bytes.push(((v >> 32) & 0xFF) as u8);
    bytes.push(((v >> 40) & 0xFF) as u8);
    bytes.push(((v >> 48) & 0xFF) as u8);
    bytes.push(((v >> 56) & 0xFF) as u8);
    assert(bytes@ =~= old(bytes)@ + le64(v));
}

fn opt_ext(r: Option<Register>) -> (b: bool)
    ensures
        b == ext(r),
{
    match r {
        Some(reg) => reg.is_extended(),
        None => false,
    }
}

/// Appends the REX prefix for W and the R, X, B registers, unless it would
/// be a bare `0x40`.
fn encode_rex(
    w: bool,
    r: Option<Register>,
    x: Option<Register>,
    b: Option<Register>,
    bytes: &mut Vec<u8>,
)
    ensures
        final(bytes)@ == old(bytes)@ + rex_bytes(w, r, x, b),
{
    let mut rex: u8 = 0x40;
    if w {
        rex = rex | 0x08;
    }
    if opt_ext(r) {
        rex = rex | 0x04;
    }
    if opt_ext(x) {
        rex = rex | 0x02;
    }
    if opt_ext(b) {
        rex = rex | 0x01;
    }
    proof {
        let ww: u8 = if w { 8u8 } else { 0u8 };
        let rr: u8 = if ext(r) { 4u8 } else { 0u8 };
        let xx: u8 = if ext(x) { 2u8 } else { 0u8 };
        let bb: u8 = if ext(b) { 1u8 } else { 0u8 };
        assert(rex == (0x40u8 | ww | rr | xx | bb)) by {
            assert((0x40u8 | 0u8) == 0x40u8) by (bit_vector);
            assert(forall|a: u8| #[trigger] (a | 0u8) == a) by (bit_vector);
        }
    }
    if rex != 0x40 {
        bytes.push(rex);
    }
    assert(bytes@ =~= old(bytes)@ + rex_bytes(w, r, x, b));
}

fn push_displacement(disp: i32, size: usize, bytes: &mut Vec<u8>)
    ensures
        final(bytes)@ == old(bytes)@ + disp_bytes(disp, size as int),
{
    if size == 1 {
        bytes.push(disp as u8);
        assert(bytes@ =~= old(bytes)@ + disp_bytes(disp, size as int));
    } else if size == 4 {
        push_le32(bytes, disp);
    } else {
        assert(bytes@ =~= old(bytes)@ + disp_bytes(disp, size as int));
    }
}

/// Appends the REX prefix of a memory form and returns the ModRM byte, the
/// SIB byte when one is needed, and the displacement size; fails on a scale
/// other than 1, 2, 4, 8 when a SIB byte is needed.
fn encode_mem_parts(reg_val: u8, reg_ext: bool, mem: MemoryAddr, bytes: &mut Vec<u8>) -> (r: Result<
    (u8, Option<u8>, usize),
    EncodeError,
>)
    requires
        mem_well_formed(mem),
        reg_val < 8,
    ensures
        final(bytes)@ == old(bytes)@.push(mem_rex(reg_ext, mem)),
        uses_sib(mem) && scale_bits(mem.scale) is None ==> r matches Err(EncodeError::InvalidScale(_)),
        !(uses_sib(mem) && scale_bits(mem.scale) is None) ==> r == Ok::<(u8, Option<u8>, usize), EncodeError>((
            mem_modrm(reg_val, mem),
            if uses_sib(mem) {
                Some(mem_sib(mem))
            } else {
                None
            },
            mod_and_disp(mem).1 as usize,
        )),
{
    let mut rex: u8 = 0x48;
    if reg_ext {
        rex = rex | 0x04;
    }
    if opt_ext(mem.base) {
        rex = rex | 0x01;
    }
    if opt_ext(mem.index) {
        rex = rex | 0x02;
    }
    proof {
        let rr: u8 = if reg_ext { 4u8 } else { 0u8 };
        let bb: u8 = if ext(mem.base) { 1u8 } else { 0u8 };
        let xx: u8 = if ext(mem.index) { 2u8 } else { 0u8 };
        assert(forall|a: u8| #[trigger] (a | 0u8) == a) by (bit_vector);
        assert(rex == (0x48u8 | rr | bb | xx));
    }
    bytes.push(rex);
    let is_rbp_or_r13 = match mem.base {
        Some(Register::RBP) | Some(Register::R13) => true,
        _ => false,
    };
    let (mod_bits, disp_size): (u8, usize) = if mem.disp == 0 && mem.base.is_some()
        && !is_rbp_or_r13 {
        (0x00, 0)
    } else if mem.disp >= -128 && mem.disp <= 127 {
        (0x01, 1)
    } else {
        (0x10, 4)
    };
    let use_sib = mem.index.is_some() || mem.base == Some(Register::RSP) || mem.base == Some(
        Register::R12,
    );
    let rm_bits: u8 = if use_sib {
        0x04
    } else {
        match mem.base {
            Some(b) => b.code(),
            None => 0,
        }
    };
    let modrm: u8 = (mod_bits << 6) | (reg_val << 3) | rm_bits;
    if use_sib {
        let scale_bits: u8 = match mem.scale {
            1 => 0,
            2 => 1,
            4 => 2,
            8 => 3,
            _ => {
                return Err(EncodeError::InvalidScale(mem.scale));
            },
        };
        let index_bits: u8 = match mem.index {
            Some(r) => r.code(),
            None => 0x04,
        };
        let base_bits: u8 = match mem.base {
            Some(r) => r.code(),
            None => 0x05,
        };
        let sib: u8 = (scale_bits << 6) | (index_bits << 3) | base_bits;
        Ok((modrm, Some(sib), disp_size))
    } else {
        Ok((modrm, None, disp_size))
    }
}

/// Emits a memory-operand instruction: REX, `opcode`, ModRM, SIB and
/// displacement.
fn encode_mem_operand(reg_val: u8, reg_ext: bool, mem: MemoryAddr, opcode: u8, bytes: &mut Vec<u8>) -> (r:
    Result<(), EncodeError>)
    requires
        mem_well_formed(mem),
        reg_val < 8,
    ensures
        final(bytes)@ == old(bytes)@ + mem_form(reg_val, reg_ext, mem, opcode).0,
        reports(r, mem_form(reg_val, reg_ext, mem, opcode).1),
{
    let (modrm, sib, disp_size) = match encode_mem_parts(reg_val, reg_ext, mem, bytes) {
        Ok(p) => p,
        Err(e) => {
            assert(bytes@ =~= old(bytes)@ + mem_form(reg_val, reg_ext, mem, opcode).0);
            return Err(e);
        },
    };
    bytes.push(opcode);
    bytes.push(modrm);
    let ghost mid = bytes@;
    if let Some(s) = sib {
        bytes.push(s);
    }
    let ghost mid2 = bytes@;
    push_displacement(mem.disp, disp_size, bytes);
    assert(bytes@ =~= old(bytes)@ + mem_form(reg_val, reg_ext, mem, opcode).0);
    Ok(())
}

fn encode_reg_modrm(opcode: u8, ext_idx: u8, reg: Register, bytes: &mut Vec<u8>)
    requires
        ext_idx < 8,
    ensures
        final(bytes)@ == old(bytes)@ + seq![opcode, modrm_reg(ext_idx, reg)],
{
    bytes.push(opcode);
    bytes.push(0xC0 | (ext_idx << 3) | reg.code());
    assert(bytes@ =~= old(bytes)@ + seq![opcode, modrm_reg(ext_idx, reg)]);
}

fn encode_call(op: Operand, bytes: &mut Vec<u8>) -> (r: Result<(), EncodeError>)
    requires
        operand_ok(op),
    ensures
        final(bytes)@ == old(bytes)@ + branch_bytes(2, 0xE8, op).0,
        reports(r, branch_bytes(2, 0xE8, op).1),
{
    encode_branch(2, 0xE8, op, bytes)
}

fn encode_jmp(op: Operand, bytes: &mut Vec<u8>) -> (r: Result<(), EncodeError>)
    requires
        operand_ok(op),
    ensures
        final(bytes)@ == old(bytes)@ + branch_bytes(4, 0xE9, op).0,
        reports(r, branch_bytes(4, 0xE9, op).1),
{
    encode_branch(4, 0xE9, op, bytes)
}

/// `CALL`/`JMP`: `FF /ext` on a register or memory, `rel_opcode rel32` on an
/// immediate.
fn encode_branch(ext_idx: u8, rel_opcode: u8, op: Operand, bytes: &mut Vec<u8>) -> (r: Result<(), EncodeError>)
    requires
        operand_ok(op),
        ext_idx < 8,
    ensures
        final(bytes)@ == old(bytes)@ + branch_bytes(ext_idx, rel_opcode, op).0,
        reports(r, branch_bytes(ext_idx, rel_opcode, op).1),
{
    match op {
        Operand::Reg(reg) => {
            if reg.is_extended() {
                encode_rex(false, None, None, Some(reg), bytes);
            }
            let ghost mid = bytes@;
            encode_reg_modrm(0xFF, ext_idx, reg, bytes);
            assert(bytes@ =~= old(bytes)@ + branch_bytes(ext_idx, rel_opcode, op).0);
            Ok(())
        },
        Operand::Mem(mem) => encode_mem_operand(ext_idx, false, mem, 0xFF, bytes),
        Operand::Imm32(imm) => {
            bytes.push(rel_opcode);
            push_le32(bytes, imm);
            assert(bytes@ =~= old(bytes)@ + branch_bytes(ext_idx, rel_opcode, op).0);
            Ok(())
        },
        _ => {
            assert(bytes@ =~= old(bytes)@ + branch_bytes(ext_idx, rel_opcode, op).0);
            unsupported_operand("branch operand")
        },
    }
}

fn encode_push(op: Operand, bytes: &mut Vec<u8>) -> (r: Result<(), EncodeError>)
    requires
        operand_ok(op),
    ensures
        final(bytes)@ == old(bytes)@ + push_bytes(op).0,
        reports(r, push_bytes(op).1),
{
    match op {
        Operand::Reg(reg) => {
            if reg.is_extended() {
                encode_rex(false, None, None, Some(reg), bytes);
            }
            bytes.push(0x50 + reg.code());
            assert(bytes@ =~= old(bytes)@ + push_bytes(op).0);
            Ok(())
        },
        Operand::Imm32(imm) => {
            bytes.push(0x68);
            push_le32(bytes, imm);
            assert(bytes@ =~= old(bytes)@ + push_bytes(op).0);
            Ok(())
        },
        Operand::Mem(mem) => encode_mem_operand(6, false, mem, 0xFF, bytes),
        _ => {
            assert(bytes@ =~= old(bytes)@ + push_bytes(op).0);
            unsupported_operand("PUSH operand")
        },
    }
}

fn encode_pop(op: Operand, bytes: &mut Vec<u8>) -> (r: Result<(), EncodeError>)
    requires
        operand_ok(op),
    ensures
        final(bytes)@ == old(bytes)@ + pop_bytes(op).0,
        reports(r, pop_bytes(op).1),
{
    match op {
        Operand::Reg(reg) => {
            if reg.is_extended() {
                encode_rex(false, None, None, Some(reg), bytes);
            }
            bytes.push(0x58 + reg.code());
            assert(bytes@ =~= old(bytes)@ + pop_bytes(op).0);
            Ok(())
        },
        Operand::Mem(mem) => encode_mem_operand(0, false, mem, 0x8F, bytes),
        _ => {
            assert(bytes@ =~= old(bytes)@ + pop_bytes(op).0);
            unsupported_operand("POP operand")
        },
    }
}

/// One shift form: `opcode /ext` on `dst`, then `tail` (an imm8 or nothing).
fn encode_shift_form(ext_idx: u8, opcode: u8, dst: Operand, tail: &Vec<u8>, bytes: &mut Vec<u8>) -> (r:
    Result<(), EncodeError>)
    requires
        operand_ok(dst),
        ext_idx < 8,
    ensures
        final(bytes)@ == old(bytes)@ + shift_form(ext_idx, opcode, dst, tail@).0,
        reports(r, shift_form(ext_idx, opcode, dst, tail@).1),
{
    match dst {
        Operand::Reg(reg) => {
            encode_rex(true, None, None, Some(reg), bytes);
            encode_reg_modrm(opcode, ext_idx, reg, bytes);
            let mut t = tail.clone();
            bytes.append(&mut t);
            assert(bytes@ =~= old(bytes)@ + shift_form(ext_idx, opcode, dst, tail@).0);
            Ok(())
        },
        Operand::Mem(mem) => {
            let r = encode_mem_operand(ext_idx, false, mem, opcode, bytes);
            if r.is_ok() {
                let mut t = tail.clone();
                bytes.append(&mut t);
            }
            assert(bytes@ =~= old(bytes)@ + shift_form(ext_idx, opcode, dst, tail@).0);
            r
        },
        _ => {
            assert(bytes@ =~= old(bytes)@ + shift_form(ext_idx, opcode, dst, tail@).0);
            unsupported_operand("shift destination")
        },
    }
}

fn encode_shift(ext_idx: u8, dst: Operand, count: Operand, bytes: &mut Vec<u8>) -> (r: Result<(), EncodeError>)
    requires
        operand_ok(dst),
        ext_idx < 8,
    ensures
        final(bytes)@ == old(bytes)@ + shift_bytes(ext_idx, dst, count).0,
        reports(r, shift_bytes(ext_idx, dst, count).1),
{
    match count {
        Operand::Reg(Register::RCX) => {
            let tail: Vec<u8> = Vec::new();
            encode_shift_form(ext_idx, 0xD3, dst, &tail, bytes)
        },
        Operand::Imm32(imm) => {
            if imm == 1 {
                let tail: Vec<u8> = Vec::new();
                encode_shift_form(ext_idx, 0xD1, dst, &tail, bytes)
            } else {
                let mut tail: Vec<u8> = Vec::new();
                tail.push(imm as u8);
                encode_shift_form(ext_idx, 0xC1, dst, &tail, bytes)
            }
        },
        _ => {
            assert(bytes@ =~= old(bytes)@ + shift_bytes(ext_idx, dst, count).0);
            unsupported_operand("shift count")
        },
    }
}

fn encode_unary(opcode: u8, ext_idx: u8, op: Operand, bytes: &mut Vec<u8>) -> (r: Result<(), EncodeError>)
    requires
        operand_ok(op),
        ext_idx < 8,
    ensures
        final(bytes)@ == old(bytes)@ + unary_bytes(opcode, ext_idx, op).0,
        reports(r, unary_bytes(opcode, ext_idx, op).1),
{
    match op {
        Operand::Reg(reg) => {
            encode_rex(true, None, None, Some(reg), bytes);
            encode_reg_modrm(opcode, ext_idx, reg, bytes);
            assert(bytes@ =~= old(bytes)@ + unary_bytes(opcode, ext_idx, op).0);
            Ok(())
        },
        Operand::Mem(mem) => encode_mem_operand(ext_idx, false, mem, opcode, bytes),
        _ => {
            assert(bytes@ =~= old(bytes)@ + unary_bytes(opcode, ext_idx, op).0);
            unsupported_operand("unary operand")
        },
    }
}

fn encode_mov(dst: Operand, src: Operand, bytes: &mut Vec<u8>) -> (r: Result<(), EncodeError>)
    requires
        operand_ok(dst),
        operand_ok(src),
    ensures
        final(bytes)@ == old(bytes)@ + mov_bytes(dst, src).0,
        reports(r, mov_bytes(dst, src).1),
{
    match (dst, src) {
        (Operand::Reg(dst_reg), Operand::Imm64(imm)) => {
            encode_rex(true, None, None, Some(dst_reg), bytes);
            bytes.push(0xB8 + dst_reg.code());
            push_le64(bytes, imm);
            assert(bytes@ =~= old(bytes)@ + mov_bytes(dst, src).0);
            Ok(())
        },
        (Operand::Reg(dst_reg), Operand::Reg(src_reg)) => {
            encode_rex(true, Some(src_reg), None, Some(dst_reg), bytes);
            encode_reg_modrm(0x89, src_reg.code(), dst_reg, bytes);
            assert(bytes@ =~= old(bytes)@ + mov_bytes(dst, src).0);
            Ok(())
        },
        (Operand::Reg(dst_reg), Operand::Mem(mem)) => encode_mem_operand(
            dst_reg.code(),
            dst_reg.is_extended(),
            mem,
            0x8B,
            bytes,
        ),
        (Operand::Mem(mem), Operand::Reg(src_reg)) => encode_mem_operand(
            src_reg.code(),
            src_reg.is_extended(),
            mem,
            0x89,
            bytes,
        ),
        (Operand::Reg(dst_reg), Operand::Imm32(imm)) => {
            encode_rex(true, None, None, Some(dst_reg), bytes);
            encode_reg_modrm(0xC7, 0, dst_reg, bytes);
            push_le32(bytes, imm);
            assert(bytes@ =~= old(bytes)@ + mov_bytes(dst, src).0);
            Ok(())
        },
        (Operand::Mem(mem), Operand::Imm32(imm)) => {
            let r = encode_mem_operand(0, false, mem, 0xC7, bytes);
            if r.is_ok() {
                push_le32(bytes, imm);
            }
            assert(bytes@ =~= old(bytes)@ + mov_bytes(dst, src).0);
            r
        },
        _ => {
            assert(bytes@ =~= old(bytes)@ + mov_bytes(dst, src).0);
            unsupported_operand("MOV operands")
        },
    }
}

fn push_imm(imm: i32, bytes: &mut Vec<u8>)
    ensures
        final(bytes)@ == old(bytes)@ + imm_bytes(imm),
{
    if imm >= -128 && imm <= 127 {
        bytes.push(imm as u8);
        assert(bytes@ =~= old(bytes)@ + imm_bytes(imm));
    } else {
        push_le32(bytes, imm);
    }
}

/// The two-operand ALU forms: `op_mr` (r/m, r), `op_rm` (r, r/m), and
/// `83`/`81 /ext` with an 8- or 32-bit immediate.
fn encode_arithmetic(
    op_mr: u8,
    op_rm: u8,
    ext_idx: u8,
    dst: Operand,
    src: Operand,
    bytes: &mut Vec<u8>,
) -> (r: Result<(), EncodeError>)
    requires
        operand_ok(dst),
        operand_ok(src),
        ext_idx < 8,
    ensures
        final(bytes)@ == old(bytes)@ + arith_bytes(op_mr, op_rm, ext_idx, dst, src).0,
        reports(r, arith_bytes(op_mr, op_rm, ext_idx, dst, src).1),
{
    match (dst, src) {
        (Operand::Reg(dst_reg), Operand::Reg(src_reg)) => {
            encode_rex(true, Some(src_reg), None, Some(dst_reg), bytes);
            encode_reg_modrm(op_mr, src_reg.code(), dst_reg, bytes);
            assert(bytes@ =~= old(bytes)@ + arith_bytes(op_mr, op_rm, ext_idx, dst, src).0);
            Ok(())
        },
        (Operand::Reg(dst_reg), Operand::Mem(mem)) => encode_mem_operand(
            dst_reg.code(),
            dst_reg.is_extended(),
            mem,
            op_rm,
            bytes,
        ),
        (Operand::Mem(mem), Operand::Reg(src_reg)) => encode_mem_operand(
            src_reg.code(),
            src_reg.is_extended(),
            mem,
            op_mr,
            bytes,
        ),
        (Operand::Reg(dst_reg), Operand::Imm32(imm)) => {
            let opcode: u8 = if imm >= -128 && imm <= 127 {
                0x83
            } else {
                0x81
            };
            let mut rex: u8 = 0x48;
            if dst_reg.is_extended() {
                rex = rex | 0x01;
            }
            proof {
                assert((0x48u8 | 0u8) == 0x48u8) by (bit_vector);
            }
            bytes.push(rex);
            encode_reg_modrm(opcode, ext_idx, dst_reg, bytes);
            push_imm(imm, bytes);
            assert(bytes@ =~= old(bytes)@ + arith_bytes(op_mr, op_rm, ext_idx, dst, src).0);
            Ok(())
        },
        (Operand::Mem(mem), Operand::Imm32(imm)) => {
            let opcode: u8 = if imm >= -128 && imm <= 127 {
                0x83
            } else {
                0x81
            };
            let r = encode_mem_operand(ext_idx, false, mem, opcode, bytes);
            if r.is_ok() {
                push_imm(imm, bytes);
            }
            assert(bytes@ =~= old(bytes)@ + arith_bytes(op_mr, op_rm, ext_idx, dst, src).0);
            r
        },
        _ => {
            assert(bytes@ =~= old(bytes)@ + arith_bytes(op_mr, op_rm, ext_idx, dst, src).0);
            unsupported_operand("arithmetic operands")
        },
    }
}

/// Appends the machine code of `instr` to `bytes`. On an error the bytes
/// emitted before it stay.
pub fn encode_instruction(instr: Instruction, bytes: &mut Vec<u8>) -> (r: Result<(), EncodeError>)
    requires
        instruction_ok(instr),
    ensures
        final(bytes)@ == old(bytes)@ + encoding(instr).0,
        reports(r, encoding(instr).1),
{
    match instr {
        Instruction::Mov(dst, src) => encode_mov(dst, src, bytes),
        Instruction::Add(dst, src) => encode_arithmetic(0x01, 0x03, 0, dst, src, bytes),
        Instruction::Sub(dst, src) => encode_arithmetic(0x29, 0x2B, 5, dst, src, bytes),
        Instruction::And(dst, src) => encode_arithmetic(0x21, 0x23, 4, dst, src, bytes),
        Instruction::Or(dst, src) => encode_arithmetic(0x09, 0x0B, 1, dst, src, bytes),
        Instruction::Xor(dst, src) => encode_arithmetic(0x31, 0x33, 6, dst, src, bytes),
        Instruction::Shl(dst, count) => encode_shift(4, dst, count, bytes),
        Instruction::Shr(dst, count) => encode_shift(5, dst, count, bytes),
        Instruction::Not(op) => encode_unary(0xF7, 2, op, bytes),
        Instruction::Mul(op) => encode_unary(0xF7, 4, op, bytes),
        Instruction::Div(op) => encode_unary(0xF7, 6, op, bytes),
        Instruction::Cmp(dst, src) => encode_arithmetic(0x39, 0x3B, 7, dst, src, bytes),
        Instruction::Call(op) => encode_call(op, bytes),
        Instruction::Jmp(op) => encode_jmp(op, bytes),
        Instruction::Syscall => {
            bytes.push(0x0F);
            bytes.push(0x05);
            assert(bytes@ =~= old(bytes)@ + encoding(instr).0);
            Ok(())
        },
        Instruction::Ret => {
            bytes.push(0xC3);
            assert(bytes@ =~= old(bytes)@ + encoding(instr).0);
            Ok(())
        },
        Instruction::Push(op) => encode_push(op, bytes),
        Instruction::Pop(op) => encode_pop(op, bytes),
    }
}

} // verus!
