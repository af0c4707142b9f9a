//! One line of TinyASM text to an instruction: `mnemonic [operand[, operand]]`,
//! mnemonics and registers in any letter case, immediates in decimal or
//! `0x` hexadecimal. Whitespace is ASCII whitespace.
use vstd::prelude::*;
use vstd::string::StringSliceAdditionalSpecFns;
use crate::tinyasm::encoder::{Instruction, Operand};
use crate::tinyasm::registers::Register;

verus! {

pub open spec fn is_space(b: u8) -> bool {
    b == 0x20 || (0x09 <= b && b <= 0x0D)
}

pub open spec fn lower(b: u8) -> u8 {
    if 0x41 <= b && b <= 0x5A {
        (b + 32) as u8
    } else {
        b
    }
}

/// `s[lo..hi]` equals `word` up to ASCII letter case.
pub open spec fn same_word(s: Seq<u8>, lo: int, hi: int, word: Seq<u8>) -> bool {
    &&& hi - lo == word.len()
    &&& forall|i: int| 0 <= i < word.len() ==> lower(#[trigger] s[lo + i]) == lower(word[i])
}

/// First index at or after `i` (below `hi`) that is not whitespace.
pub open spec fn skip_space(s: Seq<u8>, i: int, hi: int) -> int
    decreases hi - i,
{
    if i < hi && is_space(s[i]) {
        skip_space(s, i + 1, hi)
    } else {
        i
    }
}

/// End of `s[lo..j]` with trailing whitespace removed.
pub open spec fn back_space(s: Seq<u8>, lo: int, j: int) -> int
    decreases j - lo,
{
    if j > lo && is_space(s[j - 1]) {
        back_space(s, lo, j - 1)
    } else {
        j
    }
}

/// First index at or after `i` (below `hi`) holding a byte `pred` accepts
/// (whitespace when `comma` is false, `,` when it is true), or `hi`.
pub open spec fn find_from(s: Seq<u8>, i: int, hi: int, comma: bool) -> int
    decreases hi - i,
{
    if i >= hi {
        hi
    } else if (comma && s[i] == 0x2C) || (!comma && is_space(s[i])) {
        i
    } else {
        find_from(s, i + 1, hi, comma)
    }
}

/// `s[lo..hi]` with surrounding whitespace removed, as a range.
pub open spec fn trim(s: Seq<u8>, lo: int, hi: int) -> (int, int) {
    let a = skip_space(s, lo, hi);
    (a, back_space(s, a, hi))
}

pub open spec fn digit_of(b: u8, radix: u64) -> Option<u64> {
    if 0x30 <= b && b <= 0x39 && ((b - 0x30) as u64) < radix {
        Some((b - 0x30) as u64)
    } else if radix == 16 && 0x61 <= b && b <= 0x66 {
        Some((b - 0x61 + 10) as u64)
    } else if radix == 16 && 0x41 <= b && b <= 0x46 {
        Some((b - 0x41 + 10) as u64)
    } else {
        None
    }
}

pub open spec fn all_digits(s: Seq<u8>, lo: int, hi: int, radix: u64) -> bool {
    forall|i: int| lo <= i < hi ==> (#[trigger] digit_of(s[i], radix)) is Some
}

/// Value of the digits `s[lo..hi]`.
pub open spec fn digits_value(s: Seq<u8>, lo: int, hi: int, radix: u64) -> int
    decreases hi - lo,
{
    if hi <= lo {
        0
    } else {
        digits_value(s, lo, hi - 1, radix) * radix + digit_of(s[hi - 1], radix)->0
    }
}

/// The number `s[lo..hi]` spells in `radix` if it is a non-empty run of
/// digits whose value is at most `limit`.
pub open spec fn number(s: Seq<u8>, lo: int, hi: int, radix: u64, limit: u64) -> Option<u64> {
    if lo < hi && all_digits(s, lo, hi, radix) && digits_value(s, lo, hi, radix) <= limit {
        Some(digits_value(s, lo, hi, radix) as u64)
    } else {
        None
    }
}

/// `u64` in hexadecimal, with an optional leading `+`.
pub open spec fn hex_u64(s: Seq<u8>, lo: int, hi: int) -> Option<u64> {
    let start = if lo < hi && s[lo] == 0x2B {
        lo + 1
    } else {
        lo
    };
    number(s, start, hi, 16, u64::MAX)
}

/// `i64` in decimal, with an optional leading `+` or `-`.
pub open spec fn dec_i64(s: Seq<u8>, lo: int, hi: int) -> Option<i64> {
    let negative = lo < hi && s[lo] == 0x2D;
    let start = if lo < hi && (s[lo] == 0x2D || s[lo] == 0x2B) {
        lo + 1
    } else {
        lo
    };
    let limit: u64 = if negative {
        0x8000_0000_0000_0000u64
    } else {
        0x7FFF_FFFF_FFFF_FFFFu64
    };
    let n = number(s, start, hi, 10, limit);
    if n is None {
        None
    } else if negative {
        Some((0 - n->0) as i64)
    } else {
        Some(n->0 as i64)
    }
}

pub open spec fn register_name(r: Register) -> Seq<u8> {
    match r {
        Register::RAX => seq![0x72u8, 0x61, 0x78],
        Register::RCX => seq![0x72u8, 0x63, 0x78],
        Register::RDX => seq![0x72u8, 0x64, 0x78],
        Register::RBX => seq![0x72u8, 0x62, 0x78],
        Register::RSP => seq![0x72u8, 0x73, 0x70],
        Register::RBP => seq![0x72u8, 0x62, 0x70],
        Register::RSI => seq![0x72u8, 0x73, 0x69],
        Register::RDI => seq![0x72u8, 0x64, 0x69],
        Register::R8 => seq![0x72u8, 0x38],
        Register::R9 => seq![0x72u8, 0x39],
        Register::R10 => seq![0x72u8, 0x31, 0x30],
        Register::R11 => seq![0x72u8, 0x31, 0x31],
        Register::R12 => seq![0x72u8, 0x31, 0x32],
        Register::R13 => seq![0x72u8, 0x31, 0x33],
        Register::R14 => seq![0x72u8, 0x31, 0x34],
        Register::R15 => seq![0x72u8, 0x31, 0x35],
    }
}

/// The register `s[lo..hi]` names, ignoring case.
pub open spec fn register_of(s: Seq<u8>, lo: int, hi: int) -> Option<Register> {
    if exists|r: Register| same_word(s, lo, hi, register_name(r)) {
        Some(choose|r: Register| same_word(s, lo, hi, register_name(r)))
    } else {
        None
    }
}

/// The operand `s[lo..hi]` spells: a register, `0x`/`0X` and a hexadecimal
/// `u64`, or a decimal `i64` (an `Imm32` when it fits in 32 bits).
pub open spec fn operand_of(s: Seq<u8>, lo: int, hi: int) -> Option<Operand> {
    if lo >= hi {
        None
    } else if register_of(s, lo, hi) is Some {
        Some(Operand::Reg(register_of(s, lo, hi)->0))
    } else if hi - lo >= 2 && s[lo] == 0x30 && (s[lo + 1] == 0x78 || s[lo + 1] == 0x58) {
        match hex_u64(s, lo + 2, hi) {
            Some(v) => Some(Operand::Imm64(v)),
            None => None,
        }
    } else {
        match dec_i64(s, lo, hi) {
            Some(v) => if i32::MIN <= v <= i32::MAX {
                Some(Operand::Imm32(v as i32))
            } else {
                Some(Operand::Imm64(v as u64))
            },
            None => None,
        }
    }
}

/// The instruction a mnemonic range and an operand range spell.
pub open spec fn instruction_of(s: Seq<u8>, mlo: int, mhi: int, lo: int, hi: int) -> Option<Instruction> {
    if same_word(s, mlo, mhi, seq![0x73u8, 0x79, 0x73, 0x63, 0x61, 0x6C, 0x6C]) {
        Some(Instruction::Syscall)
    } else if same_word(s, mlo, mhi, seq![0x6Eu8, 0x6F, 0x74]) {
        match operand_of(s, lo, hi) {
            Some(o) => Some(Instruction::Not(o)),
            None => None,
        }
    } else if same_word(s, mlo, mhi, seq![0x6Du8, 0x75, 0x6C]) {
        match operand_of(s, lo, hi) {
            Some(o) => Some(Instruction::Mul(o)),
            None => None,
        }
    } else if same_word(s, mlo, mhi, seq![0x64u8, 0x69, 0x76]) {
        match operand_of(s, lo, hi) {
            Some(o) => Some(Instruction::Div(o)),
            None => None,
        }
    } else {
        let c = find_from(s, lo, hi, true);
        let (a1, b1) = trim(s, lo, c);
        let (a2, b2) = trim(s, c + 1, hi);
        if c >= hi || find_from(s, c + 1, hi, true) < hi {
            None
        } else {
            match (operand_of(s, a1, b1), operand_of(s, a2, b2)) {
                (Some(d), Some(x)) => two_operand(s, mlo, mhi, d, x),
                _ => None,
            }
        }
    }
}

pub open spec fn two_operand(s: Seq<u8>, mlo: int, mhi: int, d: Operand, x: Operand) -> Option<Instruction> {
    if same_word(s, mlo, mhi, seq![0x6Du8, 0x6F, 0x76]) {
        Some(Instruction::Mov(d, x))
    } else if same_word(s, mlo, mhi, seq![0x61u8, 0x64, 0x64]) {
        Some(Instruction::Add(d, x))
    } else if same_word(s, mlo, mhi, seq![0x73u8, 0x75, 0x62]) {
        Some(Instruction::Sub(d, x))
    } else if same_word(s, mlo, mhi, seq![0x61u8, 0x6E, 0x64]) {
        Some(Instruction::And(d, x))
    } else if same_word(s, mlo, mhi, seq![0x6Fu8, 0x72]) {
        Some(Instruction::Or(d, x))
    } else if same_word(s, mlo, mhi, seq![0x78u8, 0x6F, 0x72]) {
        Some(Instruction::Xor(d, x))
    } else if same_word(s, mlo, mhi, seq![0x73u8, 0x68, 0x6C]) {
        Some(Instruction::Shl(d, x))
    } else if same_word(s, mlo, mhi, seq![0x73u8, 0x68, 0x72]) {
        Some(Instruction::Shr(d, x))
    } else {
        None
    }
}

/// The instruction a line spells: trimmed, split at its first whitespace
/// into mnemonic and operands.
pub open spec fn parse(s: Seq<u8>) -> Option<Instruction> {
    let (lo, hi) = trim(s, 0, s.len() as int);
    let m = find_from(s, lo, hi, false);
    let (ra, rb) = if m < hi {
        trim(s, m + 1, hi)
    } else {
        (hi, hi)
    };
    if lo >= hi {
        None
    } else {
        instruction_of(s, lo, m, ra, rb)
    }
}

proof fn lemma_skip_space(s: Seq<u8>, i: int, hi: int)
    requires
        i <= hi,
    ensures
        i <= skip_space(s, i, hi) <= hi,
    decreases hi - i,
{
    if i < hi && is_space(s[i]) {
        lemma_skip_space(s, i + 1, hi);
    }
}

proof fn lemma_back_space(s: Seq<u8>, lo: int, j: int)
    requires
        lo <= j,
    ensures
        lo <= back_space(s, lo, j) <= j,
    decreases j - lo,
{
    if j > lo && is_space(s[j - 1]) {
        lemma_back_space(s, lo, j - 1);
    }
}

proof fn lemma_find_from(s: Seq<u8>, i: int, hi: int, comma: bool)
    requires
        i <= hi,
    ensures
        i <= find_from(s, i, hi, comma) <= hi,
    decreases hi - i,
{
    if i < hi && !((comma && s[i] == 0x2C) || (!comma && is_space(s[i]))) {
        lemma_find_from(s, i + 1, hi, comma);
    }
}

fn is_space_byte(b: u8) -> (r: bool)
    ensures
        r == is_space(b),
{
    b == 0x20 || (0x09 <= b && b <= 0x0D)
}

fn lower_byte(b: u8) -> (r: u8)
    ensures
        r == lower(b),
{
    if 0x41 <= b && b <= 0x5A {
        b + 32
    } else {
        b
    }
}

fn skip_space_from(s: &[u8], i: usize, hi: usize) -> (r: usize)
    requires
        i <= hi <= s@.len(),
    ensures
        r == skip_space(s@, i as int, hi as int),
        i <= r <= hi,
{
    let mut j = i;
    proof {
        lemma_skip_space(s@, i as int, hi as int);
    }
    while j < hi && is_space_byte(s[j])
        invariant
            i <= j <= hi <= s@.len(),
            skip_space(s@, j as int, hi as int) == skip_space(s@, i as int, hi as int),
        decreases hi - j,
    {
        j = j + 1;
    }
    j
}

fn back_space_to(s: &[u8], lo: usize, hi: usize) -> (r: usize)
    requires
        lo <= hi <= s@.len(),
    ensures
        r == back_space(s@, lo as int, hi as int),
        lo <= r <= hi,
{
    let mut j = hi;
    proof {
        lemma_back_space(s@, lo as int, hi as int);
    }
    while j > lo && is_space_byte(s[j - 1])
        invariant
            lo <= j <= hi <= s@.len(),
            back_space(s@, lo as int, j as int) == back_space(s@, lo as int, hi as int),
        decreases j,
    {
        j = j - 1;
    }
    j
}

fn trim_range(s: &[u8], lo: usize, hi: usize) -> (r: (usize, usize))
    requires
        lo <= hi <= s@.len(),
    ensures
        (r.0 as int, r.1 as int) == trim(s@, lo as int, hi as int),
        lo <= r.0 <= r.1 <= hi,
{
    let a = skip_space_from(s, lo, hi);
    let b = back_space_to(s, a, hi);
    (a, b)
}

fn find_byte(s: &[u8], i: usize, hi: usize, comma: bool) -> (r: usize)
    requires
        i <= hi <= s@.len(),
    ensures
        r == find_from(s@, i as int, hi as int, comma),
        i <= r <= hi,
{
    let mut j = i;
    proof {
        lemma_find_from(s@, i as int, hi as int, comma);
    }
    while j < hi && !((comma && s[j] == 0x2C) || (!comma && is_space_byte(s[j])))
        invariant
            i <= j <= hi <= s@.len(),
            find_from(s@, j as int, hi as int, comma) == find_from(s@, i as int, hi as int, comma),
        decreases hi - j,
    {
        j = j + 1;
    }
    j
}

/// Whether `s[lo..hi]` is `w` up to letter case.
fn matches_word(s: &[u8], lo: usize, hi: usize, w: &[u8]) -> (r: bool)
    requires
        lo <= hi <= s@.len(),
    ensures
        r == same_word(s@, lo as int, hi as int, w@),
{
    if hi - lo != w.len() {
        return false;
    }
    let mut i: usize = 0;
    while i < w.len()
        invariant
            hi - lo == w@.len(),
            lo <= hi <= s@.len(),
            i <= w@.len(),
            forall|k: int| 0 <= k < i ==> lower(#[trigger] s@[lo + k]) == lower(w@[k]),
        decreases w@.len() - i,
    {
        if lower_byte(s[lo + i]) != lower_byte(w[i]) {
            return false;
        }
        i = i + 1;
    }
    true
}

fn digit_value(b: u8, radix: u64) -> (r: Option<u64>)
    ensures
        r == digit_of(b, radix),
{
    if 0x30 <= b && b <= 0x39 && ((b - 0x30) as u64) < radix {
        Some((b - 0x30) as u64)
    } else if radix == 16 && 0x61 <= b && b <= 0x66 {
        Some((b - 0x61 + 10) as u64)
    } else if radix == 16 && 0x41 <= b && b <= 0x46 {
        Some((b - 0x41 + 10) as u64)
    } else {
        None
    }
}

proof fn lemma_value_grows(s: Seq<u8>, lo: int, j: int, hi: int, radix: u64)
    requires
        lo <= j <= hi,
        radix == 10 || radix == 16,
        all_digits(s, lo, hi, radix),
    ensures
        digits_value(s, lo, hi, radix) >= digits_value(s, lo, j, radix),
        digits_value(s, lo, j, radix) >= 0,
    decreases hi - lo,
{
    if hi > j {
        lemma_value_grows(s, lo, j, hi - 1, radix);
        let v = digits_value(s, lo, hi - 1, radix);
        assert(v * radix >= v) by (nonlinear_arith)
            requires
                v >= 0,
                radix >= 1,
        ;
    } else if j > lo {
        lemma_value_grows(s, lo, j - 1, j - 1, radix);
        let v = digits_value(s, lo, j - 1, radix);
        assert(v * radix >= 0) by (nonlinear_arith)
            requires
                v >= 0,
                radix >= 1,
        ;
    }
}

/// The number `s[lo..hi]` spells in `radix` (10 or 16), if it is a
/// non-empty run of digits of value at most `limit`.
fn parse_digits(s: &[u8], lo: usize, hi: usize, radix: u64, limit: u64) -> (r: Option<u64>)
    requires
        lo <= hi <= s@.len(),
        radix == 10 || radix == 16,
    ensures
        r == number(s@, lo as int, hi as int, radix, limit),
        r matches Some(v) ==> v <= limit,
{
    if lo >= hi {
        return None;
    }
    let mut acc: u64 = 0;
    let mut i = lo;
    while i < hi
        invariant
            lo <= i <= hi <= s@.len(),
            radix == 10 || radix == 16,
            all_digits(s@, lo as int, i as int, radix),
            acc == digits_value(s@, lo as int, i as int, radix),
            acc <= limit,
        decreases hi - i,
    {
        let d = match digit_value(s[i], radix) {
            Some(d) => d,
            None => {
                return None;
            },
        };
        assert(d < radix);
        if d > limit || acc > (limit - d) / radix {
            proof {
                if d <= limit {
                    let m: int = (limit - d) as int;
                    let rr: int = radix as int;
                    let q: int = m / rr;
                    let rem: int = m % rr;
                    vstd::arithmetic::div_mod::lemma_fundamental_div_mod(m, rr);
                    vstd::arithmetic::div_mod::lemma_mod_pos_bound(m, rr);
                    let a: int = acc as int;
                    assert(a * rr + d > limit) by (nonlinear_arith)
                        requires
                            a >= q + 1,
                            m == rr * q + rem,
                            rem < rr,
                            rr > 0,
                            m == limit - d,
                    ;
                } else {
                    let a: int = acc as int;
                    let rr: int = radix as int;
                    assert(a * rr + d > limit) by (nonlinear_arith)
                        requires
                            a >= 0,
                            d > limit,
                            rr > 0,
                    ;
                }
                assert(digits_value(s@, lo as int, i + 1, radix) > limit);
                if all_digits(s@, lo as int, hi as int, radix) {
                    lemma_value_grows(s@, lo as int, i + 1, hi as int, radix);
                }
            }
            return None;
        }
        proof {
            let m: int = (limit - d) as int;
            let rr: int = radix as int;
            let q: int = m / rr;
            let rem: int = m % rr;
            vstd::arithmetic::div_mod::lemma_fundamental_div_mod(m, rr);
            vstd::arithmetic::div_mod::lemma_mod_pos_bound(m, rr);
            let a: int = acc as int;
            assert(a * rr + d <= limit) by (nonlinear_arith)
                requires
                    a <= q,
                    m == rr * q + rem,
                    rem >= 0,
                    rr > 0,
                    m == limit - d,
            ;
        }
        acc = acc * radix + d;
        i = i + 1;
    }
    Some(acc)
}

fn parse_hex(s: &[u8], lo: usize, hi: usize) -> (r: Option<u64>)
    requires
        lo <= hi <= s@.len(),
    ensures
        r == hex_u64(s@, lo as int, hi as int),
{
    let start = if lo < hi && s[lo] == 0x2B {
        lo + 1
    } else {
        lo
    };
    parse_digits(s, start, hi, 16, u64::MAX)
}

fn parse_decimal(s: &[u8], lo: usize, hi: usize) -> (r: Option<i64>)
    requires
        lo <= hi <= s@.len(),
    ensures
        r == dec_i64(s@, lo as int, hi as int),
{
    if lo < hi && s[lo] == 0x2D {
        match parse_digits(s, lo + 1, hi, 10, 0x8000_0000_0000_0000) {
            Some(v) => {
                assert(v <= 0x8000_0000_0000_0000u64);
                if v == 0x8000_0000_0000_0000 {
                    Some(i64::MIN)
                } else {
                    let w = v as i64;
                    assert(w == v);
                    Some(-w)
                }
            },
            None => None,
        }
    } else {
        let start = if lo < hi && s[lo] == 0x2B {
            lo + 1
        } else {
            lo
        };
        match parse_digits(s, start, hi, 10, 0x7FFF_FFFF_FFFF_FFFF) {
            Some(v) => {
                assert(v <= 0x7FFF_FFFF_FFFF_FFFFu64);
                Some(v as i64)
            },
            None => None,
        }
    }
}

proof fn lemma_names_distinct(s: Seq<u8>, lo: int, hi: int, r: Register)
    requires
        same_word(s, lo, hi, register_name(r)),
    ensures
        register_of(s, lo, hi) == Some(r),
{
    let c = choose|x: Register| same_word(s, lo, hi, register_name(x));
    let a = register_name(r);
    let b = register_name(c);
    assert(a.len() == b.len());
    assert forall|i: int| 0 <= i < a.len() implies lower(a[i]) == lower(b[i]) by {
        assert(lower(s[lo + i]) == lower(a[i]));
        assert(lower(s[lo + i]) == lower(b[i]));
    }
    assert(lower(a[1]) == lower(b[1]));
    if a.len() == 3 {
        assert(lower(a[2]) == lower(b[2]));
    }
}

fn parse_register(s: &[u8], lo: usize, hi: usize) -> (r: Option<Register>)
    requires
        lo <= hi <= s@.len(),
    ensures
        r == register_of(s@, lo as int, hi as int),
{
    if matches_word(s, lo, hi, &[0x72, 0x61, 0x78]) {
        proof {
            lemma_names_distinct(s@, lo as int, hi as int, Register::RAX);
        }
        return Some(Register::RAX);
    }
    if matches_word(s, lo, hi, &[0x72, 0x63, 0x78]) {
        proof {
            lemma_names_distinct(s@, lo as int, hi as int, Register::RCX);
        }
        return Some(Register::RCX);
    }
    if matches_word(s, lo, hi, &[0x72, 0x64, 0x78]) {
        proof {
            lemma_names_distinct(s@, lo as int, hi as int, Register::RDX);
        }
        return Some(Register::RDX);
    }
    if matches_word(s, lo, hi, &[0x72, 0x62, 0x78]) {
        proof {
            lemma_names_distinct(s@, lo as int, hi as int, Register::RBX);
        }
        return Some(Register::RBX);
    }
    if matches_word(s, lo, hi, &[0x72, 0x73, 0x70]) {
        proof {
            lemma_names_distinct(s@, lo as int, hi as int, Register::RSP);
        }
        return Some(Register::RSP);
    }
    if matches_word(s, lo, hi, &[0x72, 0x62, 0x70]) {
        proof {
            lemma_names_distinct(s@, lo as int, hi as int, Register::RBP);
        }
        return Some(Register::RBP);
    }
    if matches_word(s, lo, hi, &[0x72, 0x73, 0x69]) {
        proof {
            lemma_names_distinct(s@, lo as int, hi as int, Register::RSI);
        }
        return Some(Register::RSI);
    }
    if matches_word(s, lo, hi, &[0x72, 0x64, 0x69]) {
        proof {
            lemma_names_distinct(s@, lo as int, hi as int, Register::RDI);
        }
        return Some(Register::RDI);
    }
    if matches_word(s, lo, hi, &[0x72, 0x38]) {
        proof {
            lemma_names_distinct(s@, lo as int, hi as int, Register::R8);
        }
        return Some(Register::R8);
    }
    if matches_word(s, lo, hi, &[0x72, 0x39]) {
        proof {
            lemma_names_distinct(s@, lo as int, hi as int, Register::R9);
        }
        return Some(Register::R9);
    }
    if matches_word(s, lo, hi, &[0x72, 0x31, 0x30]) {
        proof {
            lemma_names_distinct(s@, lo as int, hi as int, Register::R10);
        }
        return Some(Register::R10);
    }
    if matches_word(s, lo, hi, &[0x72, 0x31, 0x31]) {
        proof {
            lemma_names_distinct(s@, lo as int, hi as int, Register::R11);
        }
        return Some(Register::R11);
    }
    if matches_word(s, lo, hi, &[0x72, 0x31, 0x32]) {
        proof {
            lemma_names_distinct(s@, lo as int, hi as int, Register::R12);
        }
        return Some(Register::R12);
    }
    if matches_word(s, lo, hi, &[0x72, 0x31, 0x33]) {
        proof {
            lemma_names_distinct(s@, lo as int, hi as int, Register::R13);
        }
        return Some(Register::R13);
    }
    if matches_word(s, lo, hi, &[0x72, 0x31, 0x34]) {
        proof {
            lemma_names_distinct(s@, lo as int, hi as int, Register::R14);
        }
        return Some(Register::R14);
    }
    if matches_word(s, lo, hi, &[0x72, 0x31, 0x35]) {
        proof {
            lemma_names_distinct(s@, lo as int, hi as int, Register::R15);
        }
        return Some(Register::R15);
    }
    proof {
        assert forall|x: Register| !same_word(s@, lo as int, hi as int, #[trigger] register_name(x)) by {
            match x {
                _ => {},
            }
        }
    }
    None
}

/// Parses one operand (already trimmed).
fn parse_operand(s: &[u8], lo: usize, hi: usize) -> (r: Option<Operand>)
    requires
        lo <= hi <= s@.len(),
    ensures
        r == operand_of(s@, lo as int, hi as int),
{
    if lo >= hi {
        return None;
    }
    if let Some(reg) = parse_register(s, lo, hi) {
        return Some(Operand::Reg(reg));
    }
    if hi - lo >= 2 && s[lo] == 0x30 && (s[lo + 1] == 0x78 || s[lo + 1] == 0x58) {
        return match parse_hex(s, lo + 2, hi) {
            Some(v) => Some(Operand::Imm64(v)),
            None => None,
        };
    }
    match parse_decimal(s, lo, hi) {
        Some(v) => {
            if v >= i32::MIN as i64 && v <= i32::MAX as i64 {
                Some(Operand::Imm32(v as i32))
            } else {
                Some(Operand::Imm64(v as u64))
            }
        },
        None => None,
    }
}

fn is_word(s: &[u8], lo: usize, hi: usize, w: &[u8]) -> (r: bool)
    requires
        lo <= hi <= s@.len(),
    ensures
        r == same_word(s@, lo as int, hi as int, w@),
{
    matches_word(s, lo, hi, w)
}

/// Parses a line of TinyASM; `None` when it is empty or malformed.
pub fn parse_instruction(input: &str) -> (r: Option<Instruction>)
    ensures
        r == parse(input.spec_bytes()),
{
    let s = input.as_bytes();
    let n = s.len();
    let (lo, hi) = trim_range(s, 0, n);
    let m = find_byte(s, lo, hi, false);
    let (ra, rb) = if m < hi {
        trim_range(s, m + 1, hi)
    } else {
        (hi, hi)
    };
    if lo >= hi {
        return None;
    }
    assert(s@ == input.spec_bytes());
    if is_word(s, lo, m, &[0x73, 0x79, 0x73, 0x63, 0x61, 0x6C, 0x6C]) {
        return Some(Instruction::Syscall);
    }
    if is_word(s, lo, m, &[0x6E, 0x6F, 0x74]) {
        return match parse_operand(s, ra, rb) {
            Some(o) => Some(Instruction::Not(o)),
            None => None,
        };
    }
    if is_word(s, lo, m, &[0x6D, 0x75, 0x6C]) {
        return match parse_operand(s, ra, rb) {
            Some(o) => Some(Instruction::Mul(o)),
            None => None,
        };
    }
    if is_word(s, lo, m, &[0x64, 0x69, 0x76]) {
        return match parse_operand(s, ra, rb) {
            Some(o) => Some(Instruction::Div(o)),
            None => None,
        };
    }
    let c = find_byte(s, ra, rb, true);
    if c >= rb {
        return None;
    }
    if find_byte(s, c + 1, rb, true) < rb {
        return None;
    }
    let (a1, b1) = trim_range(s, ra, c);
    let (a2, b2) = trim_range(s, c + 1, rb);
    let dst = match parse_operand(s, a1, b1) {
        Some(o) => o,
        None => {
            return None;
        },
    };
    let src = match parse_operand(s, a2, b2) {
        Some(o) => o,
        None => {
            return None;
        },
    };
    if is_word(s, lo, m, &[0x6D, 0x6F, 0x76]) {
        Some(Instruction::Mov(dst, src))
    } else if is_word(s, lo, m, &[0x61, 0x64, 0x64]) {
        Some(Instruction::Add(dst, src))
    } else if is_word(s, lo, m, &[0x73, 0x75, 0x62]) {
        Some(Instruction::Sub(dst, src))
    } else if is_word(s, lo, m, &[0x61, 0x6E, 0x64]) {
        Some(Instruction::And(dst, src))
    } else if is_word(s, lo, m, &[0x6F, 0x72]) {
        Some(Instruction::Or(dst, src))
    } else if is_word(s, lo, m, &[0x78, 0x6F, 0x72]) {
        Some(Instruction::Xor(dst, src))
    } else if is_word(s, lo, m, &[0x73, 0x68, 0x6C]) {
        Some(Instruction::Shl(dst, src))
    } else if is_word(s, lo, m, &[0x73, 0x68, 0x72]) {
        Some(Instruction::Shr(dst, src))
    } else {
        None
    }
}

} // verus!
