//! The sixteen 64-bit general-purpose registers.
use vstd::prelude::*;

verus! {

#[derive(Clone, Copy, Debug, PartialEq, Eq, Structural)]
pub enum Register {
    RAX,
    RCX,
    RDX,
    RBX,
    RSP,
    RBP,
    RSI,
    RDI,
    R8,
    R9,
    R10,
    R11,
    R12,
    R13,
    R14,
    R15,
}

impl Register {
    /// The register's number in the encoding, 0..16.
    pub open spec fn number(self) -> u8 {
        match self {
            Register::RAX => 0,
            Register::RCX => 1,
            Register::RDX => 2,
            Register::RBX => 3,
            Register::RSP => 4,
            Register::RBP => 5,
            Register::RSI => 6,
            Register::RDI => 7,
            Register::R8 => 8,
            Register::R9 => 9,
            Register::R10 => 10,
            Register::R11 => 11,
            Register::R12 => 12,
            Register::R13 => 13,
            Register::R14 => 14,
            Register::R15 => 15,
        }
    }

    /// Low three bits of the register number, as they go in ModRM or SIB.
    pub fn code(&self) -> (r: u8)
        ensures
            r == self.number() % 8,
            r < 8,
    {
        match self {
            Register::RAX | Register::R8 => 0,
            Register::RCX | Register::R9 => 1,
            Register::RDX | Register::R10 => 2,
            Register::RBX | Register::R11 => 3,
            Register::RSP | Register::R12 => 4,
            Register::RBP | Register::R13 => 5,
            Register::RSI | Register::R14 => 6,
            Register::RDI | Register::R15 => 7,
        }
    }

    /// Whether the register needs a REX extension bit (R8..R15).
    pub fn is_extended(&self) -> (r: bool)
        ensures
            r == (self.number() >= 8),
    {
        match self {
            Register::R8 | Register::R9 | Register::R10 | Register::R11 | Register::R12
            | Register::R13 | Register::R14 | Register::R15 => true,
            _ => false,
        }
    }
}

} // verus!
