//! The 16-byte xHCI Transfer Request Block and its bit fields.
use vstd::prelude::*;

verus! {

pub const TRB_NORMAL: u8 = 1;
pub const TRB_SETUP_STAGE: u8 = 2;
pub const TRB_DATA_STAGE: u8 = 3;
pub const TRB_STATUS_STAGE: u8 = 4;
pub const TRB_LINK: u8 = 6;
pub const TRB_ENABLE_SLOT_COMMAND: u8 = 9;
pub const TRB_ADDRESS_DEVICE_COMMAND: u8 = 11;
pub const TRB_CONFIGURE_ENDPOINT_COMMAND: u8 = 12;
pub const TRB_NOOP_COMMAND: u8 = 23;
pub const TRB_TRANSFER_EVENT: u8 = 32;
pub const TRB_COMMAND_COMPLETION_EVENT: u8 = 33;
pub const TRB_PORT_STATUS_CHANGE_EVENT: u8 = 34;

/// A Transfer Request Block: `param`, `status`, `control`.
#[derive(Clone, Copy, Debug, PartialEq, Eq, Structural)]
pub struct Trb {
    pub param: u64,
    pub status: u32,
    pub control: u32,
}

/// Bit 0 of `control`.
pub open spec fn cycle_of(control: u32) -> bool {
    control & 1 == 1
}

/// Bits 10..15 of `control`.
pub open spec fn type_of(control: u32) -> u32 {
    (control >> 10) & 0x3F
}

impl Trb {
    pub open spec fn zeroed_spec() -> Trb {
        Trb { param: 0, status: 0, control: 0 }
    }

    pub fn zeroed() -> (r: Trb)
        ensures
            r == Trb::zeroed_spec(),
    {
        Trb { param: 0, status: 0, control: 0 }
    }

    pub fn trb_type(&self) -> (r: u8)
        ensures
            r == type_of(self.control),
    {
        let c = self.control;
        assert((c >> 10u32) & 0x3Fu32 < 64) by (bit_vector);
        ((c >> 10) & 0x3F) as u8
    }

    pub fn cycle_bit(&self) -> (r: bool)
        ensures
            r == cycle_of(self.control),
    {
        let c = self.control;
        assert((c & 1u32 != 0) == (c & 1u32 == 1)) by (bit_vector);
        (c & 1) != 0
    }

    pub fn completion_code(&self) -> (r: u8)
        ensures
            r == self.status >> 24,
    {
        let s = self.status;
        assert(s >> 24u32 < 256) by (bit_vector);
        (s >> 24) as u8
    }

    pub fn slot_id(&self) -> (r: u8)
        ensures
            r == self.control >> 24,
    {
        let c = self.control;
        assert(c >> 24u32 < 256) by (bit_vector);
        (c >> 24) as u8
    }
}

} // verus!
