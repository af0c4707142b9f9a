//! The parts of the UEFI interface that the kernel reads after boot: memory
//! descriptors and their type tags, and the boot-info record.
#![allow(non_camel_case_types)]
#![allow(non_snake_case)]
use vstd::prelude::*;

verus! {

pub const EFI_RESERVED_MEMORY_TYPE: u32 = 0;
pub const EFI_LOADER_CODE: u32 = 1;
pub const EFI_LOADER_DATA: u32 = 2;
pub const EFI_BOOT_SERVICES_CODE: u32 = 3;
pub const EFI_BOOT_SERVICES_DATA: u32 = 4;
pub const EFI_RUNTIME_SERVICES_CODE: u32 = 5;
pub const EFI_RUNTIME_SERVICES_DATA: u32 = 6;
pub const EFI_CONVENTIONAL_MEMORY: u32 = 7;
pub const EFI_UNUSABLE_MEMORY: u32 = 8;
pub const EFI_ACPI_RECLAIM_MEMORY: u32 = 9;
pub const EFI_ACPI_MEMORY_NVS: u32 = 10;
pub const EFI_MEMORY_MAPPED_IO: u32 = 11;
pub const EFI_MEMORY_MAPPED_IO_PORT_SPACE: u32 = 12;
pub const EFI_PAL_CODE: u32 = 13;
pub const EFI_PERSISTENT_MEMORY: u32 = 14;

/// One entry of the firmware memory map.
#[derive(Clone, Copy, Debug, PartialEq, Eq, Structural)]
pub struct EFI_MEMORY_DESCRIPTOR {
    pub Type: u32,
    pub PhysicalStart: u64,
    pub VirtualStart: u64,
    pub NumberOfPages: u64,
    pub Attribute: u64,
}

/// What the boot loader hands the kernel. The memory map itself is passed
/// alongside as decoded descriptors.
#[derive(Clone, Copy, Debug, PartialEq, Eq, Structural)]
pub struct BootInfo {
    pub framebuffer_base: u64,
    pub framebuffer_size: usize,
    pub horizontal_resolution: u32,
    pub vertical_resolution: u32,
    pub pixels_per_scanline: u32,
    pub pixel_format: u32,
    /// Physical address of the raw memory map.
    pub memory_map: u64,
    pub memory_map_size: usize,
    pub descriptor_size: usize,
    pub descriptor_version: u32,
}

/// Memory types that the kernel identity-maps.
pub open spec fn identity_mapped_type(t: u32) -> bool {
    1 <= t <= 7 || 9 <= t <= 12
}

/// Whether memory of type `t` is identity-mapped at boot.
pub fn is_identity_mapped(t: u32) -> (r: bool)
    ensures
        r == identity_mapped_type(t),
{
    match t {
        EFI_CONVENTIONAL_MEMORY | EFI_LOADER_CODE | EFI_LOADER_DATA | EFI_BOOT_SERVICES_CODE
        | EFI_BOOT_SERVICES_DATA | EFI_RUNTIME_SERVICES_CODE | EFI_RUNTIME_SERVICES_DATA
        | EFI_ACPI_RECLAIM_MEMORY | EFI_ACPI_MEMORY_NVS | EFI_MEMORY_MAPPED_IO
        | EFI_MEMORY_MAPPED_IO_PORT_SPACE => true,
        _ => false,
    }
}

} // verus!
