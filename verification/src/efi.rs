//! Plain data models of the firmware interface tables.
//!
//! Only the pointer-free table and record layouts live here; the
//! protocol tables that carry raw function pointers, and the global
//! access paths to them, are platform glue outside this library.

use vstd::prelude::*;

verus! {

/// Header of a device path node.
pub struct EFIDevicePath {
    ty: u8,
    sub_type: u8,
    len: [u8; 2],
}

/// A globally unique identifier.
#[derive(Clone)]
pub struct GUID {
    data_1: u32,
    data_2: u16,
    data_3: u16,
    data_4: [u8; 8],
}

/// One entry of the firmware memory map.
pub struct EFIMemoryDescriptor {
    /// Kind of the described region.
    pub ty: u32,
    /// Layout padding.
    pub pad: u32,
    /// Physical start address of the region.
    pub physical_start: u64,
    /// Virtual start address of the region.
    pub virtual_start: u64,
    /// Number of pages the region spans.
    pub number_of_pages: u64,
    /// Attribute bits of the region.
    pub attribute: u64,
}

/// Placement policy of a page allocation request.
pub enum EFIAllocateType {
    /// Any available range of pages satisfies the request.
    AllocateAnyPages,
    /// The range may not exceed a given maximum address.
    AllocateMaxAddress,
    /// The range must start at a given address.
    AllocateAddress,
    /// Number of policies; no policy itself.
    MaxAllocateType,
}

/// Kind of memory a region holds.
#[derive(Clone)]
pub enum EFIMemoryType {
    /// Not usable.
    EfiReservedMemoryType,
    /// Code of a loaded application.
    EfiLoaderCode,
    /// Data of a loaded application.
    EfiLoaderData,
    /// Code of a boot-services driver.
    EfiBootServicesCode,
    /// Data of a boot-services driver.
    EfiBootServicesData,
    /// Code of a runtime-services driver.
    EfiRuntimeServicesCode,
    /// Data of a runtime-services driver.
    EfiRuntimeServicesData,
    /// Free usable memory.
    EfiConventionalMemory,
    /// Memory with detected errors.
    EfiUnusableMemory,
    /// Holds ACPI tables, reclaimable after they are read.
    EfiACPIReclaimMemory,
    /// Reserved for firmware ACPI use.
    EfiACPIMemoryNVS,
    /// Memory-mapped device registers.
    EfiMemoryMappedIO,
    /// Memory-mapped port space.
    EfiMemoryMappedIOPortSpace,
    /// Reserved for processor firmware.
    EfiPalCode,
    /// Persistent (non-volatile) memory.
    EfiPersistentMemory,
    /// Memory not yet accepted by the guest.
    EfiUnacceptedMemoryType,
    /// Number of kinds; no kind itself.
    EfiMaxMemoryType,
}

impl Default for EFIMemoryType {
    /// The memory kind assumed for plain data allocations.
    fn default() -> (r: Self)
        ensures
            r == EFIMemoryType::EfiLoaderData,
    {
        EFIMemoryType::EfiLoaderData
    }
}

/// Common header of the firmware service tables.
pub struct TableHeader {
    /// Signature identifying the table.
    pub signature: u64,
    /// Revision of the table layout.
    pub revision: u32,
    /// Size of the whole table in bytes.
    pub header_size: u32,
    /// Checksum over the table.
    pub crc_32: u32,
    /// Reserved, zero.
    pub reserved: u32,
}

/// One keystroke reported by the input service.
pub struct EFIInputKey {
    scan_code: u16,
    unicode_char: u16,
}

/// Cursor and mode state of the text output service.
pub struct SimpleTextOutputMode {
    max_mode: i32,
    mode: i32,
    attribute: i32,
    cursor_column: i32,
    cursor_row: i32,
    cursor_visible: u8,
}

/// Capabilities of the real-time clock.
pub struct EFITimeCapabilities {
    /// Tick resolution in counts per second.
    pub resolution: u32,
    /// Accuracy in parts per million, scaled.
    pub accuracy: u32,
    /// Whether a set operation clears the remainder below the resolution.
    pub sets_to_zero: u8,
}

/// A calendar timestamp of the real-time clock.
pub struct EFITime {
    /// Year.
    pub year: u16,
    /// Month, 1 to 12.
    pub month: u8,
    /// Day, 1 to 31.
    pub day: u8,
    /// Hour, 0 to 23.
    pub hour: u8,
    /// Minute, 0 to 59.
    pub minute: u8,
    /// Second, 0 to 59.
    pub second: u8,
    /// Layout padding.
    pub pad_1: u8,
    /// Nanosecond, 0 to 999999999.
    pub nanosecond: u32,
    /// Offset from UTC in minutes.
    pub timezone: i16,
    /// Daylight-saving flags.
    pub daylight: u8,
    /// Layout padding.
    pub pad_2: u8,
}

/// Kind of system reset requested.
pub enum EFIResetType {
    /// Power cycle.
    EfiResetCold,
    /// Processor reset without a power cycle.
    EfiResetWarm,
    /// Power off.
    EfiResetShutdown,
}

/// Header of an update capsule handed to the firmware.
pub struct EFICapsuleHeader {
    /// Identifier of the capsule format.
    pub capsule_guid: GUID,
    /// Size of this header in bytes.
    pub header_size: u32,
    /// Processing flags.
    pub flags: u32,
    /// Size of the whole capsule image in bytes.
    pub capsule_image_size: u32,
}

} // verus!
