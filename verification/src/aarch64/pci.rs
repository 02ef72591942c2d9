//! PCIe ECAM addressing for the QEMU `virt` machine. Reading a byte or
//! halfword of configuration space, and merging one into a dword before a
//! write, is the same on both architectures and is shared with x86-64.
use vstd::prelude::*;
pub use crate::x86_64::pci::{read_config_u16, read_config_u8, write_config_u16, write_config_u8};

verus! {

/// Base of the ECAM aperture.
pub const PCIE_ECAM_BASE: u64 = 0x40_1000_0000;
/// Size of the mapped ECAM window.
pub const PCIE_ECAM_SIZE: u64 = 0x0010_0000;

/// Byte offset of a configuration register inside the ECAM aperture.
pub open spec fn ecam_offset_spec(bus: u8, dev: u8, func: u8, reg: u8) -> u64 {
    ((bus as u64) << 20u64) | (((dev & 0x1f) as u64) << 15u64) | (((func & 0x07) as u64)
        << 12u64) | ((reg as u64) & 0xfc)
}

/// Byte offset of a configuration register inside the ECAM aperture.
pub fn ecam_offset(bus: u8, dev: u8, func: u8, reg: u8) -> (o: u64)
    ensures
        o == ecam_offset_spec(bus, dev, func, reg),
        o < 0x1000_0000,
        o % 4 == 0,
{
    let o = ((bus as u64) << 20u64) | (((dev & 0x1f) as u64) << 15u64) | (((func & 0x07) as u64)
        << 12u64) | ((reg as u64) & 0xfc);
    assert(o < 0x1000_0000 && o % 4 == 0) by (bit_vector)
        requires
            o == ((bus as u64) << 20u64) | (((dev & 0x1f) as u64) << 15u64) | (((func & 0x07)
                as u64) << 12u64) | ((reg as u64) & 0xfc),
    ;
    o
}

/// The MMIO address of a configuration dword.
pub fn config_address(bus: u8, dev: u8, func: u8, reg: u8) -> (a: u64)
    ensures
        a == PCIE_ECAM_BASE + ecam_offset_spec(bus, dev, func, reg),
{
    PCIE_ECAM_BASE + ecam_offset(bus, dev, func, reg)
}

} // verus!
