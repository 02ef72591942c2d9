//! PCI configuration-space addressing through the legacy 0xCF8/0xCFC ports,
//! and the sub-word views of a configuration dword.
use vstd::prelude::*;

verus! {

/// Configuration address port.
pub const CONFIG_ADDRESS: u16 = 0x0cf8;
/// Configuration data port.
pub const CONFIG_DATA: u16 = 0x0cfc;

/// The enable bit, bus, device, function and dword-aligned register of a configuration access.
pub open spec fn config_address(bus: u8, dev: u8, func: u8, reg: u8) -> u32 {
    0x8000_0000u32 | ((bus as u32) << 16u32) | (((dev & 0x1f) as u32) << 11u32) | (((func & 0x07)
        as u32) << 8u32) | ((reg as u32) & 0xfc)
}

/// The value written to the address port for a configuration access.
pub fn pci_address(bus: u8, dev: u8, func: u8, reg: u8) -> (a: u32)
    ensures
        a == config_address(bus, dev, func, reg),
{
    0x8000_0000u32 | ((bus as u32) << 16u32) | (((dev & 0x1f) as u32) << 11u32) | (((func & 0x07)
        as u32) << 8u32) | ((reg as u32) & 0xfc)
}

/// The 16-bit field at byte `reg` of the dword `value`.
pub fn read_config_u16(value: u32, reg: u8) -> (v: u16)
    ensures
        v == ((value >> (((reg & 2) * 8) as u32)) & 0xffff) as u16,
{
    assert(reg & 2 == 0 || reg & 2 == 2) by (bit_vector);
    let shift = ((reg & 2) * 8) as u32;
    ((value >> shift) & 0xffff) as u16
}

/// The byte at offset `reg` of the dword `value`.
pub fn read_config_u8(value: u32, reg: u8) -> (v: u8)
    ensures
        v == ((value >> (((reg & 3) * 8) as u32)) & 0xff) as u8,
{
    assert(reg & 3 == 0 || reg & 3 == 1 || reg & 3 == 2 || reg & 3 == 3) by (bit_vector);
    let shift = ((reg & 3) * 8) as u32;
    ((value >> shift) & 0xff) as u8
}

/// The dword `current` with the 16-bit field at byte `reg` replaced by `value`.
pub fn write_config_u16(current: u32, reg: u8, value: u16) -> (new: u32)
    ensures
        new == (current & !(0xffffu32 << (((reg & 2) * 8) as u32))) | ((value as u32) << (((reg & 2)
            * 8) as u32)),
        ((new >> (((reg & 2) * 8) as u32)) & 0xffff) as u16 == value,
{
    assert(reg & 2 == 0 || reg & 2 == 2) by (bit_vector);
    let shift = ((reg & 2) * 8) as u32;
    let mask = !(0xffffu32 << shift);
    let new = (current & mask) | ((value as u32) << shift);
    assert(((new >> shift) & 0xffff) as u16 == value) by (bit_vector)
        requires
            shift == 0 || shift == 16,
            new == (current & !(0xffffu32 << shift)) | ((value as u32) << shift),
    ;
    new
}

/// The dword `current` with the byte at offset `reg` replaced by `value`.
pub fn write_config_u8(current: u32, reg: u8, value: u8) -> (new: u32)
    ensures
        new == (current & !(0xffu32 << (((reg & 3) * 8) as u32))) | ((value as u32) << (((reg & 3) * 8)
            as u32)),
        ((new >> (((reg & 3) * 8) as u32)) & 0xff) as u8 == value,
{
    assert(reg & 3 == 0 || reg & 3 == 1 || reg & 3 == 2 || reg & 3 == 3) by (bit_vector);
    let shift = ((reg & 3) * 8) as u32;
    let mask = !(0xffu32 << shift);
    let new = (current & mask) | ((value as u32) << shift);
    assert(((new >> shift) & 0xff) as u8 == value) by (bit_vector)
        requires
            shift == 0 || shift == 8 || shift == 16 || shift == 24,
            new == (current & !(0xffu32 << shift)) | ((value as u32) << shift),
    ;
    new
}

/// The dword-aligned register holding byte `reg`.
pub fn aligned_register(reg: u8) -> (r: u8)
    ensures
        r == reg & !3u8,
{
    reg & !3u8
}

} // verus!
