//! Encodings of the FinnOS-owned x86-64 Global Descriptor Table.
use vstd::prelude::*;

verus! {

/// Number of 8-byte GDT entries: null, kernel code, kernel data, the two TSS
/// halves, and two spare entries.
pub const GDT_ENTRIES: usize = 8;
/// Segment selector for the kernel code descriptor.
pub const KERNEL_CODE_SELECTOR: u16 = 0x08;
/// Segment selector for the kernel data descriptor.
pub const KERNEL_DATA_SELECTOR: u16 = 0x10;
/// Segment selector for the TSS descriptor.
pub const TSS_SELECTOR: u16 = 0x18;
/// Access byte of the kernel code descriptor: present, ring 0, executable, readable.
pub const KERNEL_CODE_ACCESS: u8 = 0x9a;
/// Flags nibble of the kernel code descriptor: 64-bit long mode.
pub const KERNEL_CODE_FLAGS: u8 = 0xa;
/// Access byte of the kernel data descriptor: present, ring 0, writable data.
pub const KERNEL_DATA_ACCESS: u8 = 0x92;
/// Access byte of an available 64-bit TSS.
pub const TSS_ACCESS: u64 = 0x89;

/// The packed descriptor for `base`, `limit`, `access` and the `flags` nibble.
pub open spec fn descriptor_bits(base: u32, limit: u32, access: u8, flags: u8) -> u64 {
    ((limit & 0xffff) as u64) | (((base & 0x00ff_ffff) as u64) << 16u64) | ((access as u64)
        << 40u64) | ((((limit >> 16u32) as u64) & 0xf) << 48u64) | (((flags & 0xf) as u64)
        << 52u64) | ((((base >> 24u32) as u64) & 0xff) << 56u64)
}

/// Encode a 64-bit code or data segment descriptor.
pub fn encode_descriptor(base: u32, limit: u32, access: u8, flags: u8) -> (d: u64)
    ensures
        d == descriptor_bits(base, limit, access, flags),
        (d >> 40u64) as u8 == access,
        (d >> 52u64) & 0xf == (flags & 0xf) as u64,
{
    let descriptor = ((limit & 0xffff) as u64) | (((base & 0x00ff_ffff) as u64) << 16u64) | ((
    access as u64) << 40u64) | ((((limit >> 16u32) as u64) & 0xf) << 48u64) | (((flags & 0xf)
        as u64) << 52u64) | ((((base >> 24u32) as u64) & 0xff) << 56u64);
    assert((descriptor >> 40u64) as u8 == access && (descriptor >> 52u64) & 0xf == (flags
        & 0xf) as u64) by (bit_vector)
        requires
            descriptor == ((limit & 0xffff) as u64) | (((base & 0x00ff_ffff) as u64) << 16u64) | ((
            access as u64) << 40u64) | ((((limit >> 16u32) as u64) & 0xf) << 48u64) | (((flags
                & 0xf) as u64) << 52u64) | ((((base >> 24u32) as u64) & 0xff) << 56u64),
    ;
    descriptor
}

/// Encode a 64-bit kernel code descriptor (present, ring 0, readable, long mode).
pub fn kernel_code_descriptor() -> (d: u64)
    ensures
        d == descriptor_bits(0, 0xfffff, KERNEL_CODE_ACCESS, KERNEL_CODE_FLAGS),
        (d >> 40u64) as u8 == KERNEL_CODE_ACCESS,
        (d >> 52u64) & 0xf == KERNEL_CODE_FLAGS as u64,
{
    assert((0xau8 & 0xf) as u64 == 0xau64) by (bit_vector);
    encode_descriptor(0, 0xfffff, KERNEL_CODE_ACCESS, KERNEL_CODE_FLAGS)
}

/// Encode a 64-bit kernel data descriptor (present, ring 0, writable).
pub fn kernel_data_descriptor() -> (d: u64)
    ensures
        d == descriptor_bits(0, 0xfffff, KERNEL_DATA_ACCESS, 0),
        (d >> 40u64) as u8 == KERNEL_DATA_ACCESS,
{
    encode_descriptor(0, 0xfffff, KERNEL_DATA_ACCESS, 0)
}

/// The low half of an available 64-bit TSS descriptor.
pub open spec fn tss_low_bits(tss_base: u64, tss_limit: u32) -> u64 {
    let base = tss_base as u32;
    let limit = tss_limit & 0x000f_ffff;
    ((limit & 0xffff) as u64) | (((base & 0x00ff_ffff) as u64) << 16u64) | (TSS_ACCESS << 40u64)
        | ((((limit >> 16u32) & 0xf) as u64) << 48u64) | (((base >> 24u32) as u64) << 56u64)
}

/// Encode the low half of a 64-bit available TSS descriptor.
pub fn tss_descriptor_low(tss_base: u64, tss_limit: u32) -> (d: u64)
    ensures
        d == tss_low_bits(tss_base, tss_limit),
        (d >> 40u64) as u8 == TSS_ACCESS as u8,
{
    let base = tss_base as u32;
    let limit = tss_limit & 0x000f_ffff;
    let mut descriptor: u64 = (limit & 0xffff) as u64;
    descriptor = descriptor | (((base & 0x00ff_ffff) as u64) << 16u64);
    descriptor = descriptor | (TSS_ACCESS << 40u64);
    descriptor = descriptor | ((((limit >> 16u32) & 0xf) as u64) << 48u64);
    descriptor = descriptor | (((base >> 24u32) as u64) << 56u64);
    assert((descriptor >> 40u64) as u8 == 0x89u8) by (bit_vector)
        requires
            descriptor == ((limit & 0xffff) as u64) | (((base & 0x00ff_ffff) as u64) << 16u64) | (
            0x89u64 << 40u64) | ((((limit >> 16u32) & 0xf) as u64) << 48u64) | (((base
                >> 24u32) as u64) << 56u64),
    ;
    descriptor
}

/// Encode the high half of a 64-bit available TSS descriptor.
pub fn tss_descriptor_high(tss_base: u64) -> (d: u64)
    ensures
        d == tss_base >> 32u64,
{
    tss_base >> 32u64
}

/// Base address recovered from the two TSS descriptor halves.
pub open spec fn decoded_tss_base(low: u64, high: u64) -> u64 {
    ((low >> 16u64) & 0x00ff_ffff) | (((low >> 56u64) & 0xff) << 24u64) | (high << 32u64)
}

/// Limit recovered from the low TSS descriptor half.
pub open spec fn decoded_tss_limit(low: u64) -> u32 {
    ((low & 0xffff) as u32) | ((((low >> 48u64) & 0xf) as u32) << 16u32)
}

/// The two TSS descriptor halves give back the base and the 20-bit limit they encode.
pub proof fn lemma_tss_descriptor_round_trip(tss_base: u64, tss_limit: u32)
    ensures
        decoded_tss_base(tss_low_bits(tss_base, tss_limit), tss_base >> 32u64) == tss_base,
        decoded_tss_limit(tss_low_bits(tss_base, tss_limit)) == tss_limit & 0x000f_ffff,
{
    let low = tss_low_bits(tss_base, tss_limit);
    let base = tss_base as u32;
    let limit = tss_limit & 0x000f_ffff;
    assert(low == ((limit & 0xffff) as u64) | (((base & 0x00ff_ffff) as u64) << 16u64) | (0x89u64
        << 40u64) | ((((limit >> 16u32) & 0xf) as u64) << 48u64) | (((base >> 24u32) as u64)
        << 56u64));
    assert(((low >> 16u64) & 0x00ff_ffff) | (((low >> 56u64) & 0xff) << 24u64) | ((tss_base
        >> 32u64) << 32u64) == tss_base) by (bit_vector)
        requires
            base == tss_base as u32,
            limit == tss_limit & 0x000f_ffff,
            low == ((limit & 0xffff) as u64) | (((base & 0x00ff_ffff) as u64) << 16u64) | (0x89u64
                << 40u64) | ((((limit >> 16u32) & 0xf) as u64) << 48u64) | (((base >> 24u32)
                as u64) << 56u64),
    ;
    assert(((low & 0xffff) as u32) | ((((low >> 48u64) & 0xf) as u32) << 16u32) == tss_limit
        & 0x000f_ffff) by (bit_vector)
        requires
            base == tss_base as u32,
            limit == tss_limit & 0x000f_ffff,
            low == ((limit & 0xffff) as u64) | (((base & 0x00ff_ffff) as u64) << 16u64) | (0x89u64
                << 40u64) | ((((limit >> 16u32) & 0xf) as u64) << 48u64) | (((base >> 24u32)
                as u64) << 56u64),
    ;
}

/// Segment selector for a GDT index and requested privilege level.
pub fn selector(index: u16, rpl: u8) -> (s: u16)
    ensures
        s == ((index << 3u16) | ((rpl as u16) & 0x3)),
{
    (index << 3u16) | ((rpl as u16) & 0x3)
}

/// The selector of a ring-0 entry is eight times its index, when the index fits.
pub proof fn lemma_selector_is_index_times_eight(index: u16)
    requires
        index < 0x2000,
    ensures
        (index << 3u16) | ((0u8 as u16) & 0x3) == index * 8,
{
    assert((index << 3u16) | ((0u8 as u16) & 0x3) == index * 8) by (bit_vector)
        requires
            index < 0x2000,
    ;
}

} // verus!
