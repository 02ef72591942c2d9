//! The architecture-neutral, versioned FinnOS firmware-to-kernel handoff.
use vstd::prelude::*;

verus! {

/// Magic identifying a FinnOS boot-information structure (`FINNOSBI`).
pub const BOOT_INFO_MAGIC: u64 = 0x4649_4E4E_4F53_4249;

/// Version of the C-compatible boot protocol.
pub const BOOT_PROTOCOL_VERSION: u32 = 3;

/// Size and alignment of the loader-owned page containing `BootInfo`.
pub const BOOT_INFO_PAGE_SIZE: u64 = 4096;

/// Size in bytes of the version-three `BootInfo` layout.
pub const BOOT_INFO_STRUCTURE_SIZE: u32 = 128;

/// A framebuffer is present and directly writable.
pub const BOOT_FLAG_FRAMEBUFFER_PRESENT: u64 = 1;

/// A raw UEFI memory map is present.
pub const BOOT_FLAG_MEMORY_MAP_PRESENT: u64 = 2;

/// An ACPI RSDP address is present.
pub const BOOT_FLAG_RSDP_PRESENT: u64 = 4;

/// All presence flags understood by protocol version three.
pub const BOOT_KNOWN_FLAGS: u64 = 7;

/// Smallest UEFI memory descriptor accepted by the kernel.
pub const MIN_DESCRIPTOR_SIZE: u64 = 40;

/// Pixel encodings supported by the initial diagnostic renderer.
///
/// Every firmware-provided bit pattern is a valid value before validation.
#[derive(Clone, Copy, Debug, PartialEq, Eq, Structural)]
pub struct PixelFormat(pub u32);

impl PixelFormat {
    /// RGB byte order.
    pub fn Rgb() -> (format: PixelFormat)
        ensures
            format.0 == 0,
    {
        PixelFormat(0)
    }

    /// BGR byte order.
    pub fn Bgr() -> (format: PixelFormat)
        ensures
            format.0 == 1,
    {
        PixelFormat(1)
    }

    /// UEFI bitmask format, rejected by the kernel renderer.
    pub fn Bitmask() -> (format: PixelFormat)
        ensures
            format.0 == 2,
    {
        PixelFormat(2)
    }

    /// GOP blit-only mode, not directly writable.
    pub fn BltOnly() -> (format: PixelFormat)
        ensures
            format.0 == 3,
    {
        PixelFormat(3)
    }

    /// Unknown or unsupported format.
    pub fn Unknown() -> (format: PixelFormat)
        ensures
            format.0 == 0xffff_ffff,
    {
        PixelFormat(0xffff_ffff)
    }

    /// Construct a pixel format from its wire representation.
    pub fn from_raw(raw: u32) -> (format: PixelFormat)
        ensures
            format.0 == raw,
    {
        PixelFormat(raw)
    }

    /// Return the wire representation.
    pub fn raw(self) -> (raw: u32)
        ensures
            raw == self.0,
    {
        self.0
    }
}

/// A physical address range.
#[derive(Clone, Copy, Debug, Default, PartialEq, Eq, Structural)]
pub struct PhysicalRange {
    /// Start address.
    pub start: u64,
    /// Length in bytes.
    pub byte_len: u64,
}

/// Metadata for the raw UEFI memory-map buffer.
#[derive(Clone, Copy, Debug, Default, PartialEq, Eq, Structural)]
pub struct MemoryMapInfo {
    /// Buffer address.
    pub address: u64,
    /// Buffer length.
    pub byte_len: u64,
    /// Bytes per UEFI descriptor.
    pub descriptor_size: u64,
    /// UEFI descriptor version.
    pub descriptor_version: u32,
    /// Reserved for alignment and future use.
    pub reserved: u32,
}

/// Information needed to write a GOP framebuffer.
#[derive(Clone, Copy, Debug, PartialEq, Eq, Structural)]
pub struct FramebufferInfo {
    /// Framebuffer base address.
    pub address: u64,
    /// Framebuffer capacity in bytes.
    pub byte_len: u64,
    /// Horizontal resolution.
    pub width: u32,
    /// Vertical resolution.
    pub height: u32,
    /// Pixels per scanline.
    pub stride: u32,
    /// Pixel encoding.
    pub pixel_format: PixelFormat,
}

/// The all-zero framebuffer record that stands for "no framebuffer".
pub open spec fn empty_framebuffer() -> FramebufferInfo {
    FramebufferInfo {
        address: 0,
        byte_len: 0,
        width: 0,
        height: 0,
        stride: 0,
        pixel_format: PixelFormat(0),
    }
}

/// The all-zero memory-map record that stands for "no memory map".
pub open spec fn empty_memory_map() -> MemoryMapInfo {
    MemoryMapInfo { address: 0, byte_len: 0, descriptor_size: 0, descriptor_version: 0, reserved: 0 }
}

impl Default for FramebufferInfo {
    fn default() -> (info: FramebufferInfo)
        ensures
            info == empty_framebuffer(),
    {
        FramebufferInfo {
            address: 0,
            byte_len: 0,
            width: 0,
            height: 0,
            stride: 0,
            pixel_format: PixelFormat(0),
        }
    }
}

/// Version-three firmware-to-kernel handoff.
#[derive(Clone, Copy, Debug, PartialEq, Eq, Structural)]
pub struct BootInfo {
    /// Protocol magic.
    pub magic: u64,
    /// Protocol version.
    pub version: u32,
    /// Size of this structure.
    pub structure_size: u32,
    /// Presence flags.
    pub flags: u64,
    /// Raw UEFI memory-map metadata.
    pub memory_map: MemoryMapInfo,
    /// GOP framebuffer metadata.
    pub framebuffer: FramebufferInfo,
    /// Loaded kernel physical range.
    pub kernel_image: PhysicalRange,
    /// `BootInfo` structure physical range (retained by the loader).
    pub boot_info_storage: PhysicalRange,
    /// Physical ACPI RSDP address, if present.
    pub rsdp_address: u64,
}

impl BootInfo {
    /// Create an explicitly empty version-three structure.
    pub fn empty() -> (info: BootInfo)
        ensures
            info.magic == BOOT_INFO_MAGIC,
            info.version == BOOT_PROTOCOL_VERSION,
            info.structure_size == BOOT_INFO_STRUCTURE_SIZE,
            info.flags == 0,
            info.memory_map == empty_memory_map(),
            info.framebuffer == empty_framebuffer(),
            info.kernel_image == (PhysicalRange { start: 0, byte_len: 0 }),
            info.boot_info_storage == (PhysicalRange { start: 0, byte_len: 0 }),
            info.rsdp_address == 0,
    {
        BootInfo {
            magic: BOOT_INFO_MAGIC,
            version: BOOT_PROTOCOL_VERSION,
            structure_size: BOOT_INFO_STRUCTURE_SIZE,
            flags: 0,
            memory_map: MemoryMapInfo {
                address: 0,
                byte_len: 0,
                descriptor_size: 0,
                descriptor_version: 0,
                reserved: 0,
            },
            framebuffer: FramebufferInfo {
                address: 0,
                byte_len: 0,
                width: 0,
                height: 0,
                stride: 0,
                pixel_format: PixelFormat(0),
            },
            kernel_image: PhysicalRange { start: 0, byte_len: 0 },
            boot_info_storage: PhysicalRange { start: 0, byte_len: 0 },
            rsdp_address: 0,
        }
    }
}

/// Structured validation failures.
#[derive(Clone, Copy, Debug, PartialEq, Eq, Structural)]
pub enum BootInfoError {
    /// The handoff pointer is null.
    NullPointer,
    /// The handoff pointer is not aligned for `BootInfo`.
    MisalignedPointer,
    /// Magic does not identify FinnOS.
    BadMagic,
    /// Protocol version is unsupported.
    UnsupportedVersion,
    /// Structure size does not match version three.
    UnexpectedStructureSize,
    /// Presence flags include bits unknown to this protocol version.
    UnknownFlags,
    /// Required memory-map metadata is absent.
    MissingMemoryMap,
    /// Memory-map metadata is inconsistent.
    InvalidMemoryMap,
    /// Framebuffer metadata is inconsistent or unsupported.
    InvalidFramebuffer,
    /// Kernel image metadata is invalid or wraps the address space.
    InvalidKernelRange,
    /// `BootInfo` storage metadata is invalid or wraps the address space.
    InvalidBootInfoStorage,
    /// The copied structure is not fully contained in its declared storage.
    BootInfoOutsideDeclaredStorage,
    /// RSDP presence and address fields are inconsistent.
    InvalidRsdp,
}

/// A non-null, non-empty range whose end fits in 64 bits.
pub open spec fn range_ok(start: u64, byte_len: u64) -> bool {
    start != 0 && byte_len != 0 && start + byte_len <= u64::MAX
}

/// The declared storage is exactly one aligned page large enough for the structure.
pub open spec fn storage_ok(info: BootInfo) -> bool {
    &&& range_ok(info.boot_info_storage.start, info.boot_info_storage.byte_len)
    &&& info.boot_info_storage.start % BOOT_INFO_PAGE_SIZE == 0
    &&& info.boot_info_storage.byte_len == BOOT_INFO_PAGE_SIZE
    &&& info.boot_info_storage.byte_len >= info.structure_size
}

/// A present memory map names a non-empty, whole number of version-one descriptors.
pub open spec fn memory_map_ok(map: MemoryMapInfo) -> bool {
    &&& range_ok(map.address, map.byte_len)
    &&& map.descriptor_size >= MIN_DESCRIPTOR_SIZE
    &&& map.descriptor_size <= map.byte_len
    &&& map.byte_len % map.descriptor_size == 0
    &&& map.descriptor_version == 1
    &&& map.reserved == 0
}

/// A present framebuffer is a directly writable RGB/BGR surface that fits its buffer.
pub open spec fn framebuffer_ok(fb: FramebufferInfo) -> bool {
    &&& (fb.pixel_format.0 == 0 || fb.pixel_format.0 == 1)
    &&& fb.address != 0
    &&& fb.width != 0
    &&& fb.height != 0
    &&& fb.stride >= fb.width
    &&& range_ok(fb.address, fb.byte_len)
    &&& fb.stride * fb.height * 4 <= fb.byte_len
}

/// The outcome of validating `info`: the first violated rule, in protocol order.
pub open spec fn validation_result(info: BootInfo) -> Result<(), BootInfoError> {
    if info.magic != BOOT_INFO_MAGIC {
        Err(BootInfoError::BadMagic)
    } else if info.version != BOOT_PROTOCOL_VERSION {
        Err(BootInfoError::UnsupportedVersion)
    } else if info.structure_size != BOOT_INFO_STRUCTURE_SIZE {
        Err(BootInfoError::UnexpectedStructureSize)
    } else if info.flags & !BOOT_KNOWN_FLAGS != 0 {
        Err(BootInfoError::UnknownFlags)
    } else if !range_ok(info.kernel_image.start, info.kernel_image.byte_len) {
        Err(BootInfoError::InvalidKernelRange)
    } else if !storage_ok(info) {
        Err(BootInfoError::InvalidBootInfoStorage)
    } else if info.flags & BOOT_FLAG_MEMORY_MAP_PRESENT != 0 && !memory_map_ok(info.memory_map) {
        Err(BootInfoError::InvalidMemoryMap)
    } else if info.flags & BOOT_FLAG_MEMORY_MAP_PRESENT == 0 && info.memory_map
        != empty_memory_map() {
        Err(BootInfoError::MissingMemoryMap)
    } else if info.flags & BOOT_FLAG_FRAMEBUFFER_PRESENT != 0 && !framebuffer_ok(info.framebuffer) {
        Err(BootInfoError::InvalidFramebuffer)
    } else if info.flags & BOOT_FLAG_FRAMEBUFFER_PRESENT == 0 && info.framebuffer
        != empty_framebuffer() {
        Err(BootInfoError::InvalidFramebuffer)
    } else if info.flags & BOOT_FLAG_RSDP_PRESENT != 0 && info.rsdp_address == 0 {
        Err(BootInfoError::InvalidRsdp)
    } else if info.flags & BOOT_FLAG_RSDP_PRESENT == 0 && info.rsdp_address != 0 {
        Err(BootInfoError::InvalidRsdp)
    } else {
        Ok(())
    }
}

/// Whether `start..start + byte_len` is a non-null, non-empty, non-wrapping range.
pub fn valid_range(start: u64, byte_len: u64) -> (ok: bool)
    ensures
        ok == range_ok(start, byte_len),
{
    start != 0 && byte_len != 0 && start.checked_add(byte_len).is_some()
}

/// Validate a boot-information structure without dereferencing any addresses.
pub fn validate(info: &BootInfo) -> (result: Result<(), BootInfoError>)
    ensures
        result == validation_result(*info),
{
    if info.magic != BOOT_INFO_MAGIC {
        return Err(BootInfoError::BadMagic);
    }
    if info.version != BOOT_PROTOCOL_VERSION {
        return Err(BootInfoError::UnsupportedVersion);
    }
    if info.structure_size != BOOT_INFO_STRUCTURE_SIZE {
        return Err(BootInfoError::UnexpectedStructureSize);
    }
    if info.flags & !BOOT_KNOWN_FLAGS != 0 {
        return Err(BootInfoError::UnknownFlags);
    }
    if !valid_range(info.kernel_image.start, info.kernel_image.byte_len) {
        return Err(BootInfoError::InvalidKernelRange);
    }
    if !valid_range(info.boot_info_storage.start, info.boot_info_storage.byte_len)
        || !info.boot_info_storage.start.is_multiple_of(BOOT_INFO_PAGE_SIZE)
        || info.boot_info_storage.byte_len != BOOT_INFO_PAGE_SIZE
        || info.boot_info_storage.byte_len < info.structure_size as u64
    {
        return Err(BootInfoError::InvalidBootInfoStorage);
    }
    if info.flags & BOOT_FLAG_MEMORY_MAP_PRESENT != 0 {
        let map = info.memory_map;
        if !valid_range(map.address, map.byte_len) || map.descriptor_size < MIN_DESCRIPTOR_SIZE
            || map.descriptor_size > map.byte_len || !map.byte_len.is_multiple_of(
            map.descriptor_size,
        ) || map.descriptor_version != 1 || map.reserved != 0 {
            return Err(BootInfoError::InvalidMemoryMap);
        }
    } else if info.memory_map.address != 0 || info.memory_map.byte_len != 0
        || info.memory_map.descriptor_size != 0 || info.memory_map.descriptor_version != 0
        || info.memory_map.reserved != 0 {
        return Err(BootInfoError::MissingMemoryMap);
    }
    if info.flags & BOOT_FLAG_FRAMEBUFFER_PRESENT != 0 {
        let fb = info.framebuffer;
        let format_ok = fb.pixel_format.0 == 0 || fb.pixel_format.0 == 1;
        let stride = fb.stride as u64;
        let height = fb.height as u64;
        assert(stride * height <= u64::MAX) by (nonlinear_arith)
            requires
                stride <= u32::MAX,
                height <= u32::MAX,
        ;
        let pixels = stride * height;
        let bytes = match pixels.checked_mul(4) {
            Some(bytes) => bytes,
            None => {
                return Err(BootInfoError::InvalidFramebuffer);
            },
        };
        if !format_ok || fb.address == 0 || fb.width == 0 || fb.height == 0 || fb.stride
            < fb.width || !valid_range(fb.address, fb.byte_len) || bytes > fb.byte_len {
            return Err(BootInfoError::InvalidFramebuffer);
        }
    } else if info.framebuffer.address != 0 || info.framebuffer.byte_len != 0
        || info.framebuffer.width != 0 || info.framebuffer.height != 0
        || info.framebuffer.stride != 0 || info.framebuffer.pixel_format.0 != 0 {
        return Err(BootInfoError::InvalidFramebuffer);
    }
    if info.flags & BOOT_FLAG_RSDP_PRESENT != 0 {
        if info.rsdp_address == 0 {
            return Err(BootInfoError::InvalidRsdp);
        }
    } else if info.rsdp_address != 0 {
        return Err(BootInfoError::InvalidRsdp);
    }
    Ok(())
}

} // verus!
