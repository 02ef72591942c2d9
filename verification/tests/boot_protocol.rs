use lib::boot_protocol::{
    validate, valid_range, BootInfo, BootInfoError, FramebufferInfo, MemoryMapInfo, PhysicalRange,
    PixelFormat, BOOT_FLAG_FRAMEBUFFER_PRESENT, BOOT_FLAG_MEMORY_MAP_PRESENT,
    BOOT_FLAG_RSDP_PRESENT, BOOT_PROTOCOL_VERSION,
};

fn valid_info() -> BootInfo {
    let mut info = BootInfo::empty();
    info.kernel_image = PhysicalRange {
        start: 0x10_0000,
        byte_len: 0x20_0000,
    };
    info.boot_info_storage = PhysicalRange {
        start: 0x40_0000,
        byte_len: 4096,
    };
    info
}

#[test]
fn defaults_are_valid_without_optional_resources() {
    assert_eq!(BootInfo::empty().framebuffer.pixel_format.raw(), 0);
    assert_eq!(BootInfo::empty().framebuffer, FramebufferInfo::default());
    assert!(validate(&valid_info()).is_ok());
}

#[test]
fn rejects_bad_magic() {
    let mut info = valid_info();
    info.magic = 0;
    assert_eq!(validate(&info), Err(BootInfoError::BadMagic));
}

#[test]
fn rejects_version_and_size() {
    let mut info = valid_info();
    info.version = 2;
    assert_eq!(validate(&info), Err(BootInfoError::UnsupportedVersion));
    info.version = BOOT_PROTOCOL_VERSION + 1;
    assert_eq!(validate(&info), Err(BootInfoError::UnsupportedVersion));
    info.version = BOOT_PROTOCOL_VERSION;
    info.structure_size = 0;
    assert_eq!(validate(&info), Err(BootInfoError::UnexpectedStructureSize));
}

#[test]
fn rejects_invalid_map_and_framebuffer() {
    let mut info = valid_info();
    info.flags = BOOT_FLAG_MEMORY_MAP_PRESENT;
    assert_eq!(validate(&info), Err(BootInfoError::InvalidMemoryMap));
    info = valid_info();
    info.flags = BOOT_FLAG_FRAMEBUFFER_PRESENT;
    assert_eq!(validate(&info), Err(BootInfoError::InvalidFramebuffer));
}

#[test]
fn rejects_unknown_flags_and_invalid_required_ranges() {
    let mut info = valid_info();
    info.flags = 1 << 63;
    assert_eq!(validate(&info), Err(BootInfoError::UnknownFlags));

    info = valid_info();
    info.kernel_image.byte_len = u64::MAX;
    assert_eq!(validate(&info), Err(BootInfoError::InvalidKernelRange));

    info = valid_info();
    info.boot_info_storage.byte_len = 1;
    assert_eq!(validate(&info), Err(BootInfoError::InvalidBootInfoStorage));
    info = valid_info();
    info.boot_info_storage.start += 1;
    assert_eq!(validate(&info), Err(BootInfoError::InvalidBootInfoStorage));
}

#[test]
fn validates_complete_memory_map_metadata() {
    let mut info = valid_info();
    info.flags = BOOT_FLAG_MEMORY_MAP_PRESENT;
    info.memory_map = MemoryMapInfo {
        address: 0x80_0000,
        byte_len: 80,
        descriptor_size: 40,
        descriptor_version: 1,
        reserved: 0,
    };
    assert!(validate(&info).is_ok());

    info.memory_map.descriptor_size = 39;
    assert_eq!(validate(&info), Err(BootInfoError::InvalidMemoryMap));
    info.memory_map.descriptor_size = 40;
    info.memory_map.byte_len = 81;
    assert_eq!(validate(&info), Err(BootInfoError::InvalidMemoryMap));
    info.memory_map.byte_len = 80;
    info.memory_map.descriptor_version = 2;
    assert_eq!(validate(&info), Err(BootInfoError::InvalidMemoryMap));
    info.memory_map.descriptor_version = 1;
    info.memory_map.reserved = 1;
    assert_eq!(validate(&info), Err(BootInfoError::InvalidMemoryMap));
}

#[test]
fn rejects_nonzero_absent_fields_and_bad_rsdp_consistency() {
    let mut info = valid_info();
    info.memory_map.descriptor_version = 1;
    assert_eq!(validate(&info), Err(BootInfoError::MissingMemoryMap));

    info = valid_info();
    info.framebuffer.pixel_format = PixelFormat::Bgr();
    assert_eq!(validate(&info), Err(BootInfoError::InvalidFramebuffer));

    info = valid_info();
    info.rsdp_address = 0x1000;
    assert_eq!(validate(&info), Err(BootInfoError::InvalidRsdp));
    info.flags = BOOT_FLAG_RSDP_PRESENT;
    assert!(validate(&info).is_ok());
    info.rsdp_address = 0;
    assert_eq!(validate(&info), Err(BootInfoError::InvalidRsdp));
}

#[test]
fn arbitrary_pixel_format_bits_are_safe_and_rejected_when_present() {
    let format = PixelFormat::from_raw(0x1234_5678);
    assert_eq!(format.raw(), 0x1234_5678);

    let mut info = valid_info();
    info.flags = BOOT_FLAG_FRAMEBUFFER_PRESENT;
    info.framebuffer = FramebufferInfo {
        address: 0x90_0000,
        byte_len: 4,
        width: 1,
        height: 1,
        stride: 1,
        pixel_format: format,
    };
    assert_eq!(validate(&info), Err(BootInfoError::InvalidFramebuffer));
}

#[test]
fn valid_framebuffer_with_known_format_is_accepted() {
    let mut info = valid_info();
    info.flags = BOOT_FLAG_FRAMEBUFFER_PRESENT;
    info.framebuffer = FramebufferInfo {
        address: 0x90_0000,
        byte_len: 16,
        width: 2,
        height: 2,
        stride: 2,
        pixel_format: PixelFormat::Rgb(),
    };
    assert!(validate(&info).is_ok());
    info.framebuffer.stride = 1;
    assert_eq!(validate(&info), Err(BootInfoError::InvalidFramebuffer));
}

#[test]
fn range_validity_rejects_empty_and_wrapping_ranges() {
    assert!(valid_range(0x1000, 1));
    assert!(!valid_range(0x1000, 0));
    assert!(!valid_range(u64::MAX, 2));
    assert!(valid_range(u64::MAX - 1, 1));
}
