use lib::aarch64::kernel_map::{
    align_down, align_up, create_mapping_plan, validate_kernel_layout, KernelLayout,
};
use lib::aarch64::paging::{MappingRequest, MemoryType, PagingError, Permissions, PL011_BASE};
use lib::boot_protocol::{
    BootInfo, PhysicalRange, BOOT_FLAG_FRAMEBUFFER_PRESENT, BOOT_FLAG_MEMORY_MAP_PRESENT,
    BOOT_FLAG_RSDP_PRESENT,
};

fn layout() -> KernelLayout {
    KernelLayout {
        kernel_start: 0x4008_0000,
        text_start: 0x4008_0000,
        text_end: 0x4009_0000,
        rodata_start: 0x4009_0000,
        rodata_end: 0x400a_0000,
        data_start: 0x400a_0000,
        data_end: 0x400b_0000,
        bss_start: 0x400b_0000,
        bss_end: 0x400c_0000,
        guard_low_start: 0x400c_0000,
        guard_low_end: 0x400c_1000,
        stack_bottom: 0x400c_1000,
        stack_top: 0x4010_1000,
        guard_high_start: 0x4010_1000,
        guard_high_end: 0x4010_2000,
        kernel_end: 0x4010_2000,
    }
}

fn info() -> BootInfo {
    let mut info = BootInfo::empty();
    info.flags = BOOT_FLAG_MEMORY_MAP_PRESENT;
    info.boot_info_storage = PhysicalRange { start: 0x4800_0000, byte_len: 0x1000 };
    info.memory_map.address = 0x4900_0010;
    info.memory_map.byte_len = 0x30;
    info
}

fn identity(start: u64, pages: u64, permissions: Permissions, memory_type: MemoryType) -> MappingRequest {
    MappingRequest { virtual_start: start, physical_start: start, page_count: pages, permissions, memory_type }
}

#[test]
fn kernel_layout_checks_alignment_order_and_live_stack() {
    assert_eq!(validate_kernel_layout(layout(), 0x4010_0000), Ok(()));
    assert_eq!(
        validate_kernel_layout(layout(), 0x400c_0800),
        Err(PagingError::LiveIdentityMappingMissing)
    );
    let mut misaligned = layout();
    misaligned.rodata_end += 8;
    assert_eq!(validate_kernel_layout(misaligned, 0x4010_0000), Err(PagingError::AddressNotPageAligned));
    let mut short_stack = layout();
    short_stack.stack_top -= 0x1000;
    short_stack.guard_high_start -= 0x1000;
    assert_eq!(validate_kernel_layout(short_stack, 0x4010_0000), Err(PagingError::VirtualMappingConflict));
}

#[test]
fn page_rounding_helpers() {
    assert_eq!(align_down(0x1fff), 0x1000);
    assert_eq!(align_up(0x1001), Ok(0x2000));
    assert_eq!(align_up(0x2000), Ok(0x2000));
    assert_eq!(align_up(u64::MAX - 10), Err(PagingError::AddressOverflow));
}

#[test]
fn early_plan_maps_image_resources_and_devices() {
    let plan = create_mapping_plan(&info(), layout()).unwrap();
    let wb = MemoryType::NormalWriteBack;
    let expected = vec![
        identity(0x4008_0000, 16, Permissions::ReadExecute, wb),
        identity(0x4009_0000, 16, Permissions::ReadOnlyNoExecute, wb),
        identity(0x400a_0000, 16, Permissions::ReadWriteNoExecute, wb),
        identity(0x400b_0000, 16, Permissions::ReadWriteNoExecute, wb),
        identity(0x400c_1000, 64, Permissions::ReadWriteNoExecute, wb),
        identity(0x4800_0000, 1, Permissions::ReadOnlyNoExecute, wb),
        identity(0x4900_0000, 1, Permissions::ReadOnlyNoExecute, wb),
        identity(PL011_BASE, 1, Permissions::ReadWriteNoExecute, MemoryType::Device),
        identity(0x0800_0000, 16, Permissions::ReadWriteNoExecute, MemoryType::Device),
        identity(0x0801_0000, 16, Permissions::ReadWriteNoExecute, MemoryType::Device),
    ];
    assert_eq!(plan.as_slice(), &expected[..]);
    assert_eq!(plan.mapped_pages(), 16 * 4 + 64 + 1 + 1 + 1 + 32);
}

#[test]
fn early_plan_adds_framebuffer_and_rsdp_pages_when_present() {
    let mut info = info();
    info.flags |= BOOT_FLAG_FRAMEBUFFER_PRESENT | BOOT_FLAG_RSDP_PRESENT;
    info.framebuffer.address = 0x8000_0000;
    info.framebuffer.byte_len = 0x1800;
    info.rsdp_address = 0x4a00_0123;
    let mut empty_data = layout();
    empty_data.data_end = empty_data.data_start;
    empty_data.bss_start = empty_data.data_start;
    let plan = create_mapping_plan(&info, empty_data).unwrap();
    let requests = plan.as_slice();
    assert_eq!(requests.len(), 11);
    assert_eq!(
        requests[9],
        identity(0x8000_0000, 2, Permissions::ReadWriteNoExecute, MemoryType::NormalNonCacheable)
    );
    assert_eq!(
        requests[10],
        identity(0x4a00_0000, 1, Permissions::ReadOnlyNoExecute, MemoryType::NormalWriteBack)
    );
}

#[test]
fn early_plan_refuses_missing_resources_and_mapped_guards() {
    let mut no_map = info();
    no_map.memory_map.byte_len = 0;
    assert_eq!(create_mapping_plan(&no_map, layout()).unwrap_err(), PagingError::ZeroPageCount);
    let mut guard_storage = info();
    guard_storage.boot_info_storage = PhysicalRange { start: 0x400c_0000, byte_len: 0x1000 };
    assert_eq!(
        create_mapping_plan(&guard_storage, layout()).unwrap_err(),
        PagingError::VirtualMappingConflict
    );
    let mut overlapping = info();
    overlapping.boot_info_storage = PhysicalRange { start: 0x4008_0000, byte_len: 0x1000 };
    assert_eq!(
        create_mapping_plan(&overlapping, layout()).unwrap_err(),
        PagingError::VirtualMappingConflict
    );
}
