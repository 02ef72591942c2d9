use lib::boot_protocol::{BootInfo, PhysicalRange, BOOT_FLAG_RSDP_PRESENT};
use lib::x86_64::kernel_map::{
    build_page_tables, kernel_mapping_plan, validate_required_mappings, CpuRegisters,
    KernelSections, RequiredAddresses,
};
use lib::x86_64::paging::{
    ActiveAddressSpace, MappingPermissions, MappingPurpose, PageTablePagePool, PagingError,
    MAX_PAGE_TABLE_PAGES,
};

fn sections() -> KernelSections {
    KernelSections {
        text_start: 0x10_0000,
        text_end: 0x10_3456,
        rodata_start: 0x10_4000,
        rodata_end: 0x10_5000,
        data_start: 0x10_5000,
        data_end: 0x10_5000,
        bss_start: 0x10_6000,
        bss_end: 0x10_8000,
        after_stack_start: 0x11_0000,
        after_stack_end: 0x11_1000,
        stack_bottom: 0x10_9000,
        stack_top: 0x10_d000,
    }
}

fn boot_info() -> BootInfo {
    let mut info = BootInfo::empty();
    info.boot_info_storage = PhysicalRange { start: 0x20_0000, byte_len: 0x100 };
    info.memory_map.address = 0x20_1000;
    info.memory_map.byte_len = 0x1800;
    info.framebuffer.address = 0x8000_0000;
    info.framebuffer.byte_len = 0x4000;
    info
}

fn cpu() -> CpuRegisters {
    CpuRegisters {
        max_extended_leaf: 0x8000_0008,
        extended_features_edx: 1 << 20,
        address_sizes_eax: 48,
        cr0: 1 << 31,
        cr4: 1 << 5,
        cr3: 0x1000,
    }
}

fn pool() -> PageTablePagePool {
    let pages: Vec<u64> = (0..MAX_PAGE_TABLE_PAGES as u64).map(|i| 0x400_0000 + i * 0x1000).collect();
    PageTablePagePool::reserve(&pages).unwrap()
}

fn live_space() -> ActiveAddressSpace {
    build_page_tables(&boot_info(), sections(), cpu(), pool()).unwrap()
}

fn addresses() -> RequiredAddresses {
    RequiredAddresses {
        stack_bottom: 0x10_9000,
        stack_pointer: 0x10_cf00,
        entry: 0x10_0000,
        kernel_main: 0x10_0400,
        breakpoint_handler: Some(0x10_1000),
        invalid_opcode_handler: Some(0x10_1100),
        page_fault_handler: Some(0x10_1200),
        dispatcher: 0x10_2000,
        gdt: 0x10_6000,
        idt: 0x10_6800,
        exception_storage: 0x10_7000,
        double_fault_stack: 0x11_0000,
        guard_low_start: 0x10_8000,
        guard_low_end: 0x10_9000,
        guard_high_start: 0x10_d000,
        guard_high_end: 0x10_e000,
    }
}

#[test]
fn plan_covers_sections_and_boot_resources_in_address_order() {
    let plan = kernel_mapping_plan(&boot_info(), sections()).unwrap();
    let requests = plan.as_slice();
    assert_eq!(requests.len(), 8);
    assert!(requests.windows(2).all(|w| w[0].virtual_start < w[1].virtual_start));
    let text = requests[0];
    assert_eq!((text.virtual_start, text.physical_start, text.page_count), (0x10_0000, 0x10_0000, 4));
    assert_eq!(text.permissions, MappingPermissions::kernel_rx());
    assert_eq!(text.purpose, MappingPurpose::KernelText);
    assert!(requests.iter().all(|r| r.purpose != MappingPurpose::KernelData));
    let map = requests.iter().find(|r| r.purpose == MappingPurpose::MemoryMapStorage).unwrap();
    assert_eq!((map.virtual_start, map.page_count), (0x20_1000, 2));
    let fb = requests.iter().find(|r| r.purpose == MappingPurpose::Framebuffer).unwrap();
    assert_eq!(fb.permissions, MappingPermissions::framebuffer());
    assert!(requests.iter().all(|r| r.purpose != MappingPurpose::AcpiRsdp));
}

#[test]
fn rsdp_page_is_planned_only_when_reported() {
    let mut info = boot_info();
    info.flags = BOOT_FLAG_RSDP_PRESENT;
    info.rsdp_address = 0xe_0010;
    let plan = kernel_mapping_plan(&info, sections()).unwrap();
    let rsdp = plan.as_slice().iter().find(|r| r.purpose == MappingPurpose::AcpiRsdp).unwrap();
    assert_eq!((rsdp.virtual_start, rsdp.page_count), (0xe_0000, 2));
    assert_eq!(rsdp.permissions, MappingPermissions::kernel_r_nx());
    info.rsdp_address = 0;
    let plan = kernel_mapping_plan(&info, sections()).unwrap();
    assert_eq!(plan.len(), 8);
}

#[test]
fn plan_refuses_bad_resources_and_conflicts() {
    let mut info = boot_info();
    info.boot_info_storage = PhysicalRange { start: 0, byte_len: 0x100 };
    assert_eq!(kernel_mapping_plan(&info, sections()).err(), Some(PagingError::InvalidBootInfoRange));
    let mut info = boot_info();
    info.framebuffer.byte_len = u64::MAX;
    assert_eq!(kernel_mapping_plan(&info, sections()).err(), Some(PagingError::AddressOverflow));
    let mut info = boot_info();
    info.memory_map.address = 0x10_2000;
    assert_eq!(kernel_mapping_plan(&info, sections()).err(), Some(PagingError::MappingConflict));
}

#[test]
fn page_tables_need_a_capable_cpu() {
    let mut no_nx = cpu();
    no_nx.extended_features_edx = 0;
    assert_eq!(
        build_page_tables(&boot_info(), sections(), no_nx, pool()).err(),
        Some(PagingError::NxUnsupported)
    );
    let space = live_space();
    let text = space.translate(0x10_0123).unwrap().unwrap();
    assert_eq!(text.physical_address, 0x10_0123);
    assert!(text.effective_executable && !text.effective_writable);
    let table = space.translate(0x400_0000).unwrap().unwrap();
    assert!(table.effective_writable && !table.effective_executable);
}

#[test]
fn required_mappings_of_a_fresh_space_validate() {
    let space = live_space();
    assert_eq!(validate_required_mappings(&space, &boot_info(), addresses()), Ok(()));
}

#[test]
fn required_mappings_report_what_is_missing_or_wrong() {
    let space = live_space();
    let info = boot_info();
    let missing = RequiredAddresses { page_fault_handler: None, ..addresses() };
    assert_eq!(
        validate_required_mappings(&space, &info, missing),
        Err(PagingError::RequiredMappingMissing)
    );
    let writable_code = RequiredAddresses { kernel_main: 0x10_6000, ..addresses() };
    assert_eq!(
        validate_required_mappings(&space, &info, writable_code),
        Err(PagingError::RequiredPermissionMismatch)
    );
    let mapped_guard = RequiredAddresses { guard_low_start: 0x10_7000, ..addresses() };
    assert_eq!(
        validate_required_mappings(&space, &info, mapped_guard),
        Err(PagingError::GuardPageMapped)
    );
    let outside = RequiredAddresses { stack_pointer: 0x10_6100, ..addresses() };
    assert_eq!(
        validate_required_mappings(&space, &info, outside),
        Err(PagingError::GuardPageMapped)
    );
    let mut writable_boot = info;
    writable_boot.boot_info_storage.start = 0x10_6000;
    assert_eq!(
        validate_required_mappings(&space, &writable_boot, addresses()),
        Err(PagingError::RequiredPermissionMismatch)
    );
}
