use lib::aarch64::address_space::{
    activation_readback, build, cache_line_size, par_identity, ActivationRegisters,
};
use lib::aarch64::kernel_map::{
    build_owned_address_space, create_mapping_plan, expect_translation, validate_gic_mappings,
    validate_guards_unmapped, validate_null_unmapped, validate_permission_mappings,
    validate_uart_mapping, KernelLayout,
};
use lib::aarch64::paging::{
    IdentityRange, MappingPlan, MappingRequest, MemoryType, PagingError, Permissions, Translation,
    MAIR_VALUE, MAX_TABLE_PAGES, PL011_BASE, SCTLR_REQUIRED_BITS,
};
use lib::boot_protocol::{BootInfo, PhysicalRange, BOOT_FLAG_MEMORY_MAP_PRESENT};

const MMFR0_48_BITS: u64 = 5;

fn pool(first: u64) -> Vec<u64> {
    (0..MAX_TABLE_PAGES as u64).map(|i| first + i * 0x1000).collect()
}

fn request(start: u64, pages: u64, permissions: Permissions, memory_type: MemoryType) -> MappingRequest {
    MappingRequest { virtual_start: start, physical_start: start, page_count: pages, permissions, memory_type }
}

fn small_plan() -> MappingPlan {
    let mut plan = MappingPlan::new();
    plan.push(request(0x4008_0000, 4, Permissions::ReadExecute, MemoryType::NormalWriteBack)).unwrap();
    plan.push(MappingRequest {
        virtual_start: 0x5000_0000,
        physical_start: 0x6000_0000,
        page_count: 2,
        permissions: Permissions::ReadWriteNoExecute,
        memory_type: MemoryType::NormalWriteBack,
    })
    .unwrap();
    plan.push(request(PL011_BASE, 1, Permissions::ReadWriteNoExecute, MemoryType::Device)).unwrap();
    plan
}

#[test]
fn built_tables_translate_plan_and_pool_pages() {
    let pages = pool(0x4200_0000);
    let identity = vec![true; pages.len()];
    let space = build(&small_plan(), &pages, MMFR0_48_BITS, 0, &identity).unwrap();
    assert_eq!(space.root_address(), 0x4200_0000);
    assert!(space.used_table_pages() > 1);
    assert_eq!(
        space.translate(0x5000_1234),
        Ok(Translation {
            physical_address: 0x6000_1234,
            permissions: Permissions::ReadWriteNoExecute,
            memory_type: MemoryType::NormalWriteBack,
        })
    );
    assert_eq!(space.translate(0x4008_3ff8).unwrap().permissions, Permissions::ReadExecute);
    assert_eq!(space.translate(PL011_BASE).unwrap().memory_type, MemoryType::Device);
    let table = space.translate(0x4200_5008).unwrap();
    assert_eq!(table.physical_address, 0x4200_5008);
    assert_eq!(table.permissions, Permissions::ReadWriteNoExecute);
    assert_eq!(space.translate(0x5000_2000), Err(PagingError::NotMapped));
    assert_eq!(space.translate(0), Err(PagingError::NotMapped));
    assert_eq!(space.translate(1 << 48), Err(PagingError::VirtualAddressOutOfRange));
}

#[test]
fn build_refuses_unsupported_cpus_and_unusable_table_pages() {
    let plan = small_plan();
    let pages = pool(0x4200_0000);
    let identity = vec![true; pages.len()];
    assert!(matches!(
        build(&plan, &pages, 0xf000_0000 | MMFR0_48_BITS, 0, &identity),
        Err(PagingError::FourKiBGranuleUnsupported)
    ));
    assert!(matches!(
        build(&plan, &pages, MMFR0_48_BITS, 1 << 25, &identity),
        Err(PagingError::BigEndianEl1Unsupported)
    ));
    assert!(matches!(
        build(&plan, &pages[..10], MMFR0_48_BITS, 0, &identity[..10]),
        Err(PagingError::TableAllocationFailed)
    ));
    let high = pool(0x1_0000_0000);
    assert!(matches!(
        build(&plan, &high, 0, 0, &identity),
        Err(PagingError::PhysicalAddressOutOfRange)
    ));
    let mut unprobed = identity.clone();
    unprobed[7] = false;
    assert!(matches!(
        build(&plan, &pages, MMFR0_48_BITS, 1, &unprobed),
        Err(PagingError::TablePageNotIdentityAccessible)
    ));
    assert!(build(&plan, &pages, MMFR0_48_BITS, 0, &unprobed).is_ok());
    let covering = pool(0x4008_0000);
    assert!(matches!(
        build(&plan, &covering, MMFR0_48_BITS, 0, &identity),
        Err(PagingError::TablePageAliasConflict)
    ));
}

#[test]
fn activation_checks_live_pages_and_gives_registers() {
    let pages = pool(0x4200_0000);
    let identity = vec![true; pages.len()];
    let mut space = build(&small_plan(), &pages, MMFR0_48_BITS, 0, &identity).unwrap();
    let live = [IdentityRange { start: 0x4008_0000, page_count: 2 }];
    let registers = space
        .prepare_activation(&live, 0x4008_0124, 0x4008_2ff0, 0x4008_1800, 0x30d0_0800, |_| true)
        .unwrap();
    assert_eq!(registers.ttbr0, 0x4200_0000);
    assert_eq!(registers.mair, MAIR_VALUE);
    assert_eq!(registers.sctlr_disabled, 0x30d0_0800);
    assert_eq!(registers.sctlr_enabled, 0x30d0_0800 | SCTLR_REQUIRED_BITS);
    assert_eq!(registers.tcr >> 32 & 7, 5);
    assert_eq!(
        space.prepare_activation(&live, 0x5000_0000, 0x4008_2ff0, 0x4008_1800, 0, |_| true),
        Err(PagingError::LiveIdentityMappingMissing)
    );
    assert_eq!(
        space.prepare_activation(&live, 0x4008_0124, 0x4008_2ff0, 0x4008_1800, 1, |a| a != 0x4008_2000),
        Err(PagingError::CurrentIdentityMappingMissing)
    );
    assert_eq!(
        space.prepare_activation(&live, 0x4008_0124, 0x4008_2ff0, 0x4008_1800, 0x30d0_0800, |a| a != 0x4008_2000),
        Ok(registers)
    );
    let wide = [IdentityRange { start: 0x4008_0000, page_count: 5 }];
    assert_eq!(
        space.prepare_activation(&wide, 0x4008_0124, 0x4008_2ff0, 0x4008_1800, 0, |_| true),
        Err(PagingError::LiveIdentityMappingMissing)
    );
    assert_eq!(
        space.prepare_activation(&live, 0x4008_0124, 0x4008_2ff0, 0x4008_1800, 1 << 25, |_| true),
        Err(PagingError::BigEndianEl1Unsupported)
    );
    space.mark_active();
    assert!(space.is_active());
    assert_eq!(
        space.prepare_activation(&live, 0x4008_0124, 0x4008_2ff0, 0x4008_1800, 0, |_| true),
        Err(PagingError::AlreadyActive)
    );
    let mut no_uart = MappingPlan::new();
    no_uart.push(request(0x4008_0000, 4, Permissions::ReadExecute, MemoryType::NormalWriteBack)).unwrap();
    let bare = build(&no_uart, &pages, MMFR0_48_BITS, 0, &identity).unwrap();
    assert_eq!(
        bare.prepare_activation(&live, 0x4008_0124, 0x4008_2ff0, 0x4008_1800, 0, |_| true),
        Err(PagingError::InvalidPl011Mapping)
    );
}

#[test]
fn activation_readback_must_match_every_register() {
    let expected = ActivationRegisters { sctlr_disabled: 0, mair: MAIR_VALUE, tcr: 7, ttbr0: 0x4200_0000, sctlr_enabled: 5 };
    assert_eq!(activation_readback(expected, 5, MAIR_VALUE, 7, 0x4200_0000, 0), Ok(()));
    assert_eq!(
        activation_readback(expected, 5, MAIR_VALUE, 7, 0x4200_0000, 0x1000),
        Err(PagingError::ActivationReadbackFailed)
    );
    assert_eq!(
        activation_readback(expected, 4, MAIR_VALUE, 7, 0x4200_0000, 0),
        Err(PagingError::ActivationReadbackFailed)
    );
}

fn kernel_layout() -> KernelLayout {
    KernelLayout {
        kernel_start: 0x4008_0000,
        text_start: 0x4008_0000,
        text_end: 0x4009_0000,
        rodata_start: 0x4009_0000,
        rodata_end: 0x400a_0000,
        data_start: 0x400a_0000,
        data_end: 0x400b_0000,
        bss_start: 0x400b_0000,
        bss_end: 0x400c_0000,
        guard_low_start: 0x400c_0000,
        guard_low_end: 0x400c_1000,
        stack_bottom: 0x400c_1000,
        stack_top: 0x4010_1000,
        guard_high_start: 0x4010_1000,
        guard_high_end: 0x4010_2000,
        kernel_end: 0x4010_2000,
    }
}

fn boot_info() -> BootInfo {
    let mut info = BootInfo::empty();
    info.flags = BOOT_FLAG_MEMORY_MAP_PRESENT;
    info.boot_info_storage = PhysicalRange { start: 0x4800_0000, byte_len: 0x1000 };
    info.memory_map.address = 0x4900_0010;
    info.memory_map.byte_len = 0x30;
    info
}

#[test]
fn owned_space_validates_permissions_guards_and_devices() {
    let pages = pool(0x4200_0000);
    let identity = vec![true; pages.len()];
    let built = build_owned_address_space(
        &boot_info(),
        kernel_layout(),
        0x4010_0000,
        &pages,
        MMFR0_48_BITS,
        0,
        &identity,
    )
    .unwrap();
    let plan = create_mapping_plan(&boot_info(), kernel_layout()).unwrap();
    assert_eq!(built.live_ranges.len(), plan.as_slice().len());
    assert_eq!(built.mapped_pages, plan.mapped_pages() + MAX_TABLE_PAGES as u64);
    let space = &built.address_space;
    assert_eq!(
        validate_permission_mappings(space, &boot_info(), kernel_layout(), 0x4010_0000, 0x4008_0800),
        Ok(())
    );
    assert_eq!(
        validate_permission_mappings(space, &boot_info(), kernel_layout(), 0x4010_0000, 0x4009_0800),
        Err(PagingError::LiveIdentityMappingMissing)
    );
    assert_eq!(validate_null_unmapped(space), Ok(()));
    assert_eq!(validate_guards_unmapped(space, kernel_layout()), Ok(()));
    assert_eq!(validate_uart_mapping(space), Ok(()));
    assert_eq!(validate_gic_mappings(space), Ok(()));
    assert_eq!(
        expect_translation(space, 0x4009_0000, Permissions::ReadExecute, MemoryType::NormalWriteBack),
        Err(PagingError::LiveIdentityMappingMissing)
    );
    let mut shifted = kernel_layout();
    shifted.guard_low_start = 0x4008_0000;
    assert_eq!(validate_guards_unmapped(space, shifted), Err(PagingError::VirtualMappingConflict));
    assert!(matches!(
        build_owned_address_space(&boot_info(), kernel_layout(), 0x4011_0000, &pages, MMFR0_48_BITS, 0, &identity),
        Err(PagingError::LiveIdentityMappingMissing)
    ));
}

#[test]
fn cache_lines_and_translation_probes_decode() {
    assert_eq!(cache_line_size(0x0004_0000), 64);
    assert_eq!(cache_line_size(0x8444_c004), 64);
    assert_eq!(cache_line_size(0), 4);
    assert!(par_identity(0x4008_0000, 0x4008_0123));
    assert!(!par_identity(0x4008_0001, 0x4008_0123));
    assert!(!par_identity(0x4009_0000, 0x4008_0123));
}

#[test]
fn used_table_pages_are_listed_in_order() {
    let pages = pool(0x4200_0000);
    let identity = vec![true; pages.len()];
    let space = build(&small_plan(), &pages, MMFR0_48_BITS, 0, &identity).unwrap();
    assert_eq!(space.table_page(0), Some(0x4200_0000));
    let used = space.used_table_pages();
    assert_eq!(space.table_page(used - 1), Some(0x4200_0000 + (used as u64 - 1) * 0x1000));
    assert_eq!(space.table_page(used), None);
}
