use lib::aarch64::paging::{
    decode_page_descriptor, next_table, page_descriptor, table_descriptor, tcr_value,
    walk_with, CpuFeatures, IdentityRange, MappingPlan, MappingRequest, MemoryType, PagingError,
    Permissions, Translation, AP_READ_ONLY, ATTR_INDEX_SHIFT, MAIR_VALUE, MAX_MAPPED_PAGES,
    MAX_MAPPING_REQUESTS, PL011_BASE, PXN, SCTLR_REQUIRED_BITS, SH_INNER, SH_OUTER,
    TABLE_ENTRIES, UXN,
};

#[test]
fn descriptor_encodes_permissions_and_memory_type() {
    let text = page_descriptor(0x4020_0000, Permissions::ReadExecute, MemoryType::NormalWriteBack)
        .unwrap();
    assert_eq!(text & AP_READ_ONLY, AP_READ_ONLY);
    assert_eq!(text & PXN, 0);
    assert_eq!(text & UXN, UXN);
    assert_eq!((text >> ATTR_INDEX_SHIFT) & 0b111, 0);

    let data = page_descriptor(
        0x4030_0000,
        Permissions::ReadWriteNoExecute,
        MemoryType::NormalWriteBack,
    )
    .unwrap();
    assert_eq!(data & AP_READ_ONLY, 0);
    assert_eq!(data & (PXN | UXN), PXN | UXN);
    assert_eq!(data & SH_INNER, SH_INNER);

    let uart =
        page_descriptor(PL011_BASE, Permissions::ReadWriteNoExecute, MemoryType::Device).unwrap();
    assert_eq!((uart >> ATTR_INDEX_SHIFT) & 0b111, 1);
    assert_eq!(uart & SH_INNER, SH_OUTER);
    assert_eq!(uart & (PXN | UXN), PXN | UXN);

    let framebuffer = page_descriptor(
        0x5000_0000,
        Permissions::ReadWriteNoExecute,
        MemoryType::NormalNonCacheable,
    )
    .unwrap();
    assert_eq!((framebuffer >> ATTR_INDEX_SHIFT) & 0b111, 2);
    assert_eq!(framebuffer & SH_INNER, SH_INNER);
    assert_eq!(framebuffer & (PXN | UXN), PXN | UXN);
}

#[test]
fn plan_rejects_null_bounds_wx_and_conflicts() {
    let mut plan = MappingPlan::new();
    let mut request = MappingRequest {
        virtual_start: 0,
        physical_start: 0x1000,
        page_count: 1,
        permissions: Permissions::ReadOnlyNoExecute,
        memory_type: MemoryType::NormalWriteBack,
    };
    assert_eq!(plan.push(request), Err(PagingError::NullPageMapped));
    request.virtual_start = 0x1001;
    assert_eq!(plan.push(request), Err(PagingError::AddressNotPageAligned));
    request.virtual_start = 0x1000;
    request.page_count = 0;
    assert_eq!(plan.push(request), Err(PagingError::ZeroPageCount));
    request.page_count = MAX_MAPPED_PAGES + 1;
    assert_eq!(plan.push(request), Err(PagingError::MappedPageCapacityExceeded));

    request.page_count = 1;
    plan.push(request).unwrap();
    let mut overlap = request;
    overlap.physical_start = 0x2000;
    assert_eq!(plan.push(overlap), Err(PagingError::VirtualMappingConflict));
    let alias = MappingRequest {
        virtual_start: 0x3000,
        permissions: Permissions::ReadWriteNoExecute,
        ..request
    };
    assert_eq!(plan.push(alias), Err(PagingError::PhysicalAliasConflict));
    let device_alias = MappingRequest {
        virtual_start: 0x4000,
        memory_type: MemoryType::Device,
        ..request
    };
    assert_eq!(plan.push(device_alias), Err(PagingError::PhysicalAliasConflict));

    assert_eq!(
        MappingPlan::new().push(MappingRequest {
            virtual_start: PL011_BASE,
            physical_start: PL011_BASE,
            page_count: 1,
            permissions: Permissions::ReadOnlyNoExecute,
            memory_type: MemoryType::Device,
        }),
        Err(PagingError::InvalidPl011Mapping)
    );
    assert_eq!(
        MappingPlan::new().push(MappingRequest {
            virtual_start: PL011_BASE,
            physical_start: 0x8000_0000,
            page_count: 1,
            permissions: Permissions::ReadWriteNoExecute,
            memory_type: MemoryType::NormalWriteBack,
        }),
        Err(PagingError::InvalidPl011Mapping)
    );
}

#[test]
fn plan_capacity_and_identity_proof_are_bounded() {
    let mut plan = MappingPlan::new();
    for index in 0..MAX_MAPPING_REQUESTS {
        plan.push(MappingRequest {
            virtual_start: 0x1000 + index as u64 * 0x2000,
            physical_start: 0x1000 + index as u64 * 0x2000,
            page_count: 1,
            permissions: Permissions::ReadOnlyNoExecute,
            memory_type: MemoryType::NormalWriteBack,
        })
        .unwrap();
    }
    assert_eq!(
        plan.push(MappingRequest {
            virtual_start: 0x20_0000,
            physical_start: 0x20_0000,
            page_count: 1,
            permissions: Permissions::ReadOnlyNoExecute,
            memory_type: MemoryType::NormalWriteBack,
        }),
        Err(PagingError::MappingPlanCapacityExceeded)
    );
    assert!(plan.contains_identity_range(IdentityRange { start: 0x1000, page_count: 1 }).unwrap());
    assert!(!plan.contains_identity_range(IdentityRange { start: 0x2000, page_count: 1 }).unwrap());
}

fn read_from(
    tables: &[u64; 4],
    entries: &[[u64; TABLE_ENTRIES]; 4],
    table: u64,
    index: usize,
) -> Result<u64, PagingError> {
    let table_index = tables
        .iter()
        .position(|candidate| *candidate == table)
        .ok_or(PagingError::InvalidDescriptor)?;
    Ok(entries[table_index][index])
}

#[test]
fn walker_decodes_four_levels_and_rejects_absence() {
    let root = 0x1000;
    let tables = [0x1000, 0x2000, 0x3000, 0x4000];
    let mut entries = [[0u64; TABLE_ENTRIES]; 4];
    let virtual_address = 0x0000_0000_4020_0123;
    let shifts = [39u32, 30, 21];
    for (level, shift) in shifts.into_iter().enumerate() {
        let index = ((virtual_address >> shift) & 0x1ff) as usize;
        entries[level][index] = table_descriptor(tables[level + 1]).unwrap();
    }
    entries[3][((virtual_address >> 12) & 0x1ff) as usize] =
        page_descriptor(0x5000, Permissions::ReadOnlyNoExecute, MemoryType::NormalWriteBack)
            .unwrap();
    let translation =
        walk_with(root, virtual_address, |table, index| read_from(&tables, &entries, table, index))
            .unwrap();
    assert_eq!(translation.physical_address, 0x5123);
    assert_eq!(translation.permissions, Permissions::ReadOnlyNoExecute);
    assert_eq!(
        walk_with(root, 0, |table, index| read_from(&tables, &entries, table, index)),
        Err(PagingError::NotMapped)
    );

    entries[3][((virtual_address >> 12) & 0x1ff) as usize] |= 1 << 55;
    assert_eq!(
        walk_with(root, virtual_address, |table, index| read_from(
            &tables, &entries, table, index
        )),
        Err(PagingError::InvalidDescriptor)
    );
}

#[test]
fn control_register_encodings_reject_unsupported_features() {
    let features = CpuFeatures::from_mmfr0(2).unwrap();
    assert_eq!(features.physical_address_bits, 40);
    let tcr = tcr_value(features).unwrap();
    assert_eq!(tcr & 0x3f, 16);
    assert_eq!((tcr >> 32) & 0b111, 2);
    assert_ne!(tcr & (1 << 23), 0);
    assert_eq!((tcr >> 16) & 0x3f, 16);
    assert_eq!((tcr >> 30) & 0b11, 0b10);
    assert_eq!(MAIR_VALUE & 0xff, 0xff);
    assert_eq!((MAIR_VALUE >> 8) & 0xff, 0);
    assert_eq!((MAIR_VALUE >> 16) & 0xff, 0x44);
    assert_eq!(
        SCTLR_REQUIRED_BITS & ((1 << 0) | (1 << 2) | (1 << 3) | (1 << 12) | (1 << 19)),
        SCTLR_REQUIRED_BITS
    );
    assert_eq!(CpuFeatures::from_mmfr0(0xf << 28), Err(PagingError::FourKiBGranuleUnsupported));
    assert_eq!(CpuFeatures::from_mmfr0(1 << 28), Err(PagingError::FourKiBGranuleUnsupported));
    assert_eq!(CpuFeatures::from_mmfr0(6), Err(PagingError::PhysicalAddressRangeUnsupported));
}

#[test]
fn descriptors_decode_back_to_their_request() {
    let raw = page_descriptor(0x7000, Permissions::ReadExecute, MemoryType::NormalWriteBack).unwrap();
    assert_eq!(
        decode_page_descriptor(raw, 0x12),
        Ok(Translation {
            physical_address: 0x7012,
            permissions: Permissions::ReadExecute,
            memory_type: MemoryType::NormalWriteBack,
        })
    );
    assert_eq!(decode_page_descriptor(0, 0), Err(PagingError::NotMapped));
    assert_eq!(decode_page_descriptor(1, 0), Err(PagingError::InvalidDescriptor));
    assert_eq!(
        page_descriptor(0x7000, Permissions::ReadExecute, MemoryType::Device),
        Err(PagingError::ExecutableDeviceMapping)
    );
    assert_eq!(
        page_descriptor(0x7001, Permissions::ReadExecute, MemoryType::NormalWriteBack),
        Err(PagingError::AddressNotPageAligned)
    );
    assert_eq!(
        page_descriptor(1 << 48, Permissions::ReadExecute, MemoryType::NormalWriteBack),
        Err(PagingError::PhysicalAddressOutOfRange)
    );
    let table = table_descriptor(0x3000).unwrap();
    assert_eq!(next_table(table), Ok(0x3000));
    assert_eq!(next_table(0), Err(PagingError::NotMapped));
    assert_eq!(next_table(1), Err(PagingError::InvalidDescriptor));
    let writable_executable = raw & !AP_READ_ONLY;
    assert_eq!(
        decode_page_descriptor(writable_executable, 0),
        Err(PagingError::WritableExecutableMapping)
    );
}

#[test]
fn identity_proof_walks_every_page_of_the_range() {
    let mut plan = MappingPlan::new();
    plan.push(MappingRequest {
        virtual_start: 0x10_0000,
        physical_start: 0x10_0000,
        page_count: 4,
        permissions: Permissions::ReadExecute,
        memory_type: MemoryType::NormalWriteBack,
    })
    .unwrap();
    plan.push(MappingRequest {
        virtual_start: 0x10_4000,
        physical_start: 0x20_0000,
        page_count: 1,
        permissions: Permissions::ReadOnlyNoExecute,
        memory_type: MemoryType::NormalWriteBack,
    })
    .unwrap();
    assert_eq!(plan.mapped_pages(), 5);
    assert_eq!(plan.as_slice().len(), 2);
    assert_eq!(plan.contains_identity_range(IdentityRange { start: 0x10_0000, page_count: 4 }), Ok(true));
    assert_eq!(plan.contains_identity_range(IdentityRange { start: 0x10_0000, page_count: 5 }), Ok(false));
    assert_eq!(
        plan.contains_identity_range(IdentityRange { start: 0x10_0000, page_count: 0 }),
        Err(PagingError::ZeroPageCount)
    );
    assert_eq!(
        plan.contains_identity_range(IdentityRange { start: 0x10_0010, page_count: 1 }),
        Err(PagingError::AddressNotPageAligned)
    );
    assert_eq!(
        IdentityRange { start: u64::MAX - 0xfff, page_count: 2 }.end(),
        Err(PagingError::AddressOverflow)
    );
}
