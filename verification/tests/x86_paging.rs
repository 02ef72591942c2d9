use lib::x86_64::paging::{
    align_down, align_up, is_canonical, page_directory_index, page_offset, page_table_index,
    pdpt_index, pml4_index, MappingPermissions, PageTableEntry, MappingPlan, MappingPurpose, MappingRequest,
    PagingError, PhysicalAddress, PhysicalFrame, VirtualAddress, VirtualPage,
    MAX_PAGE_TABLE_PAGES,
};

#[test]
fn canonical_and_indices() {
    assert!(is_canonical(0x0000_7fff_ffff_f000));
    assert!(is_canonical(0xffff_8000_0000_0000));
    assert!(!is_canonical(0x0001_0000_0000_0000));
    assert_eq!(pml4_index(0x1234_5678_9abc), 0x24);
    assert_eq!(page_offset(0x1234), 0x234);
}

#[test]
fn alignment_and_width() {
    assert_eq!(align_down(0x1234), 0x1000);
    assert_eq!(align_up(0x1001), Ok(0x2000));
    assert_eq!(align_up(u64::MAX), Err(PagingError::AddressOverflow));
    assert!(PhysicalAddress::new(1 << 36, 36).is_err());
    assert!(PhysicalAddress::new((1 << 36) - 1, 36).is_ok());
}

#[test]
fn plan_rejects_conflicts_and_null() {
    let mut p = MappingPlan::new();
    let r = MappingRequest {
        virtual_start: 0x1000,
        physical_start: 0x1000,
        page_count: 1,
        permissions: MappingPermissions::kernel_r_nx(),
        purpose: MappingPurpose::BootInfo,
    };
    p.push(r).unwrap();
    assert!(p.push(r).is_ok());
    let mut c = r;
    c.permissions = MappingPermissions::kernel_rw_nx();
    assert_eq!(p.push(c), Err(PagingError::MappingConflict));
    let mut z = r;
    z.virtual_start = 0;
    assert_eq!(p.push(z), Err(PagingError::NullPageMapped));
}

#[test]
fn pool_capacity_is_fixed() {
    assert_eq!(MAX_PAGE_TABLE_PAGES, 64);
    assert_eq!(MappingPlan::new().len(), 0);
}

#[test]
fn indices_select_nine_bits_per_level() {
    let address = 0xffff_8123_4567_89ab_u64;
    assert_eq!(pml4_index(address), (address >> 39) as usize & 0x1ff);
    assert_eq!(pdpt_index(address), (address >> 30) as usize & 0x1ff);
    assert_eq!(page_directory_index(address), (address >> 21) as usize & 0x1ff);
    assert_eq!(page_table_index(address), (address >> 12) as usize & 0x1ff);
    assert_eq!(page_offset(address), 0x9ab);
}

#[test]
fn address_wrappers_validate_alignment_width_and_canonicality() {
    assert_eq!(PhysicalAddress::new(0x1000, 35), Err(PagingError::InvalidPhysicalAddressWidth));
    assert_eq!(PhysicalAddress::new(1 << 40, 36), Err(PagingError::PhysicalAddressTooWide));
    assert_eq!(PhysicalFrame::new(0x1001, 48), Err(PagingError::AddressNotPageAligned));
    assert_eq!(PhysicalFrame::new(0x2000, 48).unwrap().address(), 0x2000);
    assert_eq!(VirtualAddress::new(0x0001_0000_0000_0000), Err(PagingError::InvalidCanonicalAddress));
    assert_eq!(VirtualAddress::new(0x1234).unwrap().value(), 0x1234);
    assert_eq!(VirtualPage::new(0x1234), Err(PagingError::AddressNotPageAligned));
    assert_eq!(VirtualPage::new(0xffff_8000_0000_1000).unwrap().address(), 0xffff_8000_0000_1000);
}

#[test]
fn permissions_reject_writable_executable_and_user() {
    assert_eq!(MappingPermissions::kernel_rx().validate(), Ok(()));
    assert_eq!(MappingPermissions::framebuffer().validate(), Ok(()));
    let mut user = MappingPermissions::kernel_r_nx();
    user.user = true;
    assert_eq!(user.validate(), Err(PagingError::UserMappingForbidden));
}

#[test]
fn plan_keeps_requests_sorted_and_rejects_overlap() {
    let mut p = MappingPlan::new();
    let high = MappingRequest {
        virtual_start: 0x8000,
        physical_start: 0x8000,
        page_count: 2,
        permissions: MappingPermissions::kernel_rx(),
        purpose: MappingPurpose::KernelText,
    };
    let low = MappingRequest {
        virtual_start: 0x2000,
        physical_start: 0x2000,
        page_count: 1,
        permissions: MappingPermissions::kernel_r_nx(),
        purpose: MappingPurpose::BootInfo,
    };
    p.push(high).unwrap();
    p.push(low).unwrap();
    assert_eq!(p.len(), 2);
    assert_eq!(p.as_slice()[0], low);
    assert_eq!(p.as_slice()[1], high);
    let mut overlapping = high;
    overlapping.virtual_start = 0x9000;
    overlapping.physical_start = 0x9000;
    assert_eq!(p.push(overlapping), Err(PagingError::MappingConflict));
    let mut empty = low;
    empty.virtual_start = 0x4000;
    empty.page_count = 0;
    assert_eq!(p.push(empty), Err(PagingError::ZeroPageRange));
}

#[test]
fn entries_and_wx() {
    let frame = PhysicalFrame::new(0x2000, 48).unwrap();
    let e = PageTableEntry::leaf(frame, MappingPermissions::kernel_rx()).unwrap();
    assert!(e.is_present() && e.executable() && !e.writable());
    let n = PageTableEntry::leaf(frame, MappingPermissions::kernel_rw_nx()).unwrap();
    assert!(n.writable() && !n.executable());
    assert_eq!(
        MappingPermissions {
            writable: true,
            executable: true,
            user: false,
            write_through: false,
            cache_disable: false
        }
        .validate(),
        Err(PagingError::WritableExecutableMapping)
    );
}
