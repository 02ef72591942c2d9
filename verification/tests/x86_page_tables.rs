use lib::x86_64::paging::{
    activation_result, build, cpu_paging_info, cr0_with_write_protect, efer_with_nx,
    CpuPagingInfo, MapOutcome, MappingPermissions, MappingPlan, MappingPurpose, MappingRequest,
    PageTableEntry, PageTablePagePool, PagingError, PhysicalFrame, Translation, VirtualPage,
    MAX_PAGE_TABLE_PAGES,
};

fn pool_pages() -> Vec<u64> {
    (0..MAX_PAGE_TABLE_PAGES as u64).map(|i| 0x10_0000 + i * 0x1000).collect()
}

fn plan() -> MappingPlan {
    let mut plan = MappingPlan::new();
    plan.push(MappingRequest {
        virtual_start: 0x40_0000,
        physical_start: 0x20_0000,
        page_count: 2,
        permissions: MappingPermissions::kernel_r_nx(),
        purpose: MappingPurpose::KernelReadOnly,
    })
    .unwrap();
    plan
}

#[test]
fn entry_bits_decode_and_address_respects_width() {
    let frame = PhysicalFrame::new(0x0000_00ff_ffff_f000, 48).unwrap();
    let leaf = PageTableEntry::leaf(frame, MappingPermissions::framebuffer()).unwrap();
    assert!(leaf.is_present() && !leaf.is_huge() && !leaf.user());
    assert!(leaf.cache_disable() && leaf.write_through());
    assert_eq!(leaf.address(48), Ok(0x0000_00ff_ffff_f000));
    assert_eq!(leaf.address(36), Err(PagingError::InvalidPageTableEntry));
    let table = PageTableEntry::table(PhysicalFrame::new(0x5000, 48).unwrap());
    assert_eq!(table.raw(), 0x5003);
    assert!(!PageTableEntry::empty().is_present());
    let mut user = MappingPermissions::kernel_r_nx();
    user.user = true;
    assert_eq!(PageTableEntry::leaf(frame, user), Err(PagingError::UserMappingForbidden));
}

#[test]
fn pool_reserves_exactly_its_capacity_and_hands_pages_out_in_order() {
    assert_eq!(
        PageTablePagePool::reserve(&pool_pages()[..10]),
        Err(PagingError::PageTablePoolExhausted)
    );
    let mut pool = PageTablePagePool::reserve(&pool_pages()).unwrap();
    assert_eq!(pool.reserved_count(), MAX_PAGE_TABLE_PAGES);
    assert_eq!(pool.used_count(), 0);
    assert_eq!(pool.take(), Ok(0x10_0000));
    assert_eq!(pool.take(), Ok(0x10_1000));
    assert_eq!(pool.used_count(), 2);
    assert_eq!(pool.pages().len(), MAX_PAGE_TABLE_PAGES);
    let mut empty = PageTablePagePool::empty();
    assert_eq!(empty.take(), Err(PagingError::PageTablePoolExhausted));
    let mut odd = pool_pages();
    odd[0] = 0x10_0800;
    let mut misaligned = PageTablePagePool::reserve(&odd).unwrap();
    assert_eq!(misaligned.take(), Err(PagingError::AddressNotPageAligned));
    assert_eq!(misaligned.used_count(), 0);
}

#[test]
fn built_space_translates_the_plan_and_the_pool() {
    let pool = PageTablePagePool::reserve(&pool_pages()).unwrap();
    let space = build(&plan(), pool, 48).unwrap();
    assert_eq!(space.root().address(), 0x10_0000);
    assert_eq!(space.width(), 48);
    assert_eq!(space.mapped_pages(), MAX_PAGE_TABLE_PAGES as u64 + 2);
    assert_eq!(
        space.translate(0x40_1123),
        Ok(Some(Translation {
            physical_address: 0x20_1123,
            page_size: 4096,
            effective_writable: false,
            effective_user: false,
            effective_executable: false,
            cache_disable: false,
            write_through: false,
        }))
    );
    let pool_page = space.translate(0x10_2008).unwrap().unwrap();
    assert_eq!(pool_page.physical_address, 0x10_2008);
    assert!(pool_page.effective_writable && !pool_page.effective_executable);
    assert_eq!(space.translate(0x40_2000), Ok(None));
    assert_eq!(space.translate(0x0001_0000_0000_0000), Err(PagingError::InvalidCanonicalAddress));
    assert!(space.pool().used_count() > 1);
}

#[test]
fn map_reports_created_present_or_conflict_and_unmap_returns_the_frame() {
    let pool = PageTablePagePool::reserve(&pool_pages()).unwrap();
    let mut space = build(&MappingPlan::new(), pool, 48).unwrap();
    let page = VirtualPage::new(0xffff_8000_0000_3000).unwrap();
    let frame = PhysicalFrame::new(0x9000, 48).unwrap();
    assert_eq!(space.translate(0xffff_8000_0000_3010), Ok(None));
    assert_eq!(
        space.map_page(page, frame, MappingPermissions::kernel_rw_nx()),
        Ok(MapOutcome::Created)
    );
    assert_eq!(space.translate(0xffff_8000_0000_3010).unwrap().unwrap().physical_address, 0x9010);
    assert_eq!(
        space.map_page(page, frame, MappingPermissions::kernel_rw_nx()),
        Ok(MapOutcome::AlreadyPresent)
    );
    let other = PhysicalFrame::new(0xa000, 48).unwrap();
    assert_eq!(
        space.map_page(page, other, MappingPermissions::kernel_rw_nx()),
        Err(PagingError::AlreadyMapped)
    );
    let wx = MappingPermissions {
        writable: true,
        executable: true,
        user: false,
        write_through: false,
        cache_disable: false,
    };
    let fresh = VirtualPage::new(0xffff_8000_0000_4000).unwrap();
    assert_eq!(space.map_page(fresh, other, wx), Err(PagingError::WritableExecutableMapping));
    assert_eq!(space.translate(0xffff_8000_0000_4000), Ok(None));
    assert_eq!(space.unmap_page(page), Ok(frame));
    assert_eq!(space.translate(0xffff_8000_0000_3010), Ok(None));
    assert_eq!(space.unmap_page(page), Err(PagingError::NotMapped));
    assert_eq!(space.unmap_page(fresh), Err(PagingError::NotMapped));
}

#[test]
fn table_pages_run_out_with_the_pool() {
    let pool = PageTablePagePool::reserve(&pool_pages()).unwrap();
    let mut space = build(&MappingPlan::new(), pool, 48).unwrap();
    let frame = PhysicalFrame::new(0x9000, 48).unwrap();
    let mut result = Ok(MapOutcome::Created);
    for i in 0..200u64 {
        let page = VirtualPage::new(0x0000_4000_0000_0000 + i * 0x4000_0000).unwrap();
        result = space.map_page(page, frame, MappingPermissions::kernel_r_nx());
        if result.is_err() {
            break;
        }
    }
    assert_eq!(result, Err(PagingError::PageTablePoolExhausted));
}

#[test]
fn cpu_support_is_checked_in_order() {
    let cr0 = 0x8000_0011;
    let cr4 = 0x20;
    assert_eq!(
        cpu_paging_info(0x8000_0008, 1 << 20, 0x3028, cr0, cr4, 0x1000),
        Ok(CpuPagingInfo { physical_address_width: 40, nx_supported: true, old_cr3: 0x1000 })
    );
    assert_eq!(
        cpu_paging_info(0x8000_0000, 1 << 20, 0x3028, cr0, cr4, 0),
        Err(PagingError::NxUnsupported)
    );
    assert_eq!(cpu_paging_info(0x8000_0008, 0, 0x3028, cr0, cr4, 0), Err(PagingError::NxUnsupported));
    assert_eq!(
        cpu_paging_info(0x8000_0007, 1 << 20, 0x3028, cr0, cr4, 0),
        Err(PagingError::InvalidPhysicalAddressWidth)
    );
    assert_eq!(
        cpu_paging_info(0x8000_0008, 1 << 20, 0x3028, cr0, cr4 | 0x1000, 0),
        Err(PagingError::UnsupportedFiveLevelPaging)
    );
    assert_eq!(
        cpu_paging_info(0x8000_0008, 1 << 20, 0x3028, 0x11, cr4, 0),
        Err(PagingError::PagingNotEnabled)
    );
    assert_eq!(
        cpu_paging_info(0x8000_0008, 1 << 20, 0x3028, cr0, 0, 0),
        Err(PagingError::PaeNotEnabled)
    );
    assert_eq!(
        cpu_paging_info(0x8000_0008, 1 << 20, 0x3020, cr0, cr4, 0),
        Err(PagingError::InvalidPhysicalAddressWidth)
    );
}

#[test]
fn activation_read_backs_are_checked() {
    assert_eq!(efer_with_nx(0x500), 0xd00);
    assert_eq!(cr0_with_write_protect(0x8000_0011), 0x8001_0011);
    assert_eq!(activation_result(0xd00, 0x8001_0011, 0x10_0018, 0x10_0000), Ok(()));
    assert_eq!(
        activation_result(0x500, 0x8001_0011, 0x10_0000, 0x10_0000),
        Err(PagingError::EferNxFailed)
    );
    assert_eq!(
        activation_result(0xd00, 0x8000_0011, 0x10_0000, 0x10_0000),
        Err(PagingError::Cr0WriteProtectFailed)
    );
    assert_eq!(
        activation_result(0xd00, 0x8001_0011, 0x20_0000, 0x10_0000),
        Err(PagingError::Cr3ActivationFailed)
    );
}

#[test]
fn unusable_root_page_is_reported_before_any_mapping() {
    let mut pages = pool_pages();
    pages[0] = 0x10_0010;
    let pool = PageTablePagePool::reserve(&pages).unwrap();
    assert_eq!(build(&MappingPlan::new(), pool, 48).err(), Some(PagingError::AddressNotPageAligned));
    let mut pages = pool_pages();
    pages[0] = 0x1_0000_0000_0000;
    let pool = PageTablePagePool::reserve(&pages).unwrap();
    assert_eq!(build(&MappingPlan::new(), pool, 48).err(), Some(PagingError::PhysicalAddressTooWide));
}
