use lib::x86_64::heap::{
    HeapMappingError, KernelHeapMapping, KERNEL_HEAP_END, KERNEL_HEAP_GUARD_HIGH,
    KERNEL_HEAP_GUARD_LOW, KERNEL_HEAP_PAGE_COUNT, KERNEL_HEAP_REGION_BASE, KERNEL_HEAP_SIZE,
    KERNEL_HEAP_START,
};
use lib::x86_64::paging::{
    build, ActiveAddressSpace, MapOutcome, MappingPermissions, MappingPlan, PageTablePagePool,
    PagingError, PhysicalFrame, VirtualPage, MAX_PAGE_TABLE_PAGES,
};

fn space() -> ActiveAddressSpace {
    let pages: Vec<u64> = (0..MAX_PAGE_TABLE_PAGES as u64).map(|i| 0x10_0000 + i * 0x1000).collect();
    build(&MappingPlan::new(), PageTablePagePool::reserve(&pages).unwrap(), 48).unwrap()
}

fn heap_frames(count: usize) -> Vec<u64> {
    (0..count as u64).map(|i| 0x100_0000 + i * 0x1000).collect()
}

fn map_one(space: &mut ActiveAddressSpace, virtual_address: u64, frame: u64) -> MapOutcome {
    space
        .map_page(
            VirtualPage::new(virtual_address).unwrap(),
            PhysicalFrame::new(frame, 48).unwrap(),
            MappingPermissions::kernel_rw_nx(),
        )
        .unwrap()
}

#[test]
fn heap_layout_is_one_mebibyte_between_two_guards() {
    assert_eq!(KERNEL_HEAP_SIZE, 1024 * 1024);
    assert_eq!(KERNEL_HEAP_PAGE_COUNT, 256);
    assert_eq!(KERNEL_HEAP_START, KERNEL_HEAP_REGION_BASE + 0x1000);
    assert_eq!(KERNEL_HEAP_END, KERNEL_HEAP_START + KERNEL_HEAP_SIZE as u64);
    assert_eq!(KERNEL_HEAP_GUARD_LOW, KERNEL_HEAP_REGION_BASE);
    assert_eq!(KERNEL_HEAP_GUARD_HIGH, KERNEL_HEAP_END);
}

#[test]
fn empty_heap_mapping_owns_nothing() {
    let heap = KernelHeapMapping::empty();
    assert_eq!(heap.mapped_count(), 0);
    assert_eq!(heap.physical_page(0), Some(0));
    assert_eq!(heap.physical_page(KERNEL_HEAP_PAGE_COUNT), None);
    assert_eq!(heap.validate(&space()), Ok(()));
}

#[test]
fn initialized_heap_maps_every_page_to_its_frame() {
    let mut space = space();
    let before = space.mapped_pages();
    let frames = heap_frames(KERNEL_HEAP_PAGE_COUNT);
    let mut heap = KernelHeapMapping::empty();
    assert_eq!(heap.initialize(&mut space, &frames), Ok(()));
    assert_eq!(heap.mapped_count(), KERNEL_HEAP_PAGE_COUNT);
    assert_eq!(heap.physical_page(7), Some(frames[7]));
    assert_eq!(space.mapped_pages(), before + KERNEL_HEAP_PAGE_COUNT as u64);
    let first = space.translate(KERNEL_HEAP_START).unwrap().unwrap();
    assert_eq!(first.physical_address, frames[0]);
    assert!(first.effective_writable && !first.effective_executable && !first.effective_user);
    let last = space.translate(KERNEL_HEAP_END - 1).unwrap().unwrap();
    assert_eq!(last.physical_address, frames[255] + 0xfff);
    assert_eq!(space.translate(KERNEL_HEAP_GUARD_LOW), Ok(None));
    assert_eq!(space.translate(KERNEL_HEAP_GUARD_HIGH), Ok(None));
    assert_eq!(heap.validate(&space), Ok(()));
}

#[test]
fn too_few_frames_unmaps_the_pages_already_mapped() {
    let mut space = space();
    let before = space.mapped_pages();
    let mut heap = KernelHeapMapping::empty();
    assert_eq!(
        heap.initialize(&mut space, &heap_frames(10)),
        Err(HeapMappingError::PhysicalAllocation)
    );
    assert_eq!(heap.mapped_count(), 0);
    assert_eq!(heap.physical_page(3), Some(0));
    assert_eq!(space.mapped_pages(), before);
    assert_eq!(space.translate(KERNEL_HEAP_START), Ok(None));
    assert_eq!(space.translate(KERNEL_HEAP_START + 9 * 0x1000), Ok(None));
}

#[test]
fn mapped_guard_pages_stop_initialization() {
    let mut low = space();
    map_one(&mut low, KERNEL_HEAP_GUARD_LOW, 0x70_0000);
    let mut heap = KernelHeapMapping::empty();
    let frames = heap_frames(KERNEL_HEAP_PAGE_COUNT);
    assert_eq!(heap.initialize(&mut low, &frames), Err(HeapMappingError::GuardPageMapped));
    assert_eq!(low.translate(KERNEL_HEAP_START), Ok(None));

    let mut high = space();
    map_one(&mut high, KERNEL_HEAP_GUARD_HIGH, 0x70_0000);
    assert_eq!(heap.initialize(&mut high, &frames), Err(HeapMappingError::GuardPageMapped));
    assert_eq!(heap.mapped_count(), 0);
}

#[test]
fn conflicting_heap_page_rolls_back_and_keeps_the_conflict() {
    let mut space = space();
    map_one(&mut space, KERNEL_HEAP_START + 5 * 0x1000, 0x70_0000);
    let before = space.mapped_pages();
    let mut heap = KernelHeapMapping::empty();
    assert_eq!(
        heap.initialize(&mut space, &heap_frames(KERNEL_HEAP_PAGE_COUNT)),
        Err(HeapMappingError::Paging(PagingError::AlreadyMapped))
    );
    assert_eq!(heap.mapped_count(), 0);
    assert_eq!(space.mapped_pages(), before);
    assert_eq!(space.translate(KERNEL_HEAP_START), Ok(None));
    assert_eq!(
        space.translate(KERNEL_HEAP_START + 5 * 0x1000).unwrap().unwrap().physical_address,
        0x70_0000
    );
}

#[test]
fn identical_existing_heap_page_is_refused() {
    let mut space = space();
    let frames = heap_frames(KERNEL_HEAP_PAGE_COUNT);
    assert_eq!(map_one(&mut space, KERNEL_HEAP_START + 3 * 0x1000, frames[3]), MapOutcome::Created);
    let mut heap = KernelHeapMapping::empty();
    assert_eq!(
        heap.initialize(&mut space, &frames),
        Err(HeapMappingError::MappingValidationFailed)
    );
    assert_eq!(heap.mapped_count(), 0);
    assert_eq!(space.translate(KERNEL_HEAP_START), Ok(None));
    assert!(space.translate(KERNEL_HEAP_START + 3 * 0x1000).unwrap().is_some());
}

#[test]
fn misaligned_frame_is_a_paging_error() {
    let mut space = space();
    let mut frames = heap_frames(KERNEL_HEAP_PAGE_COUNT);
    frames[4] += 8;
    let mut heap = KernelHeapMapping::empty();
    assert_eq!(
        heap.initialize(&mut space, &frames),
        Err(HeapMappingError::Paging(PagingError::AddressNotPageAligned))
    );
    assert_eq!(heap.mapped_count(), 0);
    assert_eq!(space.translate(KERNEL_HEAP_START + 3 * 0x1000), Ok(None));
}

#[test]
fn validation_notices_missing_pages_and_mapped_guards() {
    let mut space = space();
    let frames = heap_frames(KERNEL_HEAP_PAGE_COUNT);
    let mut heap = KernelHeapMapping::empty();
    heap.initialize(&mut space, &frames).unwrap();
    space.unmap_page(VirtualPage::new(KERNEL_HEAP_START + 0x1000).unwrap()).unwrap();
    assert_eq!(heap.validate(&space), Err(HeapMappingError::MappingValidationFailed));
    map_one(&mut space, KERNEL_HEAP_GUARD_HIGH, 0x70_0000);
    assert_eq!(heap.validate(&space), Err(HeapMappingError::GuardPageMapped));
}
