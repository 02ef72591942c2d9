use lib::task::{TaskError, TaskId, MAX_TASKS};
use lib::x86_64::context::{
    initial_frame_words, initialize_context, ContextError, TaskContext, INITIAL_FRAME_SIZE,
};
use lib::x86_64::paging::{
    build, ActiveAddressSpace, MapOutcome, MappingPermissions, MappingPlan, PageTablePagePool,
    PagingError, PhysicalFrame, VirtualPage, MAX_PAGE_TABLE_PAGES,
};
use lib::x86_64::task_stack::{
    map_task_stack, reclaim_task_stack, restore_task_stack, validate_task_stack, TaskStackError,
    TaskStackLayout, TaskStackLayoutError, TaskStackMapping, TASK_STACK_PAGE_COUNT,
};

#[test]
fn slots_are_guarded_aligned_and_disjoint() {
    let first = TaskStackLayout::for_slot(1).unwrap();
    assert_eq!(first.lower_guard, 0x0000_2800_0002_0000);
    assert_eq!(first.stack_end - first.stack_start, 64 * 1024);
    for slot in 1..MAX_TASKS {
        let layout = TaskStackLayout::for_slot(slot).unwrap();
        assert!(!layout.contains(layout.lower_guard));
        assert!(!layout.contains(layout.upper_guard));
        if slot > 1 {
            assert!(TaskStackLayout::for_slot(slot - 1).unwrap().slot_end <= layout.lower_guard);
        }
    }
}

#[test]
fn bootstrap_and_invalid_slots_are_rejected() {
    assert_eq!(
        TaskStackLayout::for_slot(0),
        Err(TaskStackLayoutError::BootstrapHasNoMappedStack)
    );
    assert_eq!(TaskStackLayout::for_slot(MAX_TASKS), Err(TaskStackLayoutError::InvalidSlot));
}

#[test]
fn empty_mapping_covers_the_slot_stack() {
    let mapping = TaskStackMapping::empty(2).unwrap();
    let layout = TaskStackLayout::for_slot(2).unwrap();
    assert!(mapping.is_empty());
    assert_eq!(mapping.slot(), 2);
    assert_eq!(mapping.virtual_start(), layout.stack_start);
    assert_eq!(mapping.virtual_end(), layout.stack_end);
    assert_eq!(mapping.mapped_count(), 0);
    assert_eq!(mapping.owned_count(), 0);
    assert_eq!(mapping.physical_page(0), None);
    assert_eq!(mapping.physical_page(TASK_STACK_PAGE_COUNT), None);
    assert!(mapping.contains(layout.stack_start));
    assert!(!mapping.contains(layout.stack_end));
    assert!(TaskStackMapping::empty(0).is_err());
}

#[test]
fn task_ids_require_a_slot_and_nonzero_generation() {
    let id = TaskId::new(3, 9).unwrap();
    assert_eq!(id.slot(), 3);
    assert_eq!(id.generation(), 9);
    assert_eq!(TaskId::new(MAX_TASKS as u8, 1), Err(TaskError::InvalidSlot));
    assert_eq!(TaskId::new(1, 0), Err(TaskError::InvalidGeneration));
}

#[test]
fn initial_context_sits_at_the_aligned_stack_top() {
    assert_eq!(
        initialize_context(0x1000, 0x2000, 0x4020_0000, 0x4020_0004),
        Ok(TaskContext { rsp: 0x2000 - INITIAL_FRAME_SIZE as u64 })
    );
    assert_eq!(
        initialize_context(0x1000, 0x1020, 0x4020_0000, 0x4020_0004),
        Err(ContextError::StackTooSmall)
    );
    assert_eq!(
        initialize_context(0x1000, 0x2008, 0x4020_0000, 0x4020_0004),
        Err(ContextError::StackTooSmall)
    );
    assert_eq!(
        initialize_context(0x1000, 0x2000, 0x0001_0000_0000_0000, 0x4020_0004),
        Err(ContextError::InvalidInstructionAddress)
    );
    assert_eq!(
        initial_frame_words(0xaaaa, 0xbbbb),
        [0, 0, 0, 0, 0, 0, 0xaaaa, 0xbbbb]
    );
}

fn mapped_stack(slot: usize) -> (TaskStackMapping, lib::x86_64::paging::ActiveAddressSpace) {
    let pages: Vec<u64> = (0..MAX_PAGE_TABLE_PAGES as u64).map(|i| 0x10_0000 + i * 0x1000).collect();
    let pool = PageTablePagePool::reserve(&pages).unwrap();
    let mut space = build(&MappingPlan::new(), pool, 48).unwrap();
    let mut mapping = TaskStackMapping::empty(slot).unwrap();
    for index in 0..TASK_STACK_PAGE_COUNT {
        let frame = 0x80_0000 + (index as u64) * 0x1000;
        let page = VirtualPage::new(mapping.virtual_start + (index as u64) * 0x1000).unwrap();
        space
            .map_page(page, PhysicalFrame::new(frame, 48).unwrap(), MappingPermissions::kernel_rw_nx())
            .unwrap();
        mapping.physical_pages[index] = frame;
        mapping.owned_count += 1;
        mapping.mapped_count += 1;
    }
    (mapping, space)
}

#[test]
fn fully_mapped_stack_with_empty_guards_validates() {
    let (mapping, space) = mapped_stack(3);
    assert_eq!(validate_task_stack(&mapping, &space), Ok(()));
}

#[test]
fn stack_validation_rejects_bad_metadata_and_mappings() {
    let (mapping, mut space) = mapped_stack(2);
    let mut short = mapping.clone();
    short.mapped_count -= 1;
    assert_eq!(validate_task_stack(&short, &space), Err(TaskStackError::CorruptMapping));
    let mut wrong_frame = mapping.clone();
    wrong_frame.physical_pages[5] = 0x90_0000;
    assert_eq!(validate_task_stack(&wrong_frame, &space), Err(TaskStackError::CorruptMapping));
    let mut bootstrap = mapping.clone();
    bootstrap.slot = 0;
    assert_eq!(
        validate_task_stack(&bootstrap, &space),
        Err(TaskStackError::Layout(TaskStackLayoutError::BootstrapHasNoMappedStack))
    );
    let layout = TaskStackLayout::for_slot(2).unwrap();
    let guard = VirtualPage::new(layout.upper_guard).unwrap();
    space
        .map_page(guard, PhysicalFrame::new(0xa0_0000, 48).unwrap(), MappingPermissions::kernel_rw_nx())
        .unwrap();
    assert_eq!(validate_task_stack(&mapping, &space), Err(TaskStackError::CorruptMapping));
    let mut reordered = mapping.clone();
    reordered.physical_pages.swap(0, 1);
    assert_eq!(validate_task_stack(&reordered, &space), Err(TaskStackError::CorruptMapping));
}

fn space_with_width(width: u8) -> ActiveAddressSpace {
    let pages: Vec<u64> = (0..MAX_PAGE_TABLE_PAGES as u64).map(|i| 0x10_0000 + i * 0x1000).collect();
    build(&MappingPlan::new(), PageTablePagePool::reserve(&pages).unwrap(), width).unwrap()
}

fn stack_frames(first: u64) -> [u64; 16] {
    let mut frames = [0u64; 16];
    for (index, frame) in frames.iter_mut().enumerate() {
        *frame = first + (index as u64) * 0x1000;
    }
    frames
}

#[test]
fn restore_returns_to_pre_reclaim_mapped_baseline() {
    let mut address_space = space_with_width(52);
    let layout = TaskStackLayout::for_slot(2).unwrap();
    let mut original = TaskStackMapping::empty(2).unwrap();
    for index in 0..TASK_STACK_PAGE_COUNT {
        let physical = 0x4000_0000 + (index as u64) * 0x1000;
        let virtual_address = layout.stack_start + (index as u64) * 0x1000;
        original.physical_pages[index] = physical;
        original.owned_count += 1;
        assert_eq!(
            address_space
                .map_page(
                    VirtualPage::new(virtual_address).unwrap(),
                    PhysicalFrame::new(physical, 52).unwrap(),
                    MappingPermissions::kernel_rw_nx(),
                )
                .unwrap(),
            MapOutcome::Created
        );
        original.mapped_count += 1;
    }
    validate_task_stack(&original, &address_space).unwrap();

    let mapped_before = address_space.mapped_pages();
    let mut reclaimed = original.clone();
    reclaim_task_stack(&mut reclaimed, &mut address_space).unwrap();
    assert!(reclaimed.is_empty());
    assert_eq!(address_space.mapped_pages() + TASK_STACK_PAGE_COUNT as u64, mapped_before);

    restore_task_stack(&original, &mut address_space, mapped_before).unwrap();
    assert_eq!(address_space.mapped_pages(), mapped_before);
    validate_task_stack(&original, &address_space).unwrap();
}

#[test]
fn mapped_stack_validates_and_reclaim_unmaps_it() {
    let mut space = space_with_width(48);
    let before = space.mapped_pages();
    let mut mapping = TaskStackMapping::empty(4).unwrap();
    let frames = stack_frames(0x80_0000);
    assert_eq!(map_task_stack(&mut mapping, &mut space, &frames), Ok(()));
    assert_eq!(mapping.owned_count(), TASK_STACK_PAGE_COUNT);
    assert_eq!(mapping.mapped_count(), TASK_STACK_PAGE_COUNT);
    assert_eq!(mapping.physical_pages, frames);
    assert_eq!(space.mapped_pages(), before + TASK_STACK_PAGE_COUNT as u64);
    assert_eq!(validate_task_stack(&mapping, &space), Ok(()));
    let top = space.translate(mapping.virtual_end - 8).unwrap().unwrap();
    assert_eq!(top.physical_address, frames[15] + 0xff8);
    assert_eq!(map_task_stack(&mut mapping, &mut space, &frames), Err(TaskStackError::AlreadyMapped));
    assert_eq!(reclaim_task_stack(&mut mapping, &mut space), Ok(()));
    assert!(mapping.is_empty());
    assert_eq!(space.mapped_pages(), before);
    assert_eq!(space.translate(mapping.virtual_start), Ok(None));
}

#[test]
fn failed_stack_mapping_rolls_back_every_created_leaf() {
    let mut space = space_with_width(48);
    let before = space.mapped_pages();
    let layout = TaskStackLayout::for_slot(3).unwrap();
    let blocker = VirtualPage::new(layout.stack_start + 5 * 0x1000).unwrap();
    space
        .map_page(blocker, PhysicalFrame::new(0x70_0000, 48).unwrap(), MappingPermissions::kernel_rw_nx())
        .unwrap();
    let mut mapping = TaskStackMapping::empty(3).unwrap();
    assert_eq!(
        map_task_stack(&mut mapping, &mut space, &stack_frames(0x80_0000)),
        Err(TaskStackError::Paging(PagingError::AlreadyMapped))
    );
    assert!(mapping.is_empty());
    assert_eq!(mapping.mapped_count(), 0);
    assert_eq!(space.mapped_pages(), before + 1);
    assert_eq!(space.translate(layout.stack_start), Ok(None));
    assert_eq!(
        space.translate(layout.stack_start + 5 * 0x1000).unwrap().unwrap().physical_address,
        0x70_0000
    );

    let mut misaligned = TaskStackMapping::empty(2).unwrap();
    let mut frames = stack_frames(0x80_0000);
    frames[2] += 8;
    assert!(matches!(
        map_task_stack(&mut misaligned, &mut space, &frames),
        Err(TaskStackError::Paging(_))
    ));
    assert!(misaligned.is_empty());
    assert_eq!(space.translate(TaskStackLayout::for_slot(2).unwrap().stack_start), Ok(None));

    let mut bootstrap = TaskStackMapping::empty(2).unwrap();
    bootstrap.slot = 0;
    assert_eq!(
        map_task_stack(&mut bootstrap, &mut space, &frames),
        Err(TaskStackError::Layout(TaskStackLayoutError::BootstrapHasNoMappedStack))
    );
}

#[test]
fn stack_validation_failure_after_mapping_rolls_back() {
    let mut space = space_with_width(48);
    let layout = TaskStackLayout::for_slot(5).unwrap();
    let guard = VirtualPage::new(layout.lower_guard).unwrap();
    space
        .map_page(guard, PhysicalFrame::new(0x70_0000, 48).unwrap(), MappingPermissions::kernel_rw_nx())
        .unwrap();
    let mut mapping = TaskStackMapping::empty(5).unwrap();
    assert_eq!(
        map_task_stack(&mut mapping, &mut space, &stack_frames(0x80_0000)),
        Err(TaskStackError::CorruptMapping)
    );
    assert!(mapping.is_empty());
    assert_eq!(space.translate(layout.stack_start), Ok(None));
}

#[test]
fn restore_rejects_incomplete_metadata() {
    let mut space = space_with_width(48);
    let mapping = TaskStackMapping::empty(2).unwrap();
    let baseline = space.mapped_pages();
    assert_eq!(restore_task_stack(&mapping, &mut space, baseline), Err(TaskStackError::CorruptMapping));
}
