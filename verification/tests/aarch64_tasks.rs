use lib::aarch64::context::{
    initial_frame_words, initialize_context, ContextError, INITIAL_FRAME_SIZE,
};
use lib::aarch64::address_space::build;
use lib::aarch64::paging::{MappingPlan, PagingError, MAX_TABLE_PAGES};
use lib::aarch64::task_stack::{
    map_task_stack, reclaim_task_stack, restore_task_stack, validate_task_stack, TaskStackError,
    TaskStackLayout, TaskStackLayoutError, TaskStackMapping, PAGE_SIZE, TASK_STACK_PAGE_COUNT,
    TASK_STACK_REGION_BASE, TASK_STACK_SIZE, TASK_STACK_SLOT_STRIDE,
};
use lib::task::MAX_TASKS;

#[test]
fn initial_frame_size_is_16_byte_aligned() {
    assert_eq!(INITIAL_FRAME_SIZE % 16, 0);
    assert_eq!(INITIAL_FRAME_SIZE, 96);
}

#[test]
fn initialize_context_bounds_checks() {
    let res = initialize_context(0x1000, 0x1020, 0x4020_0000, 0x4020_0004);
    assert_eq!(res, Err(ContextError::StackTooSmall));

    let res_aligned = initialize_context(0x1000, 0x2000, 0x4020_0000, 0x4020_0004);
    assert!(res_aligned.is_ok());
    assert_eq!(res_aligned.unwrap().sp, 0x2000 - 96);
}

#[test]
fn context_rejects_invalid_instruction_addresses() {
    assert_eq!(
        initialize_context(0x1000, 0x2000, 0, 0x4020_0004),
        Err(ContextError::InvalidInstructionAddress)
    );
    assert_eq!(
        initialize_context(0x1000, 0x2000, 0x4020_0002, 0x4020_0004),
        Err(ContextError::InvalidInstructionAddress)
    );
    assert_eq!(
        initialize_context(0x1000, 0x2000, 0x4020_0000, 0),
        Err(ContextError::InvalidInstructionAddress)
    );
    assert_eq!(
        initialize_context(0x1000, 0x2008, 0x4020_0000, 0x4020_0004),
        Err(ContextError::StackTooSmall)
    );
    assert_eq!(initialize_context(0, 0x40, 0x4020_0000, 0x4020_0004), Err(ContextError::StackTooSmall));
    let words = initial_frame_words(0x4020_0000);
    assert_eq!(words[11], 0x4020_0000);
    assert!(words[..11].iter().all(|w| *w == 0));
}

#[test]
fn layout_calculations_match_slot_expectations() {
    assert_eq!(
        TaskStackLayout::for_slot(0),
        Err(TaskStackLayoutError::BootstrapHasNoMappedStack)
    );

    let s1 = TaskStackLayout::for_slot(1).unwrap();
    assert_eq!(s1.lower_guard, TASK_STACK_REGION_BASE + TASK_STACK_SLOT_STRIDE);
    assert_eq!(s1.stack_start, s1.lower_guard + PAGE_SIZE);
    assert_eq!(s1.stack_end, s1.stack_start + (TASK_STACK_PAGE_COUNT as u64) * PAGE_SIZE);
    assert_eq!(s1.stack_end - s1.stack_start, TASK_STACK_SIZE as u64);
    assert_eq!(s1.upper_guard, s1.stack_end);
    assert_eq!(s1.slot_end, s1.lower_guard + TASK_STACK_SLOT_STRIDE);
}

#[test]
fn arm_slots_are_disjoint_and_mappings_start_empty() {
    assert_eq!(TaskStackLayout::for_slot(MAX_TASKS), Err(TaskStackLayoutError::InvalidSlot));
    for slot in 2..MAX_TASKS {
        let previous = TaskStackLayout::for_slot(slot - 1).unwrap();
        let layout = TaskStackLayout::for_slot(slot).unwrap();
        assert!(previous.slot_end <= layout.lower_guard);
    }
    let mapping = TaskStackMapping::empty(3).unwrap();
    assert!(mapping.is_empty());
    assert_eq!(mapping.slot(), 3);
    assert_eq!(mapping.owned_count(), 0);
    assert!(mapping.contains(mapping.virtual_start()));
    assert!(!mapping.contains(mapping.virtual_end()));
    assert_eq!(TaskStackMapping::empty(0), Err(TaskStackLayoutError::BootstrapHasNoMappedStack));
}

fn stack_space() -> lib::aarch64::address_space::ActiveAddressSpace {
    let pages: Vec<u64> = (0..MAX_TABLE_PAGES as u64).map(|i| 0x4200_0000 + i * 0x1000).collect();
    let identity = vec![true; pages.len()];
    build(&MappingPlan::new(), &pages, 5, 0, &identity).unwrap()
}

fn stack_frames(first: u64) -> [u64; 16] {
    let mut frames = [0u64; 16];
    for (index, frame) in frames.iter_mut().enumerate() {
        *frame = first + index as u64 * PAGE_SIZE;
    }
    frames
}

#[test]
fn stack_maps_validates_and_reclaims() {
    let mut space = stack_space();
    let mut mapping = TaskStackMapping::empty(2).unwrap();
    let frames = stack_frames(0x4800_0000);
    assert_eq!(map_task_stack(&mut mapping, &mut space, &frames), Ok(()));
    assert_eq!(mapping.owned_count(), TASK_STACK_PAGE_COUNT);
    assert_eq!(validate_task_stack(&mapping, &space), Ok(()));
    let top = space.translate(mapping.virtual_end() - 8).unwrap();
    assert_eq!(top.physical_address, frames[15] + PAGE_SIZE - 8);
    assert_eq!(
        map_task_stack(&mut mapping, &mut space, &frames),
        Err(TaskStackError::AlreadyMapped)
    );
    let start = mapping.virtual_start();
    assert_eq!(reclaim_task_stack(&mut mapping, &mut space), Ok(()));
    assert!(mapping.is_empty());
    assert_eq!(mapping.physical_pages, [0u64; 16]);
    assert_eq!(space.translate(start), Err(PagingError::NotMapped));
    assert_eq!(space.translate(start + 15 * PAGE_SIZE), Err(PagingError::NotMapped));
    assert_eq!(map_task_stack(&mut mapping, &mut space, &frames), Ok(()));
    assert_eq!(restore_task_stack(&mut mapping, &mut space), Ok(()));
    assert_eq!(space.translate(start), Err(PagingError::NotMapped));
}

#[test]
fn failed_stack_mapping_reclaims_what_it_mapped() {
    let mut space = stack_space();
    let mut mapping = TaskStackMapping::empty(3).unwrap();
    let mut frames = stack_frames(0x4800_0000);
    frames[5] += 8;
    assert!(matches!(
        map_task_stack(&mut mapping, &mut space, &frames),
        Err(TaskStackError::Paging(_))
    ));
    assert!(mapping.is_empty());
    for page in 0..TASK_STACK_PAGE_COUNT as u64 {
        assert_eq!(space.translate(mapping.virtual_start() + page * PAGE_SIZE), Err(PagingError::NotMapped));
    }
}

#[test]
fn reclaim_reports_a_page_that_was_never_mapped() {
    let mut space = stack_space();
    let mut mapping = TaskStackMapping::empty(4).unwrap();
    mapping.owned_count = 1;
    mapping.mapped_count = 1;
    mapping.physical_pages[0] = 0x4800_0000;
    assert_eq!(
        reclaim_task_stack(&mut mapping, &mut space),
        Err(TaskStackError::Paging(PagingError::NotMapped))
    );
    assert!(mapping.is_empty());
    assert_eq!(mapping.physical_pages[0], 0);
}
