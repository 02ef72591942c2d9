use std::cell::Cell;

use lib::task::{TaskError, TaskId, TaskState, MAX_TASKS};
use lib::x86_64::context::{ContextError, TaskContext, INITIAL_FRAME_SIZE};
use lib::x86_64::interrupts::{AttributionError, PublishedStacks};
use lib::x86_64::paging::{
    build, ActiveAddressSpace, MappingPermissions, MappingPlan, PageTablePagePool, PhysicalFrame,
    VirtualPage, MAX_PAGE_TABLE_PAGES,
};
use lib::x86_64::scheduler::{
    check_runtime_invariants, check_stack_ownership, initialization_cleanup_result, initialize,
    reap, rollback_initialization, rollback_spawn_publication, spawn, task_diagnostics, validate_selected_context,
    validate_slot_metadata, TaskDiagnostics,
    RollbackCause, RuntimeSlot, SchedulerError, SchedulerRuntime, SpawnRollbackReport,
    StackRollbackState,
};
use lib::x86_64::task_stack::{
    validate_task_stack, TaskStackError, TaskStackLayout, TaskStackLayoutError, TaskStackMapping,
    TASK_STACK_PAGE_COUNT,
};

fn empty_slots() -> Vec<RuntimeSlot> {
    (0..MAX_TASKS).map(|_| RuntimeSlot::empty()).collect()
}

#[test]
fn runtime_metadata_detects_vacant_nonempty_slot() {
    let mut slots = empty_slots();
    slots[2].entry = Some(0x1000);
    assert_eq!(
        validate_slot_metadata(2, TaskState::Vacant, &slots[2]),
        Err(SchedulerError::InvalidEntry)
    );

    slots[2] = RuntimeSlot::empty();
    slots[2].context.rsp = 1;
    assert_eq!(
        validate_slot_metadata(2, TaskState::Vacant, &slots[2]),
        Err(SchedulerError::InvalidEntry)
    );
}

#[test]
fn initialization_rollback_preserves_original_or_reports_cleanup() {
    let publication = RollbackCause::Publication(AttributionError::AlreadyPublished);
    assert_eq!(
        initialization_cleanup_result(publication, Ok(())),
        SchedulerError::Publication(AttributionError::AlreadyPublished)
    );
    let cleanup = TaskStackError::CorruptMapping;
    assert_eq!(
        initialization_cleanup_result(publication, Err(cleanup)),
        SchedulerError::InitializationRollbackFailed {
            original: publication,
            cleanup: RollbackCause::Stack(cleanup),
        }
    );
}

#[test]
fn worker_publication_rollback_reports_keep_slot_and_policy_agreeing() {
    let cases = [
        SpawnRollbackReport {
            publication_inactive: true,
            stack: StackRollbackState::Reclaimed,
            policy_aborted: true,
            slot_empty: true,
        },
        SpawnRollbackReport {
            publication_inactive: true,
            stack: StackRollbackState::Retained,
            policy_aborted: false,
            slot_empty: false,
        },
        SpawnRollbackReport {
            publication_inactive: true,
            stack: StackRollbackState::Reclaimed,
            policy_aborted: false,
            slot_empty: false,
        },
    ];
    assert!(cases.into_iter().all(SpawnRollbackReport::is_consistent));
    assert!(
        !SpawnRollbackReport {
            publication_inactive: true,
            stack: StackRollbackState::Missing,
            policy_aborted: true,
            slot_empty: true,
        }
        .is_consistent()
    );
}

#[test]
fn runtime_cleanup_cause_is_reported_as_a_failed_rollback() {
    assert_eq!(
        initialization_cleanup_result(RollbackCause::Runtime, Ok(())),
        SchedulerError::InitializationRollbackFailed {
            original: RollbackCause::Runtime,
            cleanup: RollbackCause::Runtime,
        }
    );
    assert!(
        !SpawnRollbackReport {
            publication_inactive: false,
            stack: StackRollbackState::Reclaimed,
            policy_aborted: true,
            slot_empty: true,
        }
        .is_consistent()
    );
}

fn mapped_stack(space: &mut ActiveAddressSpace, slot: usize, first_frame: u64) -> TaskStackMapping {
    let mut mapping = TaskStackMapping::empty(slot).unwrap();
    for index in 0..TASK_STACK_PAGE_COUNT {
        let frame = first_frame + (index as u64) * 0x1000;
        let page = VirtualPage::new(mapping.virtual_start + (index as u64) * 0x1000).unwrap();
        space
            .map_page(page, PhysicalFrame::new(frame, 48).unwrap(), MappingPermissions::kernel_rw_nx())
            .unwrap();
        mapping.physical_pages[index] = frame;
        mapping.owned_count += 1;
        mapping.mapped_count += 1;
    }
    mapping
}

fn fresh_space() -> ActiveAddressSpace {
    let pages: Vec<u64> = (0..MAX_PAGE_TABLE_PAGES as u64).map(|i| 0x10_0000 + i * 0x1000).collect();
    build(&MappingPlan::new(), PageTablePagePool::reserve(&pages).unwrap(), 48).unwrap()
}

#[test]
fn selected_context_must_sit_in_its_own_stack() {
    let mut space = fresh_space();
    let stack = mapped_stack(&mut space, 1, 0x80_0000);
    let worker = TaskId::new(1, 1).unwrap();
    let mut slot = RuntimeSlot { entry: Some(0x1000), context: TaskContext { rsp: stack.virtual_end - 64 }, stack: Some(stack.clone()) };
    assert_eq!(validate_selected_context(&slot, worker), Ok(()));
    slot.context.rsp = stack.virtual_end;
    assert_eq!(validate_selected_context(&slot, worker), Err(SchedulerError::InvalidEntry));
    let bootstrap = TaskId::new(0, 1).unwrap();
    let mut boot = RuntimeSlot::empty();
    assert_eq!(validate_selected_context(&boot, bootstrap), Err(SchedulerError::InvalidEntry));
    boot.context.rsp = 0x7000;
    assert_eq!(validate_selected_context(&boot, bootstrap), Ok(()));
}

#[test]
fn runtime_invariants_follow_policy_snapshots_and_ownership() {
    let mut space = fresh_space();
    let stack = mapped_stack(&mut space, 1, 0x80_0000);
    let mut slots = empty_slots();
    slots[0].context.rsp = 0x7000;
    slots[1] = RuntimeSlot { entry: Some(0x1000), context: TaskContext { rsp: stack.virtual_end - 64 }, stack: Some(stack.clone()) };
    let bootstrap = TaskId::new(0, 1).unwrap();
    let worker = TaskId::new(1, 1).unwrap();
    let mut snapshots: Vec<(TaskId, TaskState)> =
        (0..MAX_TASKS).map(|i| (TaskId { slot: i as u8, generation: 1 }, TaskState::Vacant)).collect();
    snapshots[0] = (bootstrap, TaskState::Running);
    snapshots[1] = (worker, TaskState::Ready);
    let mut published = PublishedStacks::new();
    published.publish_task_stack(bootstrap, 0x6000, 0x8000).unwrap();
    assert_eq!(
        check_runtime_invariants(&snapshots, bootstrap, &published, &slots, &space),
        Err(SchedulerError::InvalidEntry)
    );
    published.publish_task_stack(worker, stack.virtual_start, stack.virtual_end).unwrap();
    assert_eq!(check_runtime_invariants(&snapshots, bootstrap, &published, &slots, &space), Ok(()));
    snapshots[3].1 = TaskState::Blocked;
    assert_eq!(
        check_runtime_invariants(&snapshots, bootstrap, &published, &slots, &space),
        Err(SchedulerError::InvalidEntry)
    );
    snapshots[3].1 = TaskState::Vacant;
    let mut broken = stack.clone();
    broken.physical_pages[3] = 0x90_0000;
    slots[1].stack = Some(broken);
    assert_eq!(
        check_runtime_invariants(&snapshots, bootstrap, &published, &slots, &space),
        Err(SchedulerError::Stack(TaskStackError::CorruptMapping))
    );
}

#[test]
fn stack_ownership_rejects_shared_frames_and_bootstrap_overlap() {
    let mut space = fresh_space();
    let first = mapped_stack(&mut space, 1, 0x80_0000);
    let second = mapped_stack(&mut space, 2, 0x90_0000);
    let mut slots = empty_slots();
    slots[1].stack = Some(first.clone());
    slots[2].stack = Some(second.clone());
    assert_eq!(check_stack_ownership(&slots), Ok(()));
    let mut sharing = second.clone();
    sharing.physical_pages[7] = first.physical_pages[2];
    slots[2].stack = Some(sharing);
    assert_eq!(check_stack_ownership(&slots), Err(SchedulerError::InvalidEntry));
    slots[2].stack = Some(second);
    slots[0].context.rsp = first.virtual_start + 8;
    assert_eq!(check_stack_ownership(&slots), Err(SchedulerError::InvalidEntry));
}

fn fresh_runtime() -> SchedulerRuntime {
    SchedulerRuntime { slots: empty_slots(), poisoned: false }
}

fn spawn_frames(first: u64) -> [u64; 16] {
    let mut frames = [0u64; 16];
    for (index, frame) in frames.iter_mut().enumerate() {
        *frame = first + (index as u64) * 0x1000;
    }
    frames
}

const ENTRY: u64 = 0xffff_8000_0010_0000;
const TRAMPOLINE: u64 = 0xffff_8000_0020_0000;
const FATAL_RETURN: u64 = 0xffff_8000_0030_0000;

#[test]
fn spawn_maps_stack_builds_context_and_publishes() {
    let mut runtime = fresh_runtime();
    let mut published = PublishedStacks::new();
    let mut space = fresh_space();
    let frames = spawn_frames(0x80_0000);
    let id = TaskId::new(2, 7).unwrap();
    let result = spawn(
        ENTRY,
        TRAMPOLINE,
        FATAL_RETURN,
        &mut runtime,
        &mut published,
        &mut space,
        &frames,
        || Ok(id),
        |_| panic!("a successful spawn aborts nothing"),
    );
    assert_eq!(result, Ok(id));
    assert!(!runtime.poisoned);
    let slot = runtime.slots[2];
    assert_eq!(slot.entry, Some(ENTRY));
    let stack = slot.stack.unwrap();
    assert_eq!(stack.physical_pages, frames);
    assert_eq!(validate_task_stack(&stack, &space), Ok(()));
    assert_eq!(slot.context.rsp, stack.virtual_end - INITIAL_FRAME_SIZE as u64);
    assert!(published.task_stack_published(id));
    assert!(runtime.slots[3].stack.is_none());
}

#[test]
fn spawn_refuses_a_null_entry_and_reports_policy_errors() {
    let mut runtime = fresh_runtime();
    let mut published = PublishedStacks::new();
    let mut space = fresh_space();
    let frames = spawn_frames(0x80_0000);
    let unreachable_policy = || -> Result<TaskId, TaskError> { panic!("not consulted") };
    assert_eq!(
        spawn(0, TRAMPOLINE, FATAL_RETURN, &mut runtime, &mut published, &mut space, &frames,
            unreachable_policy, |_| Ok(())),
        Err(SchedulerError::InvalidEntry)
    );
    assert_eq!(
        spawn(ENTRY, TRAMPOLINE, FATAL_RETURN, &mut runtime, &mut published, &mut space, &frames,
            || Err(TaskError::InvalidSlot), |_| Ok(())),
        Err(SchedulerError::Task(TaskError::InvalidSlot))
    );
    assert!(!runtime.poisoned);
}

#[test]
fn spawn_aborts_the_policy_entry_when_the_slot_has_no_stack() {
    let mut runtime = fresh_runtime();
    let mut published = PublishedStacks::new();
    let mut space = fresh_space();
    let frames = spawn_frames(0x80_0000);
    let bootstrap = TaskId::new(0, 1).unwrap();
    let aborted = Cell::new(false);
    assert_eq!(
        spawn(ENTRY, TRAMPOLINE, FATAL_RETURN, &mut runtime, &mut published, &mut space, &frames,
            || Ok(bootstrap), |_| { aborted.set(true); Ok(()) }),
        Err(SchedulerError::Stack(TaskStackError::Layout(
            TaskStackLayoutError::BootstrapHasNoMappedStack
        )))
    );
    assert!(aborted.get());
    assert!(!runtime.poisoned);
    assert_eq!(
        spawn(ENTRY, TRAMPOLINE, FATAL_RETURN, &mut runtime, &mut published, &mut space, &frames,
            || Ok(bootstrap), |_| Err(TaskError::InvalidGeneration)),
        Err(SchedulerError::SpawnRollbackFailed {
            original: RollbackCause::Stack(TaskStackError::Layout(
                TaskStackLayoutError::BootstrapHasNoMappedStack
            )),
            cleanup: RollbackCause::Runtime,
        })
    );
    assert!(runtime.poisoned);
}

#[test]
fn failed_stack_mapping_leaves_no_translation_behind() {
    let mut runtime = fresh_runtime();
    let mut published = PublishedStacks::new();
    let mut space = fresh_space();
    let mut frames = spawn_frames(0x80_0000);
    frames[3] += 8;
    let id = TaskId::new(4, 1).unwrap();
    let result = spawn(ENTRY, TRAMPOLINE, FATAL_RETURN, &mut runtime, &mut published, &mut space,
        &frames, || Ok(id), |_| Ok(()));
    assert!(matches!(result, Err(SchedulerError::Stack(TaskStackError::Paging(_)))));
    assert!(!runtime.poisoned);
    assert!(runtime.slots[4].stack.is_none());
    let layout = TaskStackLayout::for_slot(4).unwrap();
    assert_eq!(space.translate(layout.stack_start), Ok(None));
    assert!(!published.task_stack_published(id));
}

#[test]
fn context_failure_reclaims_the_new_stack() {
    let mut runtime = fresh_runtime();
    let mut published = PublishedStacks::new();
    let mut space = fresh_space();
    let frames = spawn_frames(0x80_0000);
    let id = TaskId::new(5, 1).unwrap();
    let aborted = Cell::new(false);
    let result = spawn(ENTRY, 0x0001_0000_0000_0000, FATAL_RETURN, &mut runtime, &mut published,
        &mut space, &frames, || Ok(id), |_| { aborted.set(true); Ok(()) });
    assert_eq!(result, Err(SchedulerError::Context(ContextError::InvalidInstructionAddress)));
    assert!(aborted.get());
    let layout = TaskStackLayout::for_slot(5).unwrap();
    assert_eq!(space.translate(layout.stack_start), Ok(None));
    assert!(runtime.slots[5].stack.is_none());
    assert!(!runtime.poisoned);
}

#[test]
fn publication_failure_rolls_back_or_poisons() {
    let mut runtime = fresh_runtime();
    let mut published = PublishedStacks::new();
    let mut space = fresh_space();
    let frames = spawn_frames(0x80_0000);
    let unpublishable = TaskId { slot: 3, generation: 0 };
    let result = spawn(ENTRY, TRAMPOLINE, FATAL_RETURN, &mut runtime, &mut published, &mut space,
        &frames, || Ok(unpublishable), |_| Ok(()));
    assert_eq!(result, Err(SchedulerError::Publication(AttributionError::InvalidGeneration)));
    assert!(!runtime.poisoned);
    assert!(runtime.slots[3].stack.is_none() && runtime.slots[3].entry.is_none());
    let layout = TaskStackLayout::for_slot(3).unwrap();
    assert_eq!(space.translate(layout.stack_start), Ok(None));

    let result = spawn(ENTRY, TRAMPOLINE, FATAL_RETURN, &mut runtime, &mut published, &mut space,
        &frames, || Ok(unpublishable), |_| Err(TaskError::InvalidSlot));
    assert_eq!(
        result,
        Err(SchedulerError::SpawnRollbackFailed {
            original: RollbackCause::Publication(AttributionError::InvalidGeneration),
            cleanup: RollbackCause::Task(TaskError::InvalidSlot),
        })
    );
    assert!(runtime.poisoned);
    let kept = runtime.slots[3].stack.unwrap();
    assert_eq!(validate_task_stack(&kept, &space), Ok(()));
}

#[test]
fn publication_rollback_without_stack_metadata_poisons() {
    let mut slot = RuntimeSlot::empty();
    let mut poisoned = false;
    let mut published = PublishedStacks::new();
    let mut space = fresh_space();
    let id = TaskId::new(2, 1).unwrap();
    let outcome = rollback_spawn_publication(id, &mut slot, &mut poisoned, &mut published,
        &mut space, AttributionError::InvalidGeneration, |_| Ok(()));
    assert!(poisoned);
    assert_eq!(outcome.report.stack, StackRollbackState::Missing);
    assert!(outcome.report.is_consistent());
    assert_eq!(
        outcome.error,
        SchedulerError::SpawnRollbackFailed {
            original: RollbackCause::Publication(AttributionError::InvalidGeneration),
            cleanup: RollbackCause::Runtime,
        }
    );
}

#[test]
fn diagnostics_report_slot_resources_or_policy_errors() {
    let mut space = fresh_space();
    let stack = mapped_stack(&mut space, 2, 0x90_0000);
    let mut runtime = fresh_runtime();
    runtime.slots[2] = RuntimeSlot {
        entry: Some(ENTRY),
        context: TaskContext { rsp: stack.virtual_end - 64 },
        stack: Some(stack),
    };
    let id = TaskId::new(2, 4).unwrap();
    assert_eq!(
        task_diagnostics(&runtime, id, Ok(TaskState::Ready), true),
        Ok(TaskDiagnostics {
            state: TaskState::Ready,
            queued: true,
            rsp: stack.virtual_end - 64,
            stack_start: stack.virtual_start,
            stack_end: stack.virtual_end,
        })
    );
    let vacant = task_diagnostics(&runtime, TaskId::new(5, 1).unwrap(), Ok(TaskState::Exited), false)
        .unwrap();
    assert_eq!((vacant.rsp, vacant.stack_start, vacant.stack_end), (0, 0, 0));
    assert_eq!(
        task_diagnostics(&runtime, id, Err(TaskError::InvalidGeneration), true),
        Err(SchedulerError::Task(TaskError::InvalidGeneration))
    );
}

fn try_initialize(
    cell: &mut Option<SchedulerRuntime>,
    failed: &mut Option<TaskStackMapping>,
    published: &mut PublishedStacks,
    space: &mut ActiveAddressSpace,
    idle: TaskId,
    trampoline: u64,
    policy: Result<(), TaskError>,
) -> Result<(TaskId, TaskId), SchedulerError> {
    let bootstrap = TaskId::new(0, 1).unwrap();
    initialize(
        cell,
        failed,
        published,
        space,
        &spawn_frames(0xa0_0000),
        bootstrap,
        idle,
        ENTRY,
        trampoline,
        FATAL_RETURN,
        move || policy,
    )
}

#[test]
fn initialization_maps_and_publishes_the_idle_stack_once() {
    let mut cell = None;
    let mut failed = None;
    let mut published = PublishedStacks::new();
    let mut space = fresh_space();
    let idle = TaskId::new(1, 1).unwrap();
    let result = try_initialize(&mut cell, &mut failed, &mut published, &mut space, idle, TRAMPOLINE, Ok(()));
    assert_eq!(result, Ok((TaskId::new(0, 1).unwrap(), idle)));
    let runtime = cell.as_ref().unwrap();
    assert!(!runtime.poisoned);
    let slot = runtime.slots[1];
    assert_eq!(slot.entry, Some(ENTRY));
    assert_eq!(validate_task_stack(&slot.stack.unwrap(), &space), Ok(()));
    assert!(published.task_stack_published(idle));
    assert!(runtime.slots[2].stack.is_none());
    assert_eq!(
        try_initialize(&mut cell, &mut failed, &mut published, &mut space, idle, TRAMPOLINE, Ok(())),
        Err(SchedulerError::AlreadyInitialized)
    );
}

#[test]
fn failed_initialization_cleans_up_and_reports_the_cause() {
    let mut cell = None;
    let mut failed = None;
    let mut published = PublishedStacks::new();
    let mut space = fresh_space();
    let idle = TaskId::new(1, 1).unwrap();
    let layout = TaskStackLayout::for_slot(1).unwrap();
    assert_eq!(
        try_initialize(&mut cell, &mut failed, &mut published, &mut space, idle, TRAMPOLINE,
            Err(TaskError::InvalidSlot)),
        Err(SchedulerError::Task(TaskError::InvalidSlot))
    );
    assert!(cell.is_none() && failed.is_none());
    assert_eq!(space.translate(layout.stack_start), Ok(None));
    assert!(!published.task_stack_published(idle));
    assert_eq!(
        try_initialize(&mut cell, &mut failed, &mut published, &mut space, idle,
            0x0001_0000_0000_0000, Ok(())),
        Err(SchedulerError::Context(ContextError::InvalidInstructionAddress))
    );
    assert_eq!(space.translate(layout.stack_start), Ok(None));
    let unpublishable = TaskId { slot: 1, generation: 0 };
    assert_eq!(
        try_initialize(&mut cell, &mut failed, &mut published, &mut space, unpublishable,
            TRAMPOLINE, Ok(())),
        Err(SchedulerError::Publication(AttributionError::InvalidGeneration))
    );
    assert_eq!(space.translate(layout.stack_start), Ok(None));
    assert!(cell.is_none());
}

#[test]
fn a_kept_failed_stack_refuses_initialization() {
    let mut cell = None;
    let mut space = fresh_space();
    let mut failed = Some(TaskStackMapping::empty(1).unwrap());
    let mut published = PublishedStacks::new();
    let idle = TaskId::new(1, 1).unwrap();
    assert_eq!(
        try_initialize(&mut cell, &mut failed, &mut published, &mut space, idle, TRAMPOLINE, Ok(())),
        Err(SchedulerError::Poisoned)
    );
}

#[test]
fn initialization_rollback_without_stack_reports_runtime_cleanup() {
    let mut runtime = fresh_runtime();
    let mut published = PublishedStacks::new();
    let mut space = fresh_space();
    let mut failed = None;
    let idle = TaskId::new(1, 1).unwrap();
    let error = rollback_initialization(&mut runtime, idle, &mut published, &mut space, &mut failed,
        RollbackCause::Context(ContextError::StackTooSmall));
    assert_eq!(
        error,
        SchedulerError::InitializationRollbackFailed {
            original: RollbackCause::Context(ContextError::StackTooSmall),
            cleanup: RollbackCause::Runtime,
        }
    );
    assert!(failed.is_none());
}

#[test]
fn reap_unmaps_the_stack_empties_the_slot_and_commits() {
    let mut runtime = fresh_runtime();
    let mut published = PublishedStacks::new();
    let mut space = fresh_space();
    let frames = spawn_frames(0x80_0000);
    let id = TaskId::new(2, 7).unwrap();
    let spawned = spawn(ENTRY, TRAMPOLINE, FATAL_RETURN, &mut runtime, &mut published, &mut space,
        &frames, || Ok(id), |_| Ok(()));
    assert_eq!(spawned, Ok(id));
    let committed = Cell::new(false);
    let reaped = reap(id, &mut runtime, &mut published, &mut space, |_| Ok(5u32), |token| {
        assert_eq!(token, 5);
        committed.set(true);
    });
    assert_eq!(reaped, Ok(()));
    assert!(committed.get());
    assert!(runtime.slots[2].stack.is_none());
    assert!(runtime.slots[2].entry.is_none());
    assert_eq!(runtime.slots[2].context.rsp, 0);
    assert!(!published.task_stack_published(id));
    let layout = TaskStackLayout::for_slot(2).unwrap();
    for page in 0..TASK_STACK_PAGE_COUNT as u64 {
        assert_eq!(space.translate(layout.stack_start + page * 0x1000), Ok(None));
    }
}

#[test]
fn reap_refuses_policy_errors_missing_stacks_and_poison() {
    let mut runtime = fresh_runtime();
    let mut published = PublishedStacks::new();
    let mut space = fresh_space();
    let id = TaskId::new(3, 1).unwrap();
    assert_eq!(
        reap(id, &mut runtime, &mut published, &mut space, |_| Err::<(), _>(TaskError::InvalidGeneration),
            |_| panic!("nothing to commit")),
        Err(SchedulerError::Task(TaskError::InvalidGeneration))
    );
    assert_eq!(
        reap(id, &mut runtime, &mut published, &mut space, |_| Ok(()), |_| panic!("nothing to commit")),
        Err(SchedulerError::InvalidEntry)
    );
    runtime.poisoned = true;
    assert_eq!(
        reap(id, &mut runtime, &mut published, &mut space, |_| -> Result<(), TaskError> {
            panic!("not consulted")
        }, |_| panic!("nothing to commit")),
        Err(SchedulerError::Poisoned)
    );
}

#[test]
fn reap_keeps_a_stack_whose_reclaim_fails() {
    let mut runtime = fresh_runtime();
    let mut published = PublishedStacks::new();
    let mut space = fresh_space();
    let mut stack = mapped_stack(&mut space, 4, 0x90_0000);
    stack.mapped_count = 3;
    runtime.slots[4].stack = Some(stack);
    runtime.slots[4].entry = Some(ENTRY);
    let id = TaskId::new(4, 2).unwrap();
    assert_eq!(
        reap(id, &mut runtime, &mut published, &mut space, |_| Ok(()), |_| panic!("nothing to commit")),
        Err(SchedulerError::Stack(TaskStackError::CorruptMapping))
    );
    assert_eq!(runtime.slots[4].stack, Some(stack));
    assert_eq!(runtime.slots[4].entry, Some(ENTRY));
}

#[test]
fn a_poisoned_scheduler_refuses_to_spawn() {
    let mut runtime = fresh_runtime();
    runtime.poisoned = true;
    let mut published = PublishedStacks::new();
    let mut space = fresh_space();
    let frames = spawn_frames(0x80_0000);
    assert_eq!(
        spawn(ENTRY, TRAMPOLINE, FATAL_RETURN, &mut runtime, &mut published, &mut space, &frames,
            || -> Result<TaskId, TaskError> { panic!("not consulted") }, |_| Ok(())),
        Err(SchedulerError::Poisoned)
    );
    assert!(runtime.slots.iter().all(|slot| slot.stack.is_none()));
}
