use lib::aarch64::address_space::{build, ActiveAddressSpace};
use lib::aarch64::context::TaskContext;
use lib::aarch64::paging::{
    MappingPlan, MappingRequest, MemoryType, PagingError, Permissions, MAX_TABLE_PAGES,
};
use lib::aarch64::scheduler::{
    check_runtime_invariants, task_diagnostics, validate_selected_context, RuntimeSlot,
    SchedulerError, SchedulerRuntime, TaskDiagnostics,
};
use lib::aarch64::task_stack::{
    validate_task_stack, TaskStackError, TaskStackMapping, PAGE_SIZE, TASK_STACK_PAGE_COUNT,
};
use lib::task::{TaskError, TaskId, TaskState, MAX_TASKS};

const FRAME_BASE: u64 = 0x4800_0000;

fn stack_space(slot: usize) -> (ActiveAddressSpace, TaskStackMapping) {
    let mut mapping = TaskStackMapping::empty(slot).unwrap();
    let mut plan = MappingPlan::new();
    plan.push(MappingRequest {
        virtual_start: mapping.virtual_start,
        physical_start: FRAME_BASE,
        page_count: TASK_STACK_PAGE_COUNT as u64,
        permissions: Permissions::ReadWriteNoExecute,
        memory_type: MemoryType::NormalWriteBack,
    })
    .unwrap();
    let pages: Vec<u64> = (0..MAX_TABLE_PAGES as u64).map(|i| 0x4200_0000 + i * 0x1000).collect();
    let identity = vec![true; pages.len()];
    let space = build(&plan, &pages, 5, 0, &identity).unwrap();
    for i in 0..TASK_STACK_PAGE_COUNT {
        mapping.physical_pages[i] = FRAME_BASE + i as u64 * PAGE_SIZE;
    }
    mapping.owned_count = TASK_STACK_PAGE_COUNT;
    mapping.mapped_count = TASK_STACK_PAGE_COUNT;
    (space, mapping)
}

fn runtime_with(slot: usize, stack: TaskStackMapping, sp: u64) -> SchedulerRuntime {
    let mut slots: Vec<RuntimeSlot> = (0..MAX_TASKS).map(|_| RuntimeSlot::empty()).collect();
    slots[slot] = RuntimeSlot { entry: Some(0x4008_0000), context: TaskContext { sp }, stack: Some(stack) };
    SchedulerRuntime { slots, poisoned: false }
}

#[test]
fn mapped_arm_stack_validates_against_its_frames() {
    let (space, mapping) = stack_space(2);
    assert_eq!(validate_task_stack(&mapping, &space), Ok(()));
    let mut wrong = mapping;
    wrong.physical_pages[7] += PAGE_SIZE;
    assert_eq!(validate_task_stack(&wrong, &space), Err(TaskStackError::CorruptMapping));
    let mut partial = mapping;
    partial.mapped_count -= 1;
    assert_eq!(validate_task_stack(&partial, &space), Err(TaskStackError::CorruptMapping));
    let elsewhere = TaskStackMapping { virtual_start: mapping.virtual_end + PAGE_SIZE, ..mapping };
    assert_eq!(
        validate_task_stack(&elsewhere, &space),
        Err(TaskStackError::Paging(PagingError::NotMapped))
    );
}

#[test]
fn arm_diagnostics_report_slot_resources_or_policy_errors() {
    let (_, mapping) = stack_space(3);
    let runtime = runtime_with(3, mapping, mapping.virtual_end - 96);
    let id = TaskId::new(3, 2).unwrap();
    assert_eq!(
        task_diagnostics(&runtime, id, Ok(TaskState::Ready), true),
        Ok(TaskDiagnostics {
            state: TaskState::Ready,
            queued: true,
            sp: mapping.virtual_end - 96,
            stack_start: mapping.virtual_start,
            stack_end: mapping.virtual_end,
        })
    );
    let vacant = TaskId::new(4, 1).unwrap();
    let report = task_diagnostics(&runtime, vacant, Ok(TaskState::Exited), false).unwrap();
    assert_eq!((report.sp, report.stack_start, report.stack_end), (0, 0, 0));
    assert_eq!(
        task_diagnostics(&runtime, id, Err(TaskError::InvalidGeneration), false),
        Err(SchedulerError::Task(TaskError::InvalidGeneration))
    );
}

#[test]
fn arm_selected_context_must_sit_in_its_stack() {
    let (_, mapping) = stack_space(2);
    let id = TaskId::new(2, 1).unwrap();
    let inside = RuntimeSlot { entry: Some(1), context: TaskContext { sp: mapping.virtual_start }, stack: Some(mapping) };
    assert_eq!(validate_selected_context(&inside, id), Ok(()));
    let at_end = RuntimeSlot { context: TaskContext { sp: mapping.virtual_end }, ..inside };
    assert_eq!(validate_selected_context(&at_end, id), Err(SchedulerError::InvalidEntry));
    let unsaved = RuntimeSlot { context: TaskContext { sp: 0 }, ..inside };
    assert_eq!(validate_selected_context(&unsaved, id), Err(SchedulerError::InvalidEntry));
    let stackless = RuntimeSlot { stack: None, ..inside };
    assert_eq!(validate_selected_context(&stackless, id), Err(SchedulerError::InvalidEntry));
    let bootstrap = TaskId::new(0, 1).unwrap();
    assert_eq!(validate_selected_context(&RuntimeSlot::empty(), bootstrap), Ok(()));
}

#[test]
fn arm_runtime_invariants_check_policy_then_stacks() {
    let (space, mapping) = stack_space(2);
    let runtime = runtime_with(2, mapping, mapping.virtual_end - 96);
    assert_eq!(check_runtime_invariants(Ok(()), &runtime, &space), Ok(()));
    assert_eq!(
        check_runtime_invariants(Err(TaskError::InvalidSlot), &runtime, &space),
        Err(SchedulerError::Task(TaskError::InvalidSlot))
    );
    let mut broken = mapping;
    broken.physical_pages[0] = 0x4900_0000;
    let runtime = runtime_with(2, broken, broken.virtual_end - 96);
    assert_eq!(
        check_runtime_invariants(Ok(()), &runtime, &space),
        Err(SchedulerError::Stack(TaskStackError::CorruptMapping))
    );
    let bootstrap_only = runtime_with(0, broken, 0);
    assert_eq!(check_runtime_invariants(Ok(()), &bootstrap_only, &space), Ok(()));
}
