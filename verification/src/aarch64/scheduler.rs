//! Resource bookkeeping of the ARM64 cooperative scheduler: its errors, the
//! per-slot runtime resources, and the checks that tie them to the task
//! policy's answers and to the live page tables.
use vstd::prelude::*;
use crate::aarch64::address_space::ActiveAddressSpace;
use crate::aarch64::context::{ContextError, TaskContext};
use crate::aarch64::task_stack::{
    task_stack_validation, validate_task_stack, TaskStackError, TaskStackMapping, TASK_STACK_SIZE,
};
use crate::task::{TaskError, TaskId, TaskState, MAX_TASKS};

verus! {

/// Failures from the ARM64 scheduler.
#[derive(Clone, Copy, Debug, PartialEq, Eq, Structural)]
pub enum SchedulerError {
    /// Used before bootstrap initialization.
    NotInitialized,
    AlreadyInitialized,
    /// Scheduler activity from an interrupt is forbidden.
    InterruptContextForbidden,
    Reentrant,
    Task(TaskError),
    Stack(TaskStackError),
    Context(ContextError),
    /// A task entry or saved context is missing or invalid.
    InvalidEntry,
    /// Scheduling was disabled after a failed rollback.
    Poisoned,
    PreemptionFault,
    PreemptionDisabled,
}

/// Live resources of one task slot: its entry address, saved context and stack.
#[derive(Clone, Copy, Debug)]
pub struct RuntimeSlot {
    pub entry: Option<u64>,
    pub context: TaskContext,
    pub stack: Option<TaskStackMapping>,
}

impl RuntimeSlot {
    /// A slot holding nothing.
    pub fn empty() -> (s: RuntimeSlot)
        ensures
            s.entry.is_none(),
            s.context.sp == 0,
            s.stack.is_none(),
    {
        RuntimeSlot { entry: None, context: TaskContext { sp: 0 }, stack: None }
    }
}

/// Slot resources of the live scheduler and whether a failed cleanup has
/// disabled scheduling.
pub struct SchedulerRuntime {
    pub slots: Vec<RuntimeSlot>,
    pub poisoned: bool,
}

/// Diagnostic snapshot of one task slot.
#[derive(Clone, Copy, Debug, PartialEq, Eq, Structural)]
pub struct TaskDiagnostics {
    /// Lifecycle state.
    pub state: TaskState,
    /// Whether the task is in the runnable queue.
    pub queued: bool,
    /// Saved stack pointer.
    pub sp: u64,
    /// Stack start, or zero when the slot has no stack.
    pub stack_start: u64,
    /// Stack end, or zero when the slot has no stack.
    pub stack_end: u64,
}

/// Diagnostics for task `id` from the policy's answers about it (`state`,
/// `queued`) and its runtime slot: the policy's error is passed on; otherwise
/// the slot's saved stack pointer and stack bounds (zero when it has no
/// stack) are reported.
pub fn task_diagnostics(
    runtime: &SchedulerRuntime,
    id: TaskId,
    state: Result<TaskState, TaskError>,
    queued: bool,
) -> (result: Result<TaskDiagnostics, SchedulerError>)
    requires
        runtime.slots@.len() == MAX_TASKS,
        state is Ok ==> (id.slot as usize) < MAX_TASKS,
    ensures
        match state {
            Err(e) => result == Err::<TaskDiagnostics, SchedulerError>(SchedulerError::Task(e)),
            Ok(st) => {
                let slot = runtime.slots@[id.slot as int];
                result == Ok::<TaskDiagnostics, SchedulerError>(
                    TaskDiagnostics {
                        state: st,
                        queued,
                        sp: slot.context.sp,
                        stack_start: match slot.stack {
                            Some(m) => m.virtual_start,
                            None => 0,
                        },
                        stack_end: match slot.stack {
                            Some(m) => m.virtual_end,
                            None => 0,
                        },
                    },
                )
            },
        },
{
    let state = match state {
        Ok(s) => s,
        Err(e) => return Err(SchedulerError::Task(e)),
    };
    let slot = &runtime.slots[id.slot()];
    let (stack_start, stack_end) = match &slot.stack {
        Some(stack) => (stack.virtual_start, stack.virtual_end),
        None => (0, 0),
    };
    Ok(TaskDiagnostics { state, queued, sp: slot.context.sp, stack_start, stack_end })
}

/// Whether `slot` may be switched to as task `id`: the bootstrap slot always
/// may; any other needs a saved stack pointer inside its own stack.
pub open spec fn selectable(slot: RuntimeSlot, id: TaskId) -> bool {
    id.slot == 0 || (slot.context.sp != 0 && match slot.stack {
        Some(stack) => stack.virtual_start <= slot.context.sp && slot.context.sp < stack.virtual_end,
        None => false,
    })
}

/// Checks the saved context of the task chosen to run next.
pub fn validate_selected_context(slot: &RuntimeSlot, id: TaskId) -> (result: Result<
    (),
    SchedulerError,
>)
    ensures
        result is Ok <==> selectable(*slot, id),
        result is Err ==> result == Err::<(), SchedulerError>(SchedulerError::InvalidEntry),
{
    if slot.context.sp == 0 && id.slot() != 0 {
        return Err(SchedulerError::InvalidEntry);
    }
    if id.slot() != 0 {
        let stack = match &slot.stack {
            Some(stack) => stack,
            None => return Err(SchedulerError::InvalidEntry),
        };
        if !stack.contains(slot.context.sp) {
            return Err(SchedulerError::InvalidEntry);
        }
    }
    Ok(())
}

/// The first stack failure among slots `i..` (the bootstrap slot is skipped).
pub open spec fn first_stack_failure(slots: Seq<RuntimeSlot>, space: ActiveAddressSpace, i: int) -> Option<
    TaskStackError,
>
    decreases slots.len() - i,
{
    if i < 0 || i >= slots.len() {
        None
    } else {
        let rest = first_stack_failure(slots, space, i + 1);
        match slots[i].stack {
            Some(m) => if i != 0 {
                match task_stack_validation(m, space) {
                    Err(e) => Some(e),
                    Ok(()) => rest,
                }
            } else {
                rest
            },
            None => rest,
        }
    }
}

/// Whether every stack metadata's range fits the address space.
pub open spec fn stacks_in_range(slots: Seq<RuntimeSlot>) -> bool {
    forall|i: int|
        0 <= i < slots.len() ==> (#[trigger] slots[i].stack matches Some(m) ==> m.virtual_start
            + TASK_STACK_SIZE <= u64::MAX)
}

/// Checks the policy (whose own check gave `policy_check`) and then every
/// non-bootstrap slot's stack against the page tables, in slot order.
pub fn check_runtime_invariants(
    policy_check: Result<(), TaskError>,
    runtime: &SchedulerRuntime,
    address_space: &ActiveAddressSpace,
) -> (result: Result<(), SchedulerError>)
    requires
        stacks_in_range(runtime.slots@),
    ensures
        result == match policy_check {
            Err(e) => Err(SchedulerError::Task(e)),
            Ok(()) => match first_stack_failure(runtime.slots@, *address_space, 0) {
                Some(e) => Err(SchedulerError::Stack(e)),
                None => Ok(()),
            },
        },
{
    match policy_check {
        Ok(()) => {},
        Err(e) => return Err(SchedulerError::Task(e)),
    }
    let ghost slots = runtime.slots@;
    let mut i: usize = 0;
    while i < runtime.slots.len()
        invariant
            i <= slots.len(),
            policy_check is Ok,
            slots == runtime.slots@,
            stacks_in_range(slots),
            first_stack_failure(slots, *address_space, 0) == first_stack_failure(
                slots,
                *address_space,
                i as int,
            ),
        decreases slots.len() - i,
    {
        if i != 0 {
            if let Some(stack) = &runtime.slots[i].stack {
                assert(slots[i as int].stack matches Some(m) && m == *stack);
                match validate_task_stack(stack, address_space) {
                    Ok(()) => {},
                    Err(e) => return Err(SchedulerError::Stack(e)),
                }
            }
        }
        i += 1;
    }
    Ok(())
}

} // verus!
