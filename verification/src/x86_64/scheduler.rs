//! Resource bookkeeping of the x86-64 scheduler: its errors, the rollback
//! reports, and the checks that tie task-policy state to entries, saved
//! contexts, published stacks and stack ownership.
use vstd::prelude::*;
use crate::task::{TaskError, TaskId, TaskState, MAX_TASKS};
use crate::x86_64::context::{context_result, initialize_context, ContextError, TaskContext};
use crate::x86_64::interrupts::{AttributionError, PublishedStacks, PublishedTaskStack};
use crate::x86_64::paging::ActiveAddressSpace;
use crate::x86_64::task_stack::{
    lemma_reclaim_undoes_map, live_mapping, map_task_stack, reclaim_task_stack, restore_task_stack,
    same_frame, slot_layout, stack_mappable, stack_reclaimed_from, task_stack_validation,
    validate_task_stack,
    TaskStackError, TaskStackMapping, TASK_STACK_PAGE_COUNT,
};

verus! {

/// One side of a scheduler rollback failure.
#[derive(Clone, Copy, Debug, PartialEq, Eq, Structural)]
pub enum RollbackCause {
    /// Bounded task-policy failure.
    Task(TaskError),
    /// Stack ownership or paging failure.
    Stack(TaskStackError),
    /// Initial-context construction failure.
    Context(ContextError),
    /// Stack publication failure.
    Publication(AttributionError),
    /// Runtime bookkeeping was inconsistent.
    Runtime,
    /// Two independent cleanup operations failed.
    Combined { first: RollbackLeaf, second: RollbackLeaf },
}

/// One leaf of a combined rollback failure.
#[derive(Clone, Copy, Debug, PartialEq, Eq, Structural)]
pub enum RollbackLeaf {
    /// Bounded task-policy failure.
    Task(TaskError),
    /// Stack ownership or paging failure.
    Stack(TaskStackError),
    /// Runtime bookkeeping was inconsistent.
    Runtime,
}

/// Failures from the live x86-64 scheduler boundary.
#[derive(Clone, Copy, Debug, PartialEq, Eq, Structural)]
pub enum SchedulerError {
    /// The scheduler was used before bootstrap registration.
    NotInitialized,
    /// Initialization was requested twice.
    AlreadyInitialized,
    /// Scheduler activity from an interrupt is forbidden.
    InterruptContextForbidden,
    /// A nested scheduling operation was attempted.
    Reentrant,
    /// Bounded task policy rejected the operation.
    Task(TaskError),
    /// Task-stack management failed.
    Stack(TaskStackError),
    /// Stack publication failed.
    Publication(AttributionError),
    /// Initial context construction failed.
    Context(ContextError),
    /// A task entry was missing or invalid.
    InvalidEntry,
    /// Cleanup after failed initialization could not restore stack resources.
    InitializationRollbackFailed { original: RollbackCause, cleanup: RollbackCause },
    /// Cleanup after failed task creation could not restore policy and resources.
    SpawnRollbackFailed { original: RollbackCause, cleanup: RollbackCause },
    /// Runtime ownership is preserved but scheduling is disabled after cleanup failure.
    Poisoned,
    /// The bounded preemption guard faulted while preparing a transition.
    PreemptionFault,
    /// A stack switch was requested inside a preemption-protected transition.
    PreemptionDisabled,
}

/// What became of a task's stack when publishing it failed.
#[derive(Clone, Copy, Debug, PartialEq, Eq, Structural)]
pub enum StackRollbackState {
    /// The slot held no stack metadata.
    Missing,
    /// The stack was unmapped and its frames returned.
    Reclaimed,
    /// The stack stayed mapped and owned by the slot.
    Retained,
}

/// Outcome of rolling back a task whose stack could not be published.
#[derive(Clone, Copy, Debug, PartialEq, Eq, Structural)]
pub struct SpawnRollbackReport {
    pub publication_inactive: bool,
    pub stack: StackRollbackState,
    pub policy_aborted: bool,
    pub slot_empty: bool,
}

impl SpawnRollbackReport {
    /// A rollback is consistent when the publication is withdrawn and the
    /// slot and the policy agree: an emptied slot means its stack was
    /// reclaimed and its policy entry aborted; a kept slot keeps its policy
    /// entry.
    pub open spec fn consistent(self) -> bool {
        self.publication_inactive && if self.slot_empty {
            self.stack == StackRollbackState::Reclaimed && self.policy_aborted
        } else {
            !self.policy_aborted
        }
    }

    /// Whether the rollback left publication, slot and policy agreeing.
    pub fn is_consistent(self) -> (b: bool)
        ensures
            b == self.consistent(),
    {
        if !self.publication_inactive {
            return false;
        }
        if self.slot_empty {
            matches!(self.stack, StackRollbackState::Reclaimed) && self.policy_aborted
        } else {
            !self.policy_aborted && match self.stack {
                StackRollbackState::Missing => true,
                StackRollbackState::Reclaimed => true,
                StackRollbackState::Retained => true,
            }
        }
    }
}

/// Slot resources of the live scheduler and whether a failed cleanup has
/// disabled scheduling.
pub struct SchedulerRuntime {
    pub slots: Vec<RuntimeSlot>,
    pub poisoned: bool,
}

/// Copyable diagnostic snapshot of one task slot.
#[derive(Clone, Copy, Debug, PartialEq, Eq, Structural)]
pub struct TaskDiagnostics {
    /// Lifecycle state.
    pub state: TaskState,
    /// Whether the task is in the runnable queue.
    pub queued: bool,
    /// Saved stack pointer.
    pub rsp: u64,
    /// Stack start, or zero for the bootstrap task and vacant slots.
    pub stack_start: u64,
    /// Stack end, or zero for the bootstrap task and vacant slots.
    pub stack_end: u64,
}

/// Diagnostics for task `id` from the policy's answers about it (`state`,
/// `queued`) and its runtime slot: the policy's error is passed on; otherwise
/// the slot's saved stack pointer and stack bounds (zero when it has no
/// stack) are reported.
pub fn task_diagnostics(
    runtime: &SchedulerRuntime,
    id: TaskId,
    state: Result<TaskState, TaskError>,
    queued: bool,
) -> (result: Result<TaskDiagnostics, SchedulerError>)
    requires
        runtime.slots@.len() == MAX_TASKS,
        state is Ok ==> (id.slot as usize) < MAX_TASKS,
    ensures
        match state {
            Err(e) => result == Err::<TaskDiagnostics, SchedulerError>(SchedulerError::Task(e)),
            Ok(st) => {
                let slot = runtime.slots@[id.slot as int];
                result == Ok::<TaskDiagnostics, SchedulerError>(
                    TaskDiagnostics {
                        state: st,
                        queued,
                        rsp: slot.context.rsp,
                        stack_start: match slot.stack {
                            Some(m) => m.virtual_start,
                            None => 0,
                        },
                        stack_end: match slot.stack {
                            Some(m) => m.virtual_end,
                            None => 0,
                        },
                    },
                )
            },
        },
{
    let state = match state {
        Ok(s) => s,
        Err(e) => return Err(SchedulerError::Task(e)),
    };
    let slot = &runtime.slots[id.slot()];
    let (stack_start, stack_end) = match &slot.stack {
        Some(stack) => (stack.virtual_start, stack.virtual_end),
        None => (0, 0),
    };
    Ok(TaskDiagnostics { state, queued, rsp: slot.context.rsp, stack_start, stack_end })
}

/// An empty slot.
pub open spec fn slot_is_empty(s: RuntimeSlot) -> bool {
    s.entry is None && s.context.rsp == 0 && s.stack is None
}

/// Slot `i` of `after` holds the freshly spawned task `id`: its entry, the
/// first-run context at the top of its slot's stack, and that stack mapped
/// over `frames`.
pub open spec fn spawned_slot(
    id: TaskId,
    entry: u64,
    trampoline: u64,
    fatal_return: u64,
    frames: Seq<u64>,
    s: RuntimeSlot,
    space: ActiveAddressSpace,
) -> bool {
    let l = slot_layout(id.slot as int);
    &&& s.entry == Some(entry)
    &&& context_result(l.stack_start, l.stack_end, trampoline, fatal_return) == Ok::<
        TaskContext,
        ContextError,
    >(s.context)
    &&& s.stack matches Some(m) && m.slot == id.slot && m.virtual_start == l.stack_start
        && m.virtual_end == l.stack_end && m.physical_pages@ == frames && task_stack_validation(
        m,
        space,
    ) is Ok
}

/// Whether an error reports a failed rollback.
pub open spec fn is_rollback_failure(e: SchedulerError) -> bool {
    e is SpawnRollbackFailed
}

/// Creates a task: the policy's new task `id` gets a stack mapped over
/// `frames`, a first-run context, its entry and a published stack. Every
/// failure after the policy accepted the task is rolled back: the stack is
/// reclaimed and the policy entry aborted through `abort_spawn`; when that
/// cleanup itself fails the scheduler is poisoned and the error says so.
/// A poisoned scheduler refuses every spawn.
pub fn spawn<P, A>(
    entry: u64,
    trampoline: u64,
    fatal_return: u64,
    runtime: &mut SchedulerRuntime,
    published: &mut PublishedStacks,
    address_space: &mut ActiveAddressSpace,
    frames: &[u64; 16],
    policy_spawn: P,
    abort_spawn: A,
) -> (result: Result<TaskId, SchedulerError>) where
    P: FnOnce() -> Result<TaskId, TaskError>,
    A: FnOnce(TaskId) -> Result<(), TaskError>,

    requires
        old(runtime).slots@.len() == MAX_TASKS,
        old(published).wf(),
        old(address_space).wf(),
        call_requires(policy_spawn, ()),
        forall|id: TaskId| call_requires(abort_spawn, (id,)),
    ensures
        final(runtime).slots@.len() == MAX_TASKS,
        final(published).wf(),
        same_frame(*final(address_space), *old(address_space)),
        entry == 0 ==> result == Err::<TaskId, SchedulerError>(SchedulerError::InvalidEntry)
            && final(runtime).slots@ == old(runtime).slots@ && final(runtime).poisoned == old(
            runtime,
        ).poisoned && final(published)@ == old(published)@ && *final(address_space) == *old(
            address_space,
        ),
        final(runtime).poisoned == (old(runtime).poisoned || (result matches Err(e)
            && is_rollback_failure(e))),
        entry != 0 && old(runtime).poisoned ==> result == Err::<TaskId, SchedulerError>(
            SchedulerError::Poisoned,
        ) && final(runtime).slots@ == old(runtime).slots@ && final(published)@ == old(published)@
            && *final(address_space) == *old(address_space),
        entry != 0 && !old(runtime).poisoned ==> exists|r: Result<TaskId, TaskError>| #[trigger]
            call_ensures(policy_spawn, (), r) && match r {
                Err(e) => result == Err::<TaskId, SchedulerError>(SchedulerError::Task(e))
                    && final(runtime).slots@ == old(runtime).slots@ && final(published)@ == old(
                    published,
                )@ && *final(address_space) == *old(address_space),
                Ok(id) => {
                    &&& 0 < id.slot < MAX_TASKS && id.generation != 0 && stack_mappable(
                        *old(address_space),
                        id.slot as int,
                        frames@,
                    ) && context_result(
                        slot_layout(id.slot as int).stack_start,
                        slot_layout(id.slot as int).stack_end,
                        trampoline,
                        fatal_return,
                    ) is Ok ==> result is Ok
                    &&& result is Ok ==> {
                        &&& result == Ok::<TaskId, SchedulerError>(id)
                        &&& 0 < id.slot < MAX_TASKS
                        &&& spawned_slot(
                            id,
                            entry,
                            trampoline,
                            fatal_return,
                            frames@,
                            final(runtime).slots@[id.slot as int],
                            *final(address_space),
                        )
                        &&& forall|i: int|
                            0 <= i < MAX_TASKS && i != id.slot ==> #[trigger] final(runtime).slots@[i]
                                == old(runtime).slots@[i]
                        &&& final(published)@ == old(published)@.update(
                            id.slot as int,
                            PublishedTaskStack {
                                active: true,
                                generation: id.generation,
                                start: slot_layout(id.slot as int).stack_start,
                                end: slot_layout(id.slot as int).stack_end,
                            },
                        )
                    }
                    &&& (result matches Err(e) ==> (is_rollback_failure(e) && old(address_space).spec_mapped_pages()
                        + TASK_STACK_PAGE_COUNT <= u64::MAX ==> exists|pe: TaskError|
                        call_ensures(abort_spawn, (id,), Err::<(), TaskError>(pe))))
                    &&& (result matches Err(e) ==> (!is_rollback_failure(e) ==> {
                        &&& forall|i: int|
                            0 <= i < MAX_TASKS && i != id.slot ==> #[trigger] final(runtime).slots@[i]
                                == old(runtime).slots@[i]
                        &&& (id.slot as int) < MAX_TASKS ==> final(runtime).slots@[id.slot as int]
                            == old(runtime).slots@[id.slot as int] || slot_is_empty(
                            final(runtime).slots@[id.slot as int],
                        )
                        &&& forall|a: u64| #[trigger]
                            live_mapping(final(address_space).translate_spec(a)) == live_mapping(
                                old(address_space).translate_spec(a),
                            )
                    }))
                },
            },
{
    if entry == 0 {
        return Err(SchedulerError::InvalidEntry);
    }
    if runtime.poisoned {
        return Err(SchedulerError::Poisoned);
    }
    let ghost space0 = *address_space;
    let id = match policy_spawn() {
        Ok(id) => id,
        Err(e) => return Err(SchedulerError::Task(e)),
    };
    let mut stack = match TaskStackMapping::empty(id.slot()) {
        Ok(stack) => stack,
        Err(layout_error) => {
            let error = TaskStackError::Layout(layout_error);
            let aborted = abort_spawn(id);
            if let Err(policy_error) = aborted {
                assert(call_ensures(abort_spawn, (id,), Err::<(), TaskError>(policy_error)));
                runtime.poisoned = true;
                return Err(
                    SchedulerError::SpawnRollbackFailed {
                        original: RollbackCause::Stack(error),
                        cleanup: RollbackCause::Runtime,
                    },
                );
            }
            return Err(SchedulerError::Stack(error));
        },
    };
    let index = id.slot();
    match map_task_stack(&mut stack, address_space, frames) {
        Ok(()) => {},
        Err(error) => {
            if !stack.is_empty() {
                let mut slot = runtime.slots[index];
                slot.stack = Some(stack);
                runtime.slots.set(index, slot);
                runtime.poisoned = true;
                return Err(
                    SchedulerError::SpawnRollbackFailed {
                        original: RollbackCause::Stack(error),
                        cleanup: RollbackCause::Stack(error),
                    },
                );
            }
            match abort_spawn(id) {
                Ok(()) => {},
                Err(cleanup) => {
                    runtime.poisoned = true;
                    return Err(
                        SchedulerError::SpawnRollbackFailed {
                            original: RollbackCause::Stack(error),
                            cleanup: RollbackCause::Task(cleanup),
                        },
                    );
                },
            }
            return Err(SchedulerError::Stack(error));
        },
    }
    let ghost mapped = *address_space;
    let context = match initialize_context(
        stack.virtual_start,
        stack.virtual_end,
        trampoline,
        fatal_return,
    ) {
        Ok(context) => context,
        Err(error) => {
            match reclaim_task_stack(&mut stack, address_space) {
                Ok(()) => {},
                Err(cleanup) => {
                    let mut slot = runtime.slots[index];
                    slot.stack = Some(stack);
                    runtime.slots.set(index, slot);
                    runtime.poisoned = true;
                    let cause = match abort_spawn(id) {
                        Ok(()) => RollbackCause::Stack(cleanup),
                        Err(policy_error) => RollbackCause::Task(policy_error),
                    };
                    return Err(
                        SchedulerError::SpawnRollbackFailed {
                            original: RollbackCause::Context(error),
                            cleanup: cause,
                        },
                    );
                },
            }
            proof {
                lemma_reclaim_undoes_map(slot_layout(index as int), space0, mapped, *address_space);
            }
            match abort_spawn(id) {
                Ok(()) => {},
                Err(cleanup) => {
                    runtime.poisoned = true;
                    return Err(
                        SchedulerError::SpawnRollbackFailed {
                            original: RollbackCause::Context(error),
                            cleanup: RollbackCause::Task(cleanup),
                        },
                    );
                },
            }
            return Err(SchedulerError::Context(error));
        },
    };
    let start = stack.virtual_start;
    let end = stack.virtual_end;
    let mut slot = RuntimeSlot { entry: Some(entry), context, stack: Some(stack) };
    match published.publish_task_stack(id, start, end) {
        Ok(()) => {
            runtime.slots.set(index, slot);
            Ok(id)
        },
        Err(error) => {
            let mut poisoned = runtime.poisoned;
            let ghost before_rollback = *address_space;
            let outcome = rollback_spawn_publication(
                id,
                &mut slot,
                &mut poisoned,
                published,
                address_space,
                error,
                abort_spawn,
            );
            proof {
                if !poisoned || outcome.report.policy_aborted {
                    lemma_reclaim_undoes_map(slot_layout(index as int), space0, mapped, *address_space);
                }
            }
            runtime.slots.set(index, slot);
            runtime.poisoned = poisoned;
            Err(outcome.error)
        },
    }
}

/// Reclaims the stack of task `id` once the policy agrees to reap it
/// (`prepare_reap`): the stack is unmapped, the slot emptied, the stack's
/// publication withdrawn and the policy's reap committed (`commit_reap`).
/// A slot without a stack is refused, a stack whose reclaim fails stays in
/// its slot, and a poisoned scheduler refuses every reap.
pub fn reap<R, P, C>(
    id: TaskId,
    runtime: &mut SchedulerRuntime,
    published: &mut PublishedStacks,
    address_space: &mut ActiveAddressSpace,
    prepare_reap: P,
    commit_reap: C,
) -> (result: Result<(), SchedulerError>) where
    P: FnOnce(TaskId) -> Result<R, TaskError>,
    C: FnOnce(R),

    requires
        old(runtime).slots@.len() == MAX_TASKS,
        old(published).wf(),
        old(address_space).wf(),
        call_requires(prepare_reap, (id,)),
        forall|t: R|
            #[trigger] call_ensures(prepare_reap, (id,), Ok::<R, TaskError>(t)) ==> (id.slot as usize)
                < MAX_TASKS,
        forall|t: R| call_requires(commit_reap, (t,)),
    ensures
        final(runtime).slots@.len() == MAX_TASKS,
        final(runtime).poisoned == old(runtime).poisoned,
        final(published).wf(),
        same_frame(*final(address_space), *old(address_space)),
        old(runtime).poisoned ==> result == Err::<(), SchedulerError>(SchedulerError::Poisoned)
            && final(runtime).slots@ == old(runtime).slots@ && final(published)@ == old(published)@
            && *final(address_space) == *old(address_space),
        !old(runtime).poisoned ==> exists|r: Result<R, TaskError>| #[trigger]
            call_ensures(prepare_reap, (id,), r) && match r {
                Err(e) => result == Err::<(), SchedulerError>(SchedulerError::Task(e))
                    && final(runtime).slots@ == old(runtime).slots@ && final(published)@ == old(
                    published,
                )@ && *final(address_space) == *old(address_space),
                Ok(t) => match old(runtime).slots@[id.slot as int].stack {
                    None => result == Err::<(), SchedulerError>(SchedulerError::InvalidEntry)
                        && final(runtime).slots@ == old(runtime).slots@ && final(published)@ == old(
                        published,
                    )@ && *final(address_space) == *old(address_space),
                    Some(m) => {
                        &&& task_stack_validation(m, *old(address_space)) is Ok && m.virtual_start
                            == slot_layout(m.slot as int).stack_start ==> result is Ok
                        &&& task_stack_validation(m, *old(address_space)) matches Err(e) ==> result
                            == Err::<(), SchedulerError>(SchedulerError::Stack(e))
                            && *final(address_space) == *old(address_space)
                        &&& result is Ok ==> {
                            &&& slot_is_empty(final(runtime).slots@[id.slot as int])
                            &&& forall|i: int|
                                0 <= i < MAX_TASKS && i != id.slot ==> #[trigger] final(runtime).slots@[i]
                                    == old(runtime).slots@[i]
                            &&& final(published)@ == old(published)@.update(
                                id.slot as int,
                                PublishedTaskStack { active: false, ..old(published)@[id.slot as int] },
                            )
                            &&& call_ensures(commit_reap, (t,), ())
                            &&& m.virtual_start == slot_layout(m.slot as int).stack_start
                                ==> stack_reclaimed_from(
                                slot_layout(m.slot as int),
                                *old(address_space),
                                *final(address_space),
                            )
                        }
                        &&& result matches Err(e) ==> e is Stack && final(runtime).slots@ == old(
                            runtime,
                        ).slots@ && final(published)@ == old(published)@
                    },
                },
            },
{
    if runtime.poisoned {
        return Err(SchedulerError::Poisoned);
    }
    let prepared = match prepare_reap(id) {
        Ok(t) => t,
        Err(e) => return Err(SchedulerError::Task(e)),
    };
    let index = id.slot();
    let slot = runtime.slots[index];
    let mut stack = match slot.stack {
        Some(stack) => stack,
        None => return Err(SchedulerError::InvalidEntry),
    };
    match reclaim_task_stack(&mut stack, address_space) {
        Ok(()) => {},
        Err(error) => return Err(SchedulerError::Stack(error)),
    }
    runtime.slots.set(index, RuntimeSlot::empty());
    published.unpublish_task_stack(index);
    commit_reap(prepared);
    Ok(())
}

/// Withdraws the idle task's publication and reclaims its stack after a
/// failed initialization. A stack whose reclaim fails is kept in
/// `failed_stack`, which refuses every later initialization.
pub fn rollback_initialization(
    runtime: &mut SchedulerRuntime,
    idle: TaskId,
    published: &mut PublishedStacks,
    address_space: &mut ActiveAddressSpace,
    failed_stack: &mut Option<TaskStackMapping>,
    original: RollbackCause,
) -> (error: SchedulerError)
    requires
        old(runtime).slots@.len() == MAX_TASKS,
        (idle.slot as usize) < MAX_TASKS,
        old(published).wf(),
        old(address_space).wf(),
    ensures
        final(runtime).slots@.len() == MAX_TASKS,
        final(runtime).poisoned == old(runtime).poisoned,
        final(published).wf(),
        final(published)@ == old(published)@.update(
            idle.slot as int,
            PublishedTaskStack { active: false, ..old(published)@[idle.slot as int] },
        ),
        same_frame(*final(address_space), *old(address_space)),
        forall|i: int|
            0 <= i < MAX_TASKS && i != idle.slot ==> #[trigger] final(runtime).slots@[i] == old(
                runtime,
            ).slots@[i],
        slot_is_empty(final(runtime).slots@[idle.slot as int]),
        match old(runtime).slots@[idle.slot as int].stack {
            None => error == (SchedulerError::InitializationRollbackFailed {
                original,
                cleanup: RollbackCause::Runtime,
            }) && *final(failed_stack) == *old(failed_stack) && *final(address_space) == *old(
                address_space,
            ),
            Some(m) => (error == cleanup_error(original, Ok(())) && *final(failed_stack) == *old(
                failed_stack,
            ) && reclaimed_in_place(m, *old(address_space), *final(address_space))) || (
            *final(failed_stack) == Some(m) && exists|c: TaskStackError|
                error == cleanup_error(original, Err(c))),
        },
        old(runtime).slots@[idle.slot as int].stack matches Some(m) ==> (task_stack_validation(
            m,
            *old(address_space),
        ) is Ok && m.virtual_start == slot_layout(m.slot as int).stack_start ==> *final(failed_stack)
            == *old(failed_stack)),
{
    published.unpublish_task_stack(idle.slot());
    let index = idle.slot();
    let mut slot = runtime.slots[index];
    let taken = slot.stack.take();
    runtime.slots.set(index, RuntimeSlot::empty());
    let mut stack = match taken {
        Some(s) => s,
        None => {
            return SchedulerError::InitializationRollbackFailed {
                original,
                cleanup: RollbackCause::Runtime,
            };
        },
    };
    let kept = stack;
    match reclaim_task_stack(&mut stack, address_space) {
        Ok(()) => initialization_cleanup_result(original, Ok(())),
        Err(cleanup) => {
            *failed_stack = Some(kept);
            initialization_cleanup_result(original, Err(cleanup))
        },
    }
}

/// What a successful reclaim of `m` did to the tables: for a stack at its
/// slot's place, its pages are unmapped and everything else is as it was.
pub open spec fn reclaimed_in_place(m: TaskStackMapping, before: ActiveAddressSpace, after: ActiveAddressSpace) -> bool {
    m.virtual_start == slot_layout(m.slot as int).stack_start ==> stack_reclaimed_from(
        slot_layout(m.slot as int),
        before,
        after,
    )
}

/// Runtime slots that all hold nothing.
fn empty_slots() -> (slots: Vec<RuntimeSlot>)
    ensures
        slots@.len() == MAX_TASKS,
        forall|i: int| 0 <= i < MAX_TASKS ==> slot_is_empty(#[trigger] slots@[i]),
{
    let mut slots: Vec<RuntimeSlot> = Vec::new();
    let mut i: usize = 0;
    while i < MAX_TASKS
        invariant
            i <= MAX_TASKS,
            slots@.len() == i,
            forall|j: int| 0 <= j < i ==> slot_is_empty(#[trigger] slots@[j]),
        decreases MAX_TASKS - i,
    {
        slots.push(RuntimeSlot::empty());
        i += 1;
    }
    slots
}

/// Sets up the scheduler runtime: the idle task `idle` gets a stack mapped
/// over `frames`, a first-run context, its entry and a published stack, and
/// the policy's own check (`check_policy`) must pass. Initialization is
/// refused while a stack from an earlier failed attempt is still kept, and
/// when the runtime already exists. Any later failure unpublishes and
/// reclaims the idle stack; one that cannot be reclaimed is kept in
/// `failed_stack`.
pub fn initialize<F: FnOnce() -> Result<(), TaskError>>(
    cell: &mut Option<SchedulerRuntime>,
    failed_stack: &mut Option<TaskStackMapping>,
    published: &mut PublishedStacks,
    address_space: &mut ActiveAddressSpace,
    frames: &[u64; 16],
    bootstrap: TaskId,
    idle: TaskId,
    idle_entry: u64,
    trampoline: u64,
    fatal_return: u64,
    check_policy: F,
) -> (result: Result<(TaskId, TaskId), SchedulerError>)
    requires
        old(published).wf(),
        old(address_space).wf(),
        call_requires(check_policy, ()),
    ensures
        final(published).wf(),
        same_frame(*final(address_space), *old(address_space)),
        *old(failed_stack) is Some ==> result == Err::<(TaskId, TaskId), SchedulerError>(
            SchedulerError::Poisoned,
        ) && *final(cell) == *old(cell) && final(published)@ == old(published)@
            && *final(address_space) == *old(address_space),
        *old(failed_stack) is None && *old(cell) is Some ==> result == Err::<
            (TaskId, TaskId),
            SchedulerError,
        >(SchedulerError::AlreadyInitialized) && *final(cell) == *old(cell) && *final(failed_stack)
            == *old(failed_stack) && final(published)@ == old(published)@ && *final(address_space)
            == *old(address_space),
        result is Ok ==> {
            &&& result == Ok::<(TaskId, TaskId), SchedulerError>((bootstrap, idle))
            &&& 0 < idle.slot < MAX_TASKS
            &&& exists|r: Result<(), TaskError>| call_ensures(check_policy, (), r) && r is Ok
            &&& *final(cell) matches Some(rt) && rt.slots@.len() == MAX_TASKS && !rt.poisoned
                && spawned_slot(
                idle,
                idle_entry,
                trampoline,
                fatal_return,
                frames@,
                rt.slots@[idle.slot as int],
                *final(address_space),
            ) && forall|i: int|
                0 <= i < MAX_TASKS && i != idle.slot ==> slot_is_empty(#[trigger] rt.slots@[i])
            &&& final(published)@ == old(published)@.update(
                idle.slot as int,
                PublishedTaskStack {
                    active: true,
                    generation: idle.generation,
                    start: slot_layout(idle.slot as int).stack_start,
                    end: slot_layout(idle.slot as int).stack_end,
                },
            )
        },
        result is Err ==> *final(cell) == *old(cell),
        *old(failed_stack) is None && *old(cell) is None && 0 < idle.slot < MAX_TASKS && idle.generation
            != 0 && stack_mappable(*old(address_space), idle.slot as int, frames@) && context_result(
            slot_layout(idle.slot as int).stack_start,
            slot_layout(idle.slot as int).stack_end,
            trampoline,
            fatal_return,
        ) is Ok && (forall|r: Result<(), TaskError>| #[trigger] call_ensures(check_policy, (), r) ==> r is Ok)
            ==> result == Ok::<(TaskId, TaskId), SchedulerError>((bootstrap, idle)),
        result is Err && *old(failed_stack) is None && *old(cell) is None
            && old(address_space).spec_mapped_pages() + TASK_STACK_PAGE_COUNT <= u64::MAX ==> {
            &&& *final(failed_stack) is None
            &&& forall|a: u64| #[trigger]
                live_mapping(final(address_space).translate_spec(a)) == live_mapping(
                    old(address_space).translate_spec(a),
                )
        },
{
    if failed_stack.is_some() {
        return Err(SchedulerError::Poisoned);
    }
    if cell.is_some() {
        return Err(SchedulerError::AlreadyInitialized);
    }
    let ghost space0 = *address_space;
    let mut runtime = SchedulerRuntime { slots: empty_slots(), poisoned: false };
    let mut stack = match TaskStackMapping::empty(idle.slot()) {
        Ok(s) => s,
        Err(e) => return Err(SchedulerError::Stack(TaskStackError::Layout(e))),
    };
    let index = idle.slot();
    match map_task_stack(&mut stack, address_space, frames) {
        Ok(()) => {},
        Err(error) => {
            if stack.is_empty() {
                return Err(SchedulerError::Stack(error));
            }
            let mut slot = runtime.slots[index];
            slot.stack = Some(stack);
            runtime.slots.set(index, slot);
            return Err(
                rollback_initialization(
                    &mut runtime,
                    idle,
                    published,
                    address_space,
                    failed_stack,
                    RollbackCause::Stack(error),
                ),
            );
        },
    }
    let ghost mapped = *address_space;
    let context = match initialize_context(stack.virtual_start, stack.virtual_end, trampoline, fatal_return) {
        Ok(c) => c,
        Err(error) => {
            let mut slot = runtime.slots[index];
            slot.stack = Some(stack);
            runtime.slots.set(index, slot);
            let e = rollback_initialization(
                &mut runtime,
                idle,
                published,
                address_space,
                failed_stack,
                RollbackCause::Context(error),
            );
            proof {
                if *failed_stack == *old(failed_stack) {
                    lemma_reclaim_undoes_map(slot_layout(index as int), space0, mapped, *address_space);
                }
            }
            return Err(e);
        },
    };
    let start = stack.virtual_start;
    let end = stack.virtual_end;
    runtime.slots.set(index, RuntimeSlot { entry: Some(idle_entry), context, stack: Some(stack) });
    let cause = match published.publish_task_stack(idle, start, end) {
        Err(error) => Some(RollbackCause::Publication(error)),
        Ok(()) => match check_policy() {
            Err(error) => Some(RollbackCause::Task(error)),
            Ok(()) => None,
        },
    };
    if let Some(cause) = cause {
        let e = rollback_initialization(&mut runtime, idle, published, address_space, failed_stack, cause);
        proof {
            if *failed_stack == *old(failed_stack) {
                lemma_reclaim_undoes_map(slot_layout(index as int), space0, mapped, *address_space);
            }
        }
        return Err(e);
    }
    *cell = Some(runtime);
    Ok((bootstrap, idle))
}

/// What rolling back a failed stack publication reports to the caller.
#[derive(Clone, Copy, Debug, PartialEq, Eq, Structural)]
pub struct SpawnRollbackOutcome {
    pub error: SchedulerError,
    pub report: SpawnRollbackReport,
}

/// Rolls back a task whose stack could not be published: the publication is
/// withdrawn, then the stack is reclaimed, and only after that the policy
/// entry is aborted through `abort_spawn`. If the reclaim fails the slot keeps
/// its stack; if the abort fails the stack is mapped back and kept. Every
/// outcome other than a clean rollback poisons the scheduler.
pub fn rollback_spawn_publication<F: FnOnce(TaskId) -> Result<(), TaskError>>(
    id: TaskId,
    slot: &mut RuntimeSlot,
    poisoned: &mut bool,
    published: &mut PublishedStacks,
    address_space: &mut ActiveAddressSpace,
    original: AttributionError,
    abort_spawn: F,
) -> (outcome: SpawnRollbackOutcome)
    requires
        old(published).wf(),
        old(address_space).wf(),
        call_requires(abort_spawn, (id,)),
    ensures
        final(published).wf(),
        (id.slot as usize) < MAX_TASKS ==> final(published)@ == old(published)@.update(
            id.slot as int,
            PublishedTaskStack { active: false, ..old(published)@[id.slot as int] },
        ),
        (id.slot as usize) >= MAX_TASKS ==> final(published)@ == old(published)@,
        same_frame(*final(address_space), *old(address_space)),
        outcome.report.publication_inactive,
        outcome.report.consistent(),
        !*old(poisoned) ==> (outcome.report.slot_empty <==> !*final(poisoned)),
        old(slot).stack is None ==> outcome == (SpawnRollbackOutcome {
            error: SchedulerError::SpawnRollbackFailed {
                original: RollbackCause::Publication(original),
                cleanup: RollbackCause::Runtime,
            },
            report: SpawnRollbackReport {
                publication_inactive: true,
                stack: StackRollbackState::Missing,
                policy_aborted: false,
                slot_empty: false,
            },
        }) && *final(poisoned) && *final(slot) == *old(slot) && *final(address_space) == *old(
            address_space,
        ),
        old(slot).stack matches Some(s) ==> outcome.report.stack != StackRollbackState::Missing,
        old(slot).stack matches Some(s) ==> (task_stack_validation(s, *old(address_space)) is Ok
            && s.virtual_start == slot_layout(s.slot as int).stack_start ==> outcome.report.stack
            != StackRollbackState::Retained),
        old(slot).stack matches Some(s) ==> (outcome.report.stack == StackRollbackState::Retained ==> {
            &&& *final(poisoned)
            &&& final(slot).stack == Some(s)
            &&& !outcome.report.policy_aborted
            &&& exists|e: TaskStackError|
                outcome.error == (SchedulerError::SpawnRollbackFailed {
                    original: RollbackCause::Publication(original),
                    cleanup: RollbackCause::Stack(e),
                })
            &&& task_stack_validation(s, *old(address_space)) matches Err(e) ==> outcome.error == (
            SchedulerError::SpawnRollbackFailed {
                original: RollbackCause::Publication(original),
                cleanup: RollbackCause::Stack(e),
            }) && *final(address_space) == *old(address_space)
        }),
        old(slot).stack matches Some(s) ==> (outcome.report.policy_aborted ==> {
            &&& exists|r: Result<(), TaskError>| call_ensures(abort_spawn, (id,), r) && r is Ok
            &&& outcome.error == SchedulerError::Publication(original)
            &&& final(slot).entry is None && final(slot).context.rsp == 0 && final(slot).stack is None
            &&& *final(poisoned) == *old(poisoned)
            &&& s.virtual_start == slot_layout(s.slot as int).stack_start ==> stack_reclaimed_from(
                slot_layout(s.slot as int),
                *old(address_space),
                *final(address_space),
            )
        }),
        old(slot).stack matches Some(s) ==> (outcome.report.stack == StackRollbackState::Reclaimed
            && !outcome.report.policy_aborted ==> {
            &&& *final(poisoned)
            &&& final(slot).stack == Some(s)
            &&& exists|pe: TaskError|
                call_ensures(abort_spawn, (id,), Err::<(), TaskError>(pe)) && (outcome.error == (
                SchedulerError::SpawnRollbackFailed {
                    original: RollbackCause::Publication(original),
                    cleanup: RollbackCause::Task(pe),
                }) || exists|re: TaskStackError|
                    outcome.error == (SchedulerError::SpawnRollbackFailed {
                        original: RollbackCause::Publication(original),
                        cleanup: RollbackCause::Combined {
                            first: RollbackLeaf::Task(pe),
                            second: RollbackLeaf::Stack(re),
                        },
                    }))
        }),
{
    published.unpublish_task_stack(id.slot());
    let publication_inactive = !published.task_stack_published(id);
    let mut owned = match slot.stack.take() {
        Some(s) => s,
        None => {
            *poisoned = true;
            return SpawnRollbackOutcome {
                error: SchedulerError::SpawnRollbackFailed {
                    original: RollbackCause::Publication(original),
                    cleanup: RollbackCause::Runtime,
                },
                report: SpawnRollbackReport {
                    publication_inactive,
                    stack: StackRollbackState::Missing,
                    policy_aborted: false,
                    slot_empty: false,
                },
            };
        },
    };
    let original_stack = owned;
    let mapped_before = address_space.mapped_pages();
    match reclaim_task_stack(&mut owned, address_space) {
        Ok(()) => {},
        Err(reclaim_error) => {
            slot.stack = Some(owned);
            *poisoned = true;
            return SpawnRollbackOutcome {
                error: SchedulerError::SpawnRollbackFailed {
                    original: RollbackCause::Publication(original),
                    cleanup: RollbackCause::Stack(reclaim_error),
                },
                report: SpawnRollbackReport {
                    publication_inactive,
                    stack: StackRollbackState::Retained,
                    policy_aborted: false,
                    slot_empty: false,
                },
            };
        },
    }
    let aborted = abort_spawn(id);
    match aborted {
        Ok(()) => {
            *slot = RuntimeSlot::empty();
            SpawnRollbackOutcome {
                error: SchedulerError::Publication(original),
                report: SpawnRollbackReport {
                    publication_inactive,
                    stack: StackRollbackState::Reclaimed,
                    policy_aborted: true,
                    slot_empty: true,
                },
            }
        },
        Err(policy_error) => {
            let restore = restore_task_stack(&original_stack, address_space, mapped_before);
            slot.stack = Some(original_stack);
            *poisoned = true;
            let error = match restore {
                Ok(()) => SchedulerError::SpawnRollbackFailed {
                    original: RollbackCause::Publication(original),
                    cleanup: RollbackCause::Task(policy_error),
                },
                Err(restore_error) => SchedulerError::SpawnRollbackFailed {
                    original: RollbackCause::Publication(original),
                    cleanup: RollbackCause::Combined {
                        first: RollbackLeaf::Task(policy_error),
                        second: RollbackLeaf::Stack(restore_error),
                    },
                },
            };
            SpawnRollbackOutcome {
                error,
                report: SpawnRollbackReport {
                    publication_inactive,
                    stack: StackRollbackState::Reclaimed,
                    policy_aborted: false,
                    slot_empty: false,
                },
            }
        },
    }
}

/// The error reported after failed initialization, given what cleanup did.
pub open spec fn cleanup_error(original: RollbackCause, cleanup: Result<(), TaskStackError>) -> SchedulerError {
    match cleanup {
        Ok(()) => match original {
            RollbackCause::Task(e) => SchedulerError::Task(e),
            RollbackCause::Stack(e) => SchedulerError::Stack(e),
            RollbackCause::Context(e) => SchedulerError::Context(e),
            RollbackCause::Publication(e) => SchedulerError::Publication(e),
            _ => SchedulerError::InitializationRollbackFailed {
                original,
                cleanup: RollbackCause::Runtime,
            },
        },
        Err(e) => SchedulerError::InitializationRollbackFailed {
            original,
            cleanup: RollbackCause::Stack(e),
        },
    }
}

/// After a successful cleanup the original failure is reported as it was;
/// a failed cleanup reports both.
pub fn initialization_cleanup_result(
    original: RollbackCause,
    cleanup: Result<(), TaskStackError>,
) -> (e: SchedulerError)
    ensures
        e == cleanup_error(original, cleanup),
{
    match cleanup {
        Ok(()) => match original {
            RollbackCause::Task(error) => SchedulerError::Task(error),
            RollbackCause::Stack(error) => SchedulerError::Stack(error),
            RollbackCause::Context(error) => SchedulerError::Context(error),
            RollbackCause::Publication(error) => SchedulerError::Publication(error),
            RollbackCause::Runtime => SchedulerError::InitializationRollbackFailed {
                original,
                cleanup: RollbackCause::Runtime,
            },
            RollbackCause::Combined { .. } => SchedulerError::InitializationRollbackFailed {
                original,
                cleanup: RollbackCause::Runtime,
            },
        },
        Err(cleanup) => SchedulerError::InitializationRollbackFailed {
            original,
            cleanup: RollbackCause::Stack(cleanup),
        },
    }
}

/// Live resources of one task slot: its entry address, saved context and stack.
#[derive(Clone, Copy, Debug)]
pub struct RuntimeSlot {
    pub entry: Option<u64>,
    pub context: TaskContext,
    pub stack: Option<TaskStackMapping>,
}

impl RuntimeSlot {
    /// A slot holding nothing.
    pub fn empty() -> (s: RuntimeSlot)
        ensures
            s.entry.is_none(),
            s.context.rsp == 0,
            s.stack.is_none(),
    {
        RuntimeSlot { entry: None, context: TaskContext { rsp: 0 }, stack: None }
    }
}

/// Whether slot `index` in `state` holds exactly the resources that state needs.
pub open spec fn slot_metadata_ok(index: int, state: TaskState, slot: RuntimeSlot) -> bool {
    if index == 0 {
        slot.entry.is_none() && slot.stack.is_none()
    } else {
        match state {
            TaskState::Vacant => slot.entry.is_none() && slot.context.rsp == 0
                && slot.stack.is_none(),
            TaskState::Ready | TaskState::Running | TaskState::Exited => slot.entry.is_some()
                && slot.context.rsp != 0 && slot.stack.is_some(),
            TaskState::Blocked => false,
        }
    }
}

/// Checks that a slot's entry, context and stack agree with its policy state.
pub fn validate_slot_metadata(slot_index: usize, state: TaskState, slot: &RuntimeSlot) -> (result:
    Result<(), SchedulerError>)
    ensures
        result is Ok <==> slot_metadata_ok(slot_index as int, state, *slot),
        result is Err ==> result == Err::<(), SchedulerError>(SchedulerError::InvalidEntry),
{
    let valid = if slot_index == 0 {
        slot.entry.is_none() && slot.stack.is_none()
    } else {
        match state {
            TaskState::Vacant => slot.entry.is_none() && slot.context.rsp == 0
                && slot.stack.is_none(),
            TaskState::Ready | TaskState::Running | TaskState::Exited => slot.entry.is_some()
                && slot.context.rsp != 0 && slot.stack.is_some(),
            TaskState::Blocked => false,
        }
    };
    if valid {
        Ok(())
    } else {
        Err(SchedulerError::InvalidEntry)
    }
}

/// Whether the context saved for task `id` in `slot` may be switched to.
pub open spec fn selectable(slot: RuntimeSlot, id: TaskId) -> bool {
    if slot.context.rsp == 0 {
        false
    } else if id.slot == 0 {
        slot.entry.is_none() && slot.stack.is_none()
    } else {
        match slot.stack {
            Some(stack) => slot.entry.is_some() && stack.virtual_start <= slot.context.rsp
                && slot.context.rsp < stack.virtual_end,
            None => false,
        }
    }
}

/// Checks a selected task's saved context before switching to it: the
/// bootstrap task owns no entry or stack, and any other task's saved stack
/// pointer lies inside its own stack.
pub fn validate_selected_context(slot: &RuntimeSlot, id: TaskId) -> (result: Result<
    (),
    SchedulerError,
>)
    ensures
        result is Ok <==> selectable(*slot, id),
        result is Err ==> result == Err::<(), SchedulerError>(SchedulerError::InvalidEntry),
{
    if slot.context.rsp == 0 {
        return Err(SchedulerError::InvalidEntry);
    }
    if id.slot() == 0 {
        if slot.entry.is_some() || slot.stack.is_some() {
            return Err(SchedulerError::InvalidEntry);
        }
        return Ok(());
    }
    let stack = match &slot.stack {
        Some(stack) => stack,
        None => return Err(SchedulerError::InvalidEntry),
    };
    if slot.entry.is_none() || !stack.contains(slot.context.rsp) {
        return Err(SchedulerError::InvalidEntry);
    }
    Ok(())
}

/// The recorded frame of page `i` of `m`, if it owns one.
pub open spec fn owned_page(m: TaskStackMapping, i: int) -> Option<u64> {
    if 0 <= i < m.owned_count && i < TASK_STACK_PAGE_COUNT {
        Some(m.physical_pages@[i])
    } else {
        None
    }
}

/// Two stacks share no virtual address and no page slot of one equals a page slot of the other.
pub open spec fn stacks_apart(a: TaskStackMapping, b: TaskStackMapping) -> bool {
    &&& !(a.virtual_start < b.virtual_end && b.virtual_start < a.virtual_end)
    &&& forall|i: int, j: int|
        0 <= i < TASK_STACK_PAGE_COUNT && 0 <= j < TASK_STACK_PAGE_COUNT ==> #[trigger] owned_page(
            a,
            i,
        ) != #[trigger] owned_page(b, j)
}

/// The stacks of slots `l` and `r` are apart, if both exist.
pub open spec fn pair_apart(slots: Seq<RuntimeSlot>, l: int, r: int) -> bool {
    match (slots[l].stack, slots[r].stack) {
        (Some(a), Some(b)) => stacks_apart(a, b),
        _ => true,
    }
}

/// No task stack contains the bootstrap task's saved stack pointer.
pub open spec fn bootstrap_outside(slots: Seq<RuntimeSlot>) -> bool {
    slots[0].context.rsp != 0 ==> forall|s: int|
        1 <= s < MAX_TASKS ==> match #[trigger] slots[s].stack {
            Some(m) => !(m.virtual_start <= slots[0].context.rsp && slots[0].context.rsp
                < m.virtual_end),
            None => true,
        }
}

/// Every two task stacks are apart and none holds the bootstrap stack pointer.
pub open spec fn ownership_ok(slots: Seq<RuntimeSlot>) -> bool {
    &&& forall|l: int, r: int| 1 <= l < r < MAX_TASKS ==> #[trigger] pair_apart(slots, l, r)
    &&& bootstrap_outside(slots)
}

fn owned_frame(m: &TaskStackMapping, i: usize) -> (p: Option<u64>)
    ensures
        p == owned_page(*m, i as int),
{
    m.physical_page(i)
}

/// Whether two stacks are apart.
fn stack_pair_apart(a: &TaskStackMapping, b: &TaskStackMapping) -> (ok: bool)
    ensures
        ok == stacks_apart(*a, *b),
{
    if a.virtual_start() < b.virtual_end() && b.virtual_start() < a.virtual_end() {
        return false;
    }
    let mut i: usize = 0;
    while i < TASK_STACK_PAGE_COUNT
        invariant
            i <= TASK_STACK_PAGE_COUNT,
            forall|x: int, y: int|
                0 <= x < i && 0 <= y < TASK_STACK_PAGE_COUNT ==> #[trigger] owned_page(*a, x)
                    != #[trigger] owned_page(*b, y),
        decreases TASK_STACK_PAGE_COUNT - i,
    {
        let left = owned_frame(a, i);
        let mut j: usize = 0;
        while j < TASK_STACK_PAGE_COUNT
            invariant
                i < TASK_STACK_PAGE_COUNT,
                j <= TASK_STACK_PAGE_COUNT,
                left == owned_page(*a, i as int),
                forall|y: int| 0 <= y < j ==> left != #[trigger] owned_page(*b, y),
            decreases TASK_STACK_PAGE_COUNT - j,
        {
            if left == owned_frame(b, j) {
                return false;
            }
            j += 1;
        }
        i += 1;
    }
    true
}

/// Checks that task stacks never overlap or share a frame, and that no task
/// stack holds the bootstrap task's saved stack pointer.
pub fn check_stack_ownership(slots: &[RuntimeSlot]) -> (result: Result<(), SchedulerError>)
    requires
        slots@.len() == MAX_TASKS,
    ensures
        result is Ok <==> ownership_ok(slots@),
        result is Err ==> result == Err::<(), SchedulerError>(SchedulerError::InvalidEntry),
{
    let mut left: usize = 1;
    while left < MAX_TASKS
        invariant
            slots@.len() == MAX_TASKS,
            1 <= left <= MAX_TASKS,
            forall|l: int, r: int| 1 <= l < left && l < r < MAX_TASKS ==> #[trigger] pair_apart(slots@, l, r),
        decreases MAX_TASKS - left,
    {
        if let Some(left_stack) = &slots[left].stack {
            let mut right: usize = left + 1;
            while right < MAX_TASKS
                invariant
                    slots@.len() == MAX_TASKS,
                    1 <= left < MAX_TASKS,
                    left < right <= MAX_TASKS,
                    slots@[left as int].stack == Some(*left_stack),
                    forall|r: int| left < r < right ==> #[trigger] pair_apart(slots@, left as int, r),
                decreases MAX_TASKS - right,
            {
                if let Some(right_stack) = &slots[right].stack {
                    if !stack_pair_apart(left_stack, right_stack) {
                        assert(!pair_apart(slots@, left as int, right as int));
                        return Err(SchedulerError::InvalidEntry);
                    }
                }
                right += 1;
            }
        }
        left += 1;
    }
    let bootstrap_rsp = slots[0].context.rsp;
    if bootstrap_rsp != 0 {
        let mut s: usize = 1;
        while s < MAX_TASKS
            invariant
                slots@.len() == MAX_TASKS,
                1 <= s <= MAX_TASKS,
                bootstrap_rsp == slots@[0].context.rsp,
                bootstrap_rsp != 0,
                forall|k: int| 1 <= k < s ==> match #[trigger] slots@[k].stack {
                    Some(m) => !(m.virtual_start <= bootstrap_rsp && bootstrap_rsp < m.virtual_end),
                    None => true,
                },
            decreases MAX_TASKS - s,
        {
            if let Some(stack) = &slots[s].stack {
                if stack.contains(bootstrap_rsp) {
                    assert(slots@[s as int].stack == Some(*stack));
                    assert(!bootstrap_outside(slots@));
                    return Err(SchedulerError::InvalidEntry);
                }
            }
            s += 1;
        }
    }
    Ok(())
}

/// The failure found for slot `i`, if any.
pub open spec fn slot_runtime_failure(
    snapshots: Seq<(TaskId, TaskState)>,
    bootstrap: TaskId,
    published: PublishedStacks,
    slots: Seq<RuntimeSlot>,
    space: ActiveAddressSpace,
    i: int,
) -> Option<SchedulerError> {
    let (id, state) = snapshots[i];
    let slot = slots[i];
    if !slot_metadata_ok(i, state, slot) {
        Some(SchedulerError::InvalidEntry)
    } else if i == 0 {
        if !is_published(published, bootstrap) {
            Some(SchedulerError::InvalidEntry)
        } else {
            None
        }
    } else {
        match state {
            TaskState::Vacant => if id.generation == 0 || is_published(
                published,
                TaskId { slot: i as u8, generation: id.generation },
            ) {
                Some(SchedulerError::InvalidEntry)
            } else {
                None
            },
            TaskState::Blocked => Some(SchedulerError::InvalidEntry),
            _ => {
                let m = slot.stack->0;
                if !(m.virtual_start <= slot.context.rsp && slot.context.rsp < m.virtual_end) {
                    Some(SchedulerError::InvalidEntry)
                } else if !is_published(published, id) {
                    Some(SchedulerError::InvalidEntry)
                } else {
                    match task_stack_validation(m, space) {
                        Err(e) => Some(SchedulerError::Stack(e)),
                        Ok(()) => None,
                    }
                }
            },
        }
    }
}

/// Whether task `id` has an active publication with its generation.
pub open spec fn is_published(published: PublishedStacks, id: TaskId) -> bool {
    (id.slot as usize) < MAX_TASKS && published@[id.slot as int].active
        && published@[id.slot as int].generation == id.generation
}

/// The first failing slot at or after `i`.
pub open spec fn first_slot_failure(
    snapshots: Seq<(TaskId, TaskState)>,
    bootstrap: TaskId,
    published: PublishedStacks,
    slots: Seq<RuntimeSlot>,
    space: ActiveAddressSpace,
    i: int,
) -> Option<SchedulerError>
    decreases MAX_TASKS - i,
{
    if i >= MAX_TASKS {
        None
    } else {
        match slot_runtime_failure(snapshots, bootstrap, published, slots, space, i) {
            Some(e) => Some(e),
            None => first_slot_failure(snapshots, bootstrap, published, slots, space, i + 1),
        }
    }
}

/// What checking the runtime against the policy snapshots gives.
pub open spec fn runtime_check(
    snapshots: Seq<(TaskId, TaskState)>,
    bootstrap: TaskId,
    published: PublishedStacks,
    slots: Seq<RuntimeSlot>,
    space: ActiveAddressSpace,
) -> Result<(), SchedulerError> {
    match first_slot_failure(snapshots, bootstrap, published, slots, space, 0) {
        Some(e) => Err(e),
        None => if ownership_ok(slots) {
            Ok(())
        } else {
            Err(SchedulerError::InvalidEntry)
        },
    }
}

proof fn lemma_first_slot_failure_skip(
    snapshots: Seq<(TaskId, TaskState)>,
    bootstrap: TaskId,
    published: PublishedStacks,
    slots: Seq<RuntimeSlot>,
    space: ActiveAddressSpace,
    k0: int,
    k: int,
)
    requires
        0 <= k0 <= k <= MAX_TASKS,
        forall|j: int|
            k0 <= j < k ==> (#[trigger] slot_runtime_failure(
                snapshots,
                bootstrap,
                published,
                slots,
                space,
                j,
            )) is None,
    ensures
        first_slot_failure(snapshots, bootstrap, published, slots, space, k0) == first_slot_failure(
            snapshots,
            bootstrap,
            published,
            slots,
            space,
            k,
        ),
    decreases k - k0,
{
    if k0 < k {
        assert(slot_runtime_failure(snapshots, bootstrap, published, slots, space, k0) is None);
        lemma_first_slot_failure_skip(snapshots, bootstrap, published, slots, space, k0 + 1, k);
    }
}

/// Checks one slot's resources against its policy snapshot.
fn check_slot(
    index: usize,
    snapshot: (TaskId, TaskState),
    bootstrap: TaskId,
    published: &PublishedStacks,
    slot: &RuntimeSlot,
    address_space: &ActiveAddressSpace,
) -> (failure: Option<SchedulerError>)
    requires
        index < MAX_TASKS,
        published.wf(),
        address_space.wf(),
    ensures
        forall|snaps: Seq<(TaskId, TaskState)>, slots: Seq<RuntimeSlot>|
            snaps.len() == MAX_TASKS && slots.len() == MAX_TASKS && snaps[index as int] == snapshot
                && slots[index as int] == *slot ==> failure == #[trigger] slot_runtime_failure(
                snaps,
                bootstrap,
                *published,
                slots,
                *address_space,
                index as int,
            ),
{
    let (id, state) = snapshot;
    if validate_slot_metadata(index, state, slot).is_err() {
        return Some(SchedulerError::InvalidEntry);
    }
    if index == 0 {
        if !published.task_stack_published(bootstrap) {
            return Some(SchedulerError::InvalidEntry);
        }
        return None;
    }
    match state {
        TaskState::Vacant => {
            let vacant = match TaskId::new(index as u8, id.generation()) {
                Ok(v) => v,
                Err(_) => return Some(SchedulerError::InvalidEntry),
            };
            if published.task_stack_published(vacant) {
                return Some(SchedulerError::InvalidEntry);
            }
            None
        },
        TaskState::Blocked => Some(SchedulerError::InvalidEntry),
        _ => {
            let stack = match &slot.stack {
                Some(stack) => stack,
                None => return Some(SchedulerError::InvalidEntry),
            };
            if !stack.contains(slot.context.rsp) {
                return Some(SchedulerError::InvalidEntry);
            }
            if !published.task_stack_published(id) {
                return Some(SchedulerError::InvalidEntry);
            }
            match validate_task_stack(stack, address_space) {
                Err(e) => Some(SchedulerError::Stack(e)),
                Ok(()) => None,
            }
        },
    }
}

/// Validates the runtime against task-policy snapshots: each slot's entry,
/// saved context, stack publication and live stack mapping, then stack
/// ownership across slots. `snapshots[i]` is the policy's identity and state
/// of slot `i`.
pub fn check_runtime_invariants(
    snapshots: &[(TaskId, TaskState)],
    bootstrap: TaskId,
    published: &PublishedStacks,
    slots: &[RuntimeSlot],
    address_space: &ActiveAddressSpace,
) -> (result: Result<(), SchedulerError>)
    requires
        snapshots@.len() == MAX_TASKS,
        slots@.len() == MAX_TASKS,
        published.wf(),
        address_space.wf(),
    ensures
        result == runtime_check(snapshots@, bootstrap, *published, slots@, *address_space),
{
    let mut i: usize = 0;
    while i < MAX_TASKS
        invariant
            snapshots@.len() == MAX_TASKS,
            slots@.len() == MAX_TASKS,
            published.wf(),
            address_space.wf(),
            i <= MAX_TASKS,
            forall|j: int|
                0 <= j < i ==> (#[trigger] slot_runtime_failure(
                    snapshots@,
                    bootstrap,
                    *published,
                    slots@,
                    *address_space,
                    j,
                )) is None,
        decreases MAX_TASKS - i,
    {
        let failure = check_slot(i, snapshots[i], bootstrap, published, &slots[i], address_space);
        assert(failure == slot_runtime_failure(
            snapshots@,
            bootstrap,
            *published,
            slots@,
            *address_space,
            i as int,
        ));
        if let Some(e) = failure {
            proof {
                lemma_first_slot_failure_skip(
                    snapshots@,
                    bootstrap,
                    *published,
                    slots@,
                    *address_space,
                    0,
                    i as int,
                );
            }
            return Err(e);
        }
        i += 1;
    }
    proof {
        lemma_first_slot_failure_skip(
            snapshots@,
            bootstrap,
            *published,
            slots@,
            *address_space,
            0,
            MAX_TASKS as int,
        );
    }
    assert(first_slot_failure(snapshots@, bootstrap, *published, slots@, *address_space, 0).is_none());
    let owned = check_stack_ownership(slots);
    match owned {
        Ok(()) => Ok(()),
        Err(e) => Err(e),
    }
}

} // verus!
