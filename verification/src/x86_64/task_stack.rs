//! Virtual layout and ownership metadata for guarded cooperative-task stacks.
use vstd::prelude::*;
use crate::task::MAX_TASKS;
use crate::x86_64::paging::{
    canonical, frame_result, is_canonical, leaf_result, lemma_kept_refl, lemma_kept_trans, lemma_leaf_frame,
    lemma_live_path_present, lemma_path_kept, path_present, lemma_low_half_canonical,
    lemma_pages_apart, lemma_slots_of_page, mapped_translation, page_result, rw_nx, same_slots,
    ActiveAddressSpace, MapOutcome, MappingPermissions, PagingError, PhysicalFrame, Translation,
    VirtualAddress, VirtualPage, PAGE_SIZE,
};

verus! {

/// Base of the virtual region reserved for non-bootstrap task stacks.
pub const TASK_STACK_REGION_BASE: u64 = 0x0000_2800_0000_0000;
/// Usable bytes in every non-bootstrap task stack.
pub const TASK_STACK_SIZE: usize = 64 * 1024;
/// Number of mapped pages in every non-bootstrap task stack.
pub const TASK_STACK_PAGE_COUNT: usize = 16;
/// Virtual distance between consecutive task-stack slots.
pub const TASK_STACK_SLOT_STRIDE: u64 = 128 * 1024;

/// A validated virtual layout for one guarded task stack.
#[derive(Clone, Copy, Debug, PartialEq, Eq, Structural)]
pub struct TaskStackLayout {
    /// First unmapped guard page.
    pub lower_guard: u64,
    /// First mapped writable stack page.
    pub stack_start: u64,
    /// Exclusive end of the mapped stack.
    pub stack_end: u64,
    /// First address of the unmapped upper guard page.
    pub upper_guard: u64,
    /// Exclusive end of this virtual slot.
    pub slot_end: u64,
}

/// Errors from task-stack layout arithmetic.
#[derive(Clone, Copy, Debug, PartialEq, Eq, Structural)]
pub enum TaskStackLayoutError {
    BootstrapHasNoMappedStack,
    InvalidSlot,
    AddressOverflow,
    InvalidAddress,
}

/// The layout of stack slot `slot` (for `0 < slot < MAX_TASKS`).
pub open spec fn slot_layout(slot: int) -> TaskStackLayout {
    let lower = TASK_STACK_REGION_BASE + slot * TASK_STACK_SLOT_STRIDE;
    TaskStackLayout {
        lower_guard: lower as u64,
        stack_start: (lower + PAGE_SIZE) as u64,
        stack_end: (lower + PAGE_SIZE + TASK_STACK_SIZE) as u64,
        upper_guard: (lower + PAGE_SIZE + TASK_STACK_SIZE) as u64,
        slot_end: (lower + TASK_STACK_SLOT_STRIDE) as u64,
    }
}

impl TaskStackLayout {
    /// Calculates a non-bootstrap task's distinct guarded stack slot.
    pub fn for_slot(slot: usize) -> (result: Result<TaskStackLayout, TaskStackLayoutError>)
        ensures
            slot == 0 ==> result == Err::<TaskStackLayout, TaskStackLayoutError>(
                TaskStackLayoutError::BootstrapHasNoMappedStack,
            ),
            slot >= MAX_TASKS ==> result == Err::<TaskStackLayout, TaskStackLayoutError>(
                TaskStackLayoutError::InvalidSlot,
            ),
            0 < slot < MAX_TASKS ==> result == Ok::<TaskStackLayout, TaskStackLayoutError>(
                slot_layout(slot as int),
            ),
    {
        if slot == 0 {
            return Err(TaskStackLayoutError::BootstrapHasNoMappedStack);
        }
        if slot >= MAX_TASKS {
            return Err(TaskStackLayoutError::InvalidSlot);
        }
        let offset = (slot as u64) * TASK_STACK_SLOT_STRIDE;
        let lower_guard = TASK_STACK_REGION_BASE + offset;
        let stack_start = lower_guard + PAGE_SIZE;
        let stack_end = stack_start + TASK_STACK_SIZE as u64;
        let upper_guard = stack_end;
        let slot_end = lower_guard + TASK_STACK_SLOT_STRIDE;
        assert(canonical(lower_guard) && canonical(stack_start) && canonical(stack_end) && canonical(
            slot_end,
        )) by (bit_vector)
            requires
                lower_guard <= 0x0000_2800_0010_0000u64,
                stack_start <= lower_guard + 0x1000,
                stack_end <= stack_start + 0x10000,
                slot_end <= lower_guard + 0x20000,
        ;
        if !is_canonical(lower_guard) || !is_canonical(stack_start) || !is_canonical(stack_end)
            || !is_canonical(upper_guard) || !is_canonical(slot_end)
            || !lower_guard.is_multiple_of(PAGE_SIZE) || !stack_start.is_multiple_of(PAGE_SIZE)
            || !stack_end.is_multiple_of(PAGE_SIZE) || !slot_end.is_multiple_of(PAGE_SIZE)
            || upper_guard + PAGE_SIZE > slot_end {
            return Err(TaskStackLayoutError::InvalidAddress);
        }
        Ok(TaskStackLayout { lower_guard, stack_start, stack_end, upper_guard, slot_end })
    }

    /// Whether an address is inside the usable mapped stack range.
    pub fn contains(self, address: u64) -> (b: bool)
        ensures
            b == (self.stack_start <= address && address < self.stack_end),
    {
        self.stack_start <= address && address < self.stack_end
    }
}

/// Distinct stack slots never share an address, guards included, and each
/// guard page lies outside its own stack.
pub proof fn lemma_slots_disjoint(a: int, b: int)
    requires
        0 < a < b < MAX_TASKS,
    ensures
        slot_layout(a).slot_end <= slot_layout(b).lower_guard,
        slot_layout(a).lower_guard < slot_layout(a).stack_start,
        slot_layout(a).stack_end <= slot_layout(a).upper_guard,
        slot_layout(a).upper_guard + PAGE_SIZE <= slot_layout(a).slot_end,
        slot_layout(a).stack_end - slot_layout(a).stack_start == TASK_STACK_SIZE,
        slot_layout(a).lower_guard % PAGE_SIZE == 0 && slot_layout(a).stack_start % PAGE_SIZE == 0,
{
}

/// Fixed ownership metadata for one mapped task stack.
#[derive(Clone, Copy, Debug, PartialEq, Eq)]
pub struct TaskStackMapping {
    pub slot: u8,
    pub virtual_start: u64,
    pub virtual_end: u64,
    pub physical_pages: [u64; 16],
    pub owned_count: usize,
    pub mapped_count: usize,
}

impl TaskStackMapping {
    /// Empty ownership metadata for `slot`.
    pub fn empty(slot: usize) -> (result: Result<TaskStackMapping, TaskStackLayoutError>)
        ensures
            slot == 0 ==> result == Err::<TaskStackMapping, TaskStackLayoutError>(
                TaskStackLayoutError::BootstrapHasNoMappedStack,
            ),
            slot >= MAX_TASKS ==> result == Err::<TaskStackMapping, TaskStackLayoutError>(
                TaskStackLayoutError::InvalidSlot,
            ),
            0 < slot < MAX_TASKS ==> (result matches Ok(m) && m.slot == slot && m.virtual_start
                == slot_layout(slot as int).stack_start && m.virtual_end == slot_layout(
                slot as int,
            ).stack_end && m.owned_count == 0 && m.mapped_count == 0 && forall|i: int|
                0 <= i < 16 ==> #[trigger] m.physical_pages@[i] == 0),
    {
        let layout = match TaskStackLayout::for_slot(slot) {
            Ok(l) => l,
            Err(e) => return Err(e),
        };
        Ok(
            TaskStackMapping {
                slot: slot as u8,
                virtual_start: layout.stack_start,
                virtual_end: layout.stack_end,
                physical_pages: [0; 16],
                owned_count: 0,
                mapped_count: 0,
            },
        )
    }

    /// The task-table slot that owns the mapping.
    pub fn slot(&self) -> (s: usize)
        ensures
            s == self.slot,
    {
        self.slot as usize
    }

    /// The first mapped virtual stack address.
    pub fn virtual_start(&self) -> (a: u64)
        ensures
            a == self.virtual_start,
    {
        self.virtual_start
    }

    /// The exclusive mapped virtual stack end.
    pub fn virtual_end(&self) -> (a: u64)
        ensures
            a == self.virtual_end,
    {
        self.virtual_end
    }

    /// The number of currently mapped leaves.
    pub fn mapped_count(&self) -> (n: usize)
        ensures
            n == self.mapped_count,
    {
        self.mapped_count
    }

    /// The number of physical frames exclusively owned.
    pub fn owned_count(&self) -> (n: usize)
        ensures
            n == self.owned_count,
    {
        self.owned_count
    }

    /// Whether no physical frame is owned.
    pub fn is_empty(&self) -> (b: bool)
        ensures
            b == (self.owned_count == 0),
    {
        self.owned_count == 0
    }

    /// The recorded physical frame of mapped page `index`.
    pub fn physical_page(&self, index: usize) -> (p: Option<u64>)
        ensures
            index < self.owned_count && index < TASK_STACK_PAGE_COUNT ==> p == Some(
                self.physical_pages@[index as int],
            ),
            !(index < self.owned_count && index < TASK_STACK_PAGE_COUNT) ==> p.is_none(),
    {
        if index < self.owned_count && index < TASK_STACK_PAGE_COUNT {
            Some(self.physical_pages[index])
        } else {
            None
        }
    }

    /// Whether an address lies inside the mapped stack range.
    pub fn contains(&self, address: u64) -> (b: bool)
        ensures
            b == (self.virtual_start <= address && address < self.virtual_end),
    {
        self.virtual_start <= address && address < self.virtual_end
    }
}

/// Failures from live task-stack mapping or reclamation.
#[derive(Clone, Copy, Debug, PartialEq, Eq, Structural)]
pub enum TaskStackError {
    Layout(TaskStackLayoutError),
    Physical,
    Paging(PagingError),
    CorruptMapping,
    RollbackFailed,
    AlreadyMapped,
}

/// Number of pages in one slot, and so of the checks that validation makes.
pub const TASK_STACK_SLOT_PAGES: usize = 32;

/// The page examined by validation step `k`: the sixteen stack pages in
/// order, then the lower guard, the upper guard and the padding pages up to
/// the slot's end.
pub open spec fn stack_check_address(l: TaskStackLayout, k: int) -> u64 {
    if k < TASK_STACK_PAGE_COUNT {
        (l.stack_start + k * PAGE_SIZE) as u64
    } else if k == TASK_STACK_PAGE_COUNT {
        l.lower_guard
    } else {
        (l.upper_guard + (k - TASK_STACK_PAGE_COUNT - 1) * PAGE_SIZE) as u64
    }
}

/// A stack leaf is the recorded frame, writable, not executable,
/// supervisor-only and cached write-back.
pub open spec fn stack_leaf_ok(t: Translation, frame: u64) -> bool {
    &&& t.physical_address & !0xfffu64 == frame
    &&& t.effective_writable
    &&& !t.effective_executable
    &&& !t.effective_user
    &&& !t.cache_disable
    &&& !t.write_through
}

/// A walk result that is a valid stack leaf for `frame`.
pub open spec fn is_stack_leaf(r: Result<Option<Translation>, PagingError>, frame: u64) -> bool {
    r matches Ok(Some(t)) && stack_leaf_ok(t, frame)
}

/// The failure found by validation step `k`, if any.
pub open spec fn stack_check(
    space: ActiveAddressSpace,
    m: TaskStackMapping,
    l: TaskStackLayout,
    k: int,
) -> Option<TaskStackError> {
    match space.translate_spec(stack_check_address(l, k)) {
        Err(e) => Some(TaskStackError::Paging(e)),
        Ok(t) => if k < TASK_STACK_PAGE_COUNT {
            match t {
                Some(t) => if stack_leaf_ok(t, m.physical_pages@[k]) {
                    None
                } else {
                    Some(TaskStackError::CorruptMapping)
                },
                None => Some(TaskStackError::CorruptMapping),
            }
        } else if t is Some {
            Some(TaskStackError::CorruptMapping)
        } else {
            None
        },
    }
}

/// The first failing step at or after `k`.
pub open spec fn first_stack_failure(
    space: ActiveAddressSpace,
    m: TaskStackMapping,
    l: TaskStackLayout,
    k: int,
) -> Option<TaskStackError>
    decreases TASK_STACK_SLOT_PAGES - k,
{
    if k >= TASK_STACK_SLOT_PAGES {
        None
    } else {
        match stack_check(space, m, l, k) {
            Some(e) => Some(e),
            None => first_stack_failure(space, m, l, k + 1),
        }
    }
}

/// What validating `m` against `space` gives.
pub open spec fn task_stack_validation(m: TaskStackMapping, space: ActiveAddressSpace) -> Result<
    (),
    TaskStackError,
> {
    if m.owned_count != TASK_STACK_PAGE_COUNT || m.mapped_count != TASK_STACK_PAGE_COUNT {
        Err(TaskStackError::CorruptMapping)
    } else if m.slot == 0 {
        Err(TaskStackError::Layout(TaskStackLayoutError::BootstrapHasNoMappedStack))
    } else if m.slot >= MAX_TASKS {
        Err(TaskStackError::Layout(TaskStackLayoutError::InvalidSlot))
    } else {
        match first_stack_failure(space, m, slot_layout(m.slot as int), 0) {
            None => Ok(()),
            Some(e) => Err(e),
        }
    }
}

/// Steps that all pass do not change where the first failure lies.
proof fn lemma_first_failure_skip(
    space: ActiveAddressSpace,
    m: TaskStackMapping,
    l: TaskStackLayout,
    k0: int,
    k: int,
)
    requires
        0 <= k0 <= k <= TASK_STACK_SLOT_PAGES,
        forall|j: int| k0 <= j < k ==> (#[trigger] stack_check(space, m, l, j)) is None,
    ensures
        first_stack_failure(space, m, l, k0) == first_stack_failure(space, m, l, k),
    decreases k - k0,
{
    if k0 < k {
        assert(stack_check(space, m, l, k0) is None);
        lemma_first_failure_skip(space, m, l, k0 + 1, k);
    }
}

/// Passing steps up to `k` mean every one of them passed.
proof fn lemma_no_failure_all_pass(
    space: ActiveAddressSpace,
    m: TaskStackMapping,
    l: TaskStackLayout,
    k0: int,
)
    requires
        0 <= k0 <= TASK_STACK_SLOT_PAGES,
        first_stack_failure(space, m, l, k0) is None,
    ensures
        forall|j: int| k0 <= j < TASK_STACK_SLOT_PAGES ==> (#[trigger] stack_check(space, m, l, j)) is None,
    decreases TASK_STACK_SLOT_PAGES - k0,
{
    if k0 < TASK_STACK_SLOT_PAGES {
        lemma_no_failure_all_pass(space, m, l, k0 + 1);
    }
}

/// Validates mappings, permissions, guards, and padding for a task stack.
pub fn validate_task_stack(mapping: &TaskStackMapping, address_space: &ActiveAddressSpace) -> (result:
    Result<(), TaskStackError>)
    requires
        address_space.wf(),
    ensures
        result == task_stack_validation(*mapping, *address_space),
        result is Ok ==> {
            let l = slot_layout(mapping.slot as int);
            &&& forall|k: int|
                0 <= k < TASK_STACK_PAGE_COUNT ==> is_stack_leaf(
                    #[trigger] address_space.translate_spec((l.stack_start + k * PAGE_SIZE) as u64),
                    mapping.physical_pages@[k],
                )
            &&& address_space.translate_spec(l.lower_guard) == Ok::<Option<Translation>, PagingError>(None)
            &&& address_space.translate_spec(l.upper_guard) == Ok::<Option<Translation>, PagingError>(None)
        },
{
    if mapping.owned_count != TASK_STACK_PAGE_COUNT || mapping.mapped_count != TASK_STACK_PAGE_COUNT {
        return Err(TaskStackError::CorruptMapping);
    }
    let layout = match TaskStackLayout::for_slot(mapping.slot()) {
        Ok(l) => l,
        Err(e) => return Err(TaskStackError::Layout(e)),
    };
    let ghost space = *address_space;
    let ghost m = *mapping;
    let mut k: usize = 0;
    while k < TASK_STACK_SLOT_PAGES
        invariant
            k <= TASK_STACK_SLOT_PAGES,
            address_space.wf(),
            space == *address_space,
            m == *mapping,
            0 < mapping.slot < MAX_TASKS,
            mapping.owned_count == TASK_STACK_PAGE_COUNT,
            mapping.mapped_count == TASK_STACK_PAGE_COUNT,
            layout == slot_layout(mapping.slot as int),
            forall|j: int| 0 <= j < k ==> (#[trigger] stack_check(space, m, layout, j)) is None,
        decreases TASK_STACK_SLOT_PAGES - k,
    {
        let address = if k < TASK_STACK_PAGE_COUNT {
            layout.stack_start + (k as u64) * PAGE_SIZE
        } else if k == TASK_STACK_PAGE_COUNT {
            layout.lower_guard
        } else {
            layout.upper_guard + ((k - TASK_STACK_PAGE_COUNT - 1) as u64) * PAGE_SIZE
        };
        assert(address == stack_check_address(layout, k as int));
        let failure = match address_space.translate(address) {
            Err(e) => Some(TaskStackError::Paging(e)),
            Ok(t) => if k < TASK_STACK_PAGE_COUNT {
                match t {
                    Some(t) => if t.physical_address & !0xfffu64 == mapping.physical_pages[k]
                        && t.effective_writable && !t.effective_executable && !t.effective_user
                        && !t.cache_disable && !t.write_through {
                        None
                    } else {
                        Some(TaskStackError::CorruptMapping)
                    },
                    None => Some(TaskStackError::CorruptMapping),
                }
            } else if t.is_some() {
                Some(TaskStackError::CorruptMapping)
            } else {
                None
            },
        };
        assert(failure == stack_check(space, m, layout, k as int));
        if let Some(e) = failure {
            proof {
                lemma_first_failure_skip(space, m, layout, 0, k as int);
                assert(first_stack_failure(space, m, layout, k as int) == Some(e));
            }
            return Err(e);
        }
        k += 1;
    }
    proof {
        lemma_first_failure_skip(space, m, layout, 0, TASK_STACK_SLOT_PAGES as int);
        let l = layout;
        assert forall|j: int| 0 <= j < TASK_STACK_PAGE_COUNT implies is_stack_leaf(
            #[trigger] address_space.translate_spec((l.stack_start + j * PAGE_SIZE) as u64),
            mapping.physical_pages@[j],
        ) by {
            assert(stack_check(space, m, l, j) is None);
        }
        assert(stack_check(space, m, l, TASK_STACK_PAGE_COUNT as int) is None);
        assert(stack_check(space, m, l, TASK_STACK_PAGE_COUNT as int + 1) is None);
    }
    Ok(())
}

/// Virtual address of stack page `j`.
pub open spec fn stack_page(l: TaskStackLayout, j: int) -> u64 {
    (l.stack_start + j * PAGE_SIZE) as u64
}

/// Whether `a` walks through the leaf slot of one of the first `k` stack pages.
pub open spec fn in_stack_slots(l: TaskStackLayout, a: u64, k: int) -> bool {
    exists|j: int| 0 <= j < k && same_slots(a, #[trigger] stack_page(l, j))
}

/// The translation a walk result establishes, if any.
pub open spec fn live_mapping(r: Result<Option<Translation>, PagingError>) -> Option<Translation> {
    match r {
        Ok(Some(t)) => Some(t),
        _ => None,
    }
}

/// Ownership metadata for `slot` that owns nothing.
pub open spec fn is_empty_mapping(m: TaskStackMapping, slot: u8) -> bool {
    &&& m.slot == slot
    &&& m.virtual_start == slot_layout(slot as int).stack_start
    &&& m.virtual_end == slot_layout(slot as int).stack_end
    &&& m.owned_count == 0
    &&& m.mapped_count == 0
    &&& forall|i: int| 0 <= i < TASK_STACK_PAGE_COUNT ==> #[trigger] m.physical_pages@[i] == 0
}

/// What a failed stack mapping keeps: every translation outside the first
/// `k` stack slots is the one of `orig`, and no walk through those slots
/// had a translation in `orig`.
pub open spec fn mapped_prefix_ok(
    l: TaskStackLayout,
    space: ActiveAddressSpace,
    orig: ActiveAddressSpace,
    k: int,
) -> bool {
    &&& forall|a: u64|
        !in_stack_slots(l, a, k) ==> #[trigger] space.translate_spec(a) == orig.translate_spec(a)
    &&& forall|a: u64, j: int|
        0 <= j < k && same_slots(a, #[trigger] stack_page(l, j)) ==> !(
        #[trigger] orig.translate_spec(a) matches Ok(Some(_)))
}

/// `after` is `before` with the stack slots of `l` newly mapped: no walk
/// through them had a translation before, and every other walk is unchanged.
pub open spec fn stack_mapped_from(l: TaskStackLayout, before: ActiveAddressSpace, after: ActiveAddressSpace) -> bool {
    &&& forall|a: u64|
        in_stack_slots(l, a, TASK_STACK_PAGE_COUNT as int) ==> !(
        #[trigger] before.translate_spec(a) matches Ok(Some(_)))
    &&& forall|a: u64|
        !in_stack_slots(l, a, TASK_STACK_PAGE_COUNT as int) ==> #[trigger] after.translate_spec(a)
            == before.translate_spec(a)
}

/// `after` is `before` with the stack slots of `l` unmapped and every other
/// walk unchanged.
pub open spec fn stack_reclaimed_from(l: TaskStackLayout, before: ActiveAddressSpace, after: ActiveAddressSpace) -> bool {
    &&& forall|a: u64|
        in_stack_slots(l, a, TASK_STACK_PAGE_COUNT as int) ==> !(
        #[trigger] after.translate_spec(a) matches Ok(Some(_)))
    &&& forall|a: u64|
        !in_stack_slots(l, a, TASK_STACK_PAGE_COUNT as int) ==> #[trigger] after.translate_spec(a)
            == before.translate_spec(a)
}

/// Reclaiming a stack that was mapped undoes the mapping: every
/// translation that existed before is back, and no other one remains.
pub proof fn lemma_reclaim_undoes_map(
    l: TaskStackLayout,
    before: ActiveAddressSpace,
    mapped: ActiveAddressSpace,
    after: ActiveAddressSpace,
)
    requires
        stack_mapped_from(l, before, mapped),
        stack_reclaimed_from(l, mapped, after),
    ensures
        forall|a: u64| #[trigger] live_mapping(after.translate_spec(a)) == live_mapping(before.translate_spec(a)),
{
    assert forall|a: u64| #[trigger] live_mapping(after.translate_spec(a)) == live_mapping(before.translate_spec(a)) by {
        if in_stack_slots(l, a, TASK_STACK_PAGE_COUNT as int) {
            assert(!(before.translate_spec(a) matches Ok(Some(_))));
            assert(!(after.translate_spec(a) matches Ok(Some(_))));
        } else {
            assert(mapped.translate_spec(a) == before.translate_spec(a));
        }
    }
}

/// The space keeps what page-table operations must not change.
pub open spec fn same_frame(space: ActiveAddressSpace, orig: ActiveAddressSpace) -> bool {
    &&& space.wf()
    &&& space.spec_root() == orig.spec_root()
    &&& space.spec_width() == orig.spec_width()
}

/// Page `j` of `pages` maps to frame `j` of `frames`, read/write and
/// no-execute, wherever both name what the tables accept.
pub open spec fn restored_leaf(
    space: ActiveAddressSpace,
    pages: Seq<VirtualPage>,
    frames: Seq<PhysicalFrame>,
    j: int,
) -> bool {
    page_result(pages[j].0.0) == Ok::<VirtualPage, PagingError>(pages[j]) && frame_result(
        frames[j].0.0,
        space.spec_width(),
    ) == Ok::<PhysicalFrame, PagingError>(frames[j]) ==> forall|a: u64|
        (a & !0xfffu64) == pages[j].0.0 ==> #[trigger] space.translate_spec(a) == Ok::<
            Option<Translation>,
            PagingError,
        >(Some(mapped_translation(frames[j].0.0, rw_nx(), a)))
}

/// Maps back the first `count` pages after a partial unmap, read/write
/// and no-execute; a page the tables already hold is a failed restore.
/// Distinct pages that are all unmapped, with frames the tables accept and
/// enough fresh pool pages, are all restored.
fn restore_unmapped(
    address_space: &mut ActiveAddressSpace,
    virtual_pages: &Vec<VirtualPage>,
    physical_frames: &Vec<PhysicalFrame>,
    count: usize,
) -> (result: Result<(), TaskStackError>)
    requires
        old(address_space).wf(),
        count <= virtual_pages@.len(),
        count <= physical_frames@.len(),
    ensures
        same_frame(*final(address_space), *old(address_space)),
        forall|a: u64|
            (forall|j: int| 0 <= j < count ==> !same_slots(a, #[trigger] virtual_pages@[j].0.0))
                ==> #[trigger] final(address_space).translate_spec(a) == old(address_space).translate_spec(a),
        forall|a: u64|
            (old(address_space).translate_spec(a) matches Ok(Some(_)))
                ==> #[trigger] final(address_space).translate_spec(a) == old(address_space).translate_spec(a),
        result is Ok ==> forall|j: int|
            0 <= j < count ==> #[trigger] restored_leaf(
                *final(address_space),
                virtual_pages@,
                physical_frames@,
                j,
            ),
        result matches Err(e) ==> e is Paging || e is RollbackFailed,
        (forall|i: int, j: int|
            0 <= i < count && 0 <= j < count && i != j ==> !same_slots(
                #[trigger] virtual_pages@[i].0.0,
                #[trigger] virtual_pages@[j].0.0,
            )) && (forall|j: int|
            0 <= j < count ==> #[trigger] old(address_space).translate_spec(virtual_pages@[j].0.0)
                == Ok::<Option<Translation>, PagingError>(None) && leaf_result(
                physical_frames@[j],
                rw_nx(),
            ) is Ok) && old(address_space).fresh_pool_pages(3 * count) ==> result is Ok,
{
    let ghost orig = *address_space;
    let ghost ready = (forall|i: int, j: int|
        0 <= i < count && 0 <= j < count && i != j ==> !same_slots(
            #[trigger] virtual_pages@[i].0.0,
            #[trigger] virtual_pages@[j].0.0,
        )) && (forall|j: int|
        0 <= j < count ==> #[trigger] orig.translate_spec(virtual_pages@[j].0.0) == Ok::<
            Option<Translation>,
            PagingError,
        >(None) && leaf_result(physical_frames@[j], rw_nx()) is Ok) && orig.fresh_pool_pages(
        3 * count,
    );
    let mut index: usize = 0;
    while index < count
        invariant
            count <= virtual_pages@.len(),
            count <= physical_frames@.len(),
            index <= count,
            same_frame(*address_space, orig),
            orig == *old(address_space),
            forall|a: u64|
                (forall|j: int| 0 <= j < count ==> !same_slots(a, #[trigger] virtual_pages@[j].0.0))
                    ==> #[trigger] address_space.translate_spec(a) == orig.translate_spec(a),
            forall|a: u64|
                (orig.translate_spec(a) matches Ok(Some(_))) ==> #[trigger] address_space.translate_spec(
                    a,
                ) == orig.translate_spec(a),
            forall|j: int|
                0 <= j < index ==> #[trigger] restored_leaf(
                    *address_space,
                    virtual_pages@,
                    physical_frames@,
                    j,
                ),
            ready == ((forall|i: int, j: int|
                0 <= i < count && 0 <= j < count && i != j ==> !same_slots(
                    #[trigger] virtual_pages@[i].0.0,
                    #[trigger] virtual_pages@[j].0.0,
                )) && (forall|j: int|
                0 <= j < count ==> #[trigger] orig.translate_spec(virtual_pages@[j].0.0) == Ok::<
                    Option<Translation>,
                    PagingError,
                >(None) && leaf_result(physical_frames@[j], rw_nx()) is Ok) && orig.fresh_pool_pages(
                3 * count,
            )),
            ready ==> address_space.fresh_pool_pages(3 * (count - index)),
            ready ==> forall|j: int|
                index <= j < count ==> #[trigger] address_space.translate_spec(virtual_pages@[j].0.0)
                    == orig.translate_spec(virtual_pages@[j].0.0),
        decreases count - index,
    {
        let ghost before = *address_space;
        let permissions = MappingPermissions::kernel_rw_nx();
        proof {
            if ready {
                assert(address_space.translate_spec(virtual_pages@[index as int].0.0) == orig.translate_spec(
                    virtual_pages@[index as int].0.0,
                ));
                assert(3 * (count - index) >= 3);
                assert(address_space.fresh_pool_pages(3 * (count - index)));
            }
        }
        let outcome = match address_space.map_page(
            virtual_pages[index],
            physical_frames[index],
            permissions,
        ) {
            Ok(o) => o,
            Err(e) => return Err(TaskStackError::Paging(e)),
        };
        if outcome != MapOutcome::Created {
            return Err(TaskStackError::RollbackFailed);
        }
        proof {
            let p = virtual_pages@[index as int].0.0;
            assert forall|a: u64|
                (forall|j: int| 0 <= j < count ==> !same_slots(a, #[trigger] virtual_pages@[j].0.0))
                    implies #[trigger] address_space.translate_spec(a) == orig.translate_spec(a) by {
                assert(!same_slots(a, virtual_pages@[index as int].0.0));
                assert(before.translate_spec(a) == orig.translate_spec(a));
            }
            assert forall|a: u64|
                (orig.translate_spec(a) matches Ok(Some(_))) implies #[trigger] address_space.translate_spec(
                    a,
                ) == orig.translate_spec(a) by {
                assert(before.translate_spec(a) == orig.translate_spec(a));
            }
            assert forall|j: int| 0 <= j < index + 1 implies #[trigger] restored_leaf(
                *address_space,
                virtual_pages@,
                physical_frames@,
                j,
            ) by {
                if j < index {
                    assert(restored_leaf(before, virtual_pages@, physical_frames@, j));
                    if page_result(virtual_pages@[j].0.0) == Ok::<VirtualPage, PagingError>(virtual_pages@[j])
                        && frame_result(physical_frames@[j].0.0, address_space.spec_width()) == Ok::<
                        PhysicalFrame,
                        PagingError,
                    >(physical_frames@[j]) {
                        assert forall|a: u64| (a & !0xfffu64) == virtual_pages@[j].0.0 implies #[trigger] address_space.translate_spec(
                            a,
                        ) == Ok::<Option<Translation>, PagingError>(
                            Some(mapped_translation(physical_frames@[j].0.0, rw_nx(), a)),
                        ) by {
                            assert(before.translate_spec(a) == Ok::<Option<Translation>, PagingError>(
                                Some(mapped_translation(physical_frames@[j].0.0, rw_nx(), a)),
                            ));
                        }
                    }
                }
            }
            if ready {
                assert forall|j: int| index + 1 <= j < count implies #[trigger] address_space.translate_spec(
                    virtual_pages@[j].0.0,
                ) == orig.translate_spec(virtual_pages@[j].0.0) by {
                    assert(!same_slots(virtual_pages@[j].0.0, p));
                    assert(before.translate_spec(virtual_pages@[j].0.0) == orig.translate_spec(
                        virtual_pages@[j].0.0,
                    ));
                }
                assert(3 * (count - (index + 1)) == 3 * (count - index) - 3);
            }
        }
        index += 1;
    }
    Ok(())
}

/// Leaf `j` of `m` names a page and a frame the tables accept.
pub open spec fn leaf_valid(m: TaskStackMapping, width: u8, j: int) -> bool {
    &&& m.virtual_start + j * PAGE_SIZE <= u64::MAX
    &&& page_result((m.virtual_start + j * PAGE_SIZE) as u64) is Ok
    &&& frame_result(m.physical_pages@[j], width) is Ok
}

/// Every leaf `m` records as mapped names a page and a frame the tables accept.
pub open spec fn leaves_valid(m: TaskStackMapping, width: u8) -> bool {
    forall|j: int| 0 <= j < m.mapped_count ==> #[trigger] leaf_valid(m, width, j)
}

/// The pages and frames of the leaves `mapping` records as mapped.
fn prevalidate_leaf_objects(mapping: &TaskStackMapping, width: u8) -> (result: Result<
    (Vec<VirtualPage>, Vec<PhysicalFrame>),
    TaskStackError,
>)
    requires
        mapping.mapped_count <= TASK_STACK_PAGE_COUNT,
    ensures
        result matches Ok((v, f)) ==> v@.len() == mapping.mapped_count && f@.len()
            == mapping.mapped_count && forall|j: int|
            0 <= j < mapping.mapped_count ==> (#[trigger] v@[j]).0.0 == mapping.virtual_start + j
                * PAGE_SIZE,
        leaves_valid(*mapping, width) ==> result is Ok,
{
    let count = mapping.mapped_count;
    let mut virtual_pages: Vec<VirtualPage> = Vec::new();
    let mut physical_frames: Vec<PhysicalFrame> = Vec::new();
    let mut index: usize = 0;
    while index < count
        invariant
            count == mapping.mapped_count,
            count <= TASK_STACK_PAGE_COUNT,
            index <= count,
            virtual_pages@.len() == index,
            physical_frames@.len() == index,
            forall|j: int|
                0 <= j < index ==> (#[trigger] virtual_pages@[j]).0.0 == mapping.virtual_start + j
                    * PAGE_SIZE,
        decreases count - index,
    {
        assert(leaves_valid(*mapping, width) ==> leaf_valid(*mapping, width, index as int));
        let address = match mapping.virtual_start.checked_add((index as u64) * PAGE_SIZE) {
            Some(a) => a,
            None => return Err(TaskStackError::Layout(TaskStackLayoutError::AddressOverflow)),
        };
        let page = match VirtualPage::new(address) {
            Ok(p) => p,
            Err(e) => return Err(TaskStackError::Paging(e)),
        };
        let frame = match PhysicalFrame::new(mapping.physical_pages[index], width) {
            Ok(f) => f,
            Err(e) => return Err(TaskStackError::Paging(e)),
        };
        virtual_pages.push(page);
        physical_frames.push(frame);
        index += 1;
    }
    Ok((virtual_pages, physical_frames))
}

/// Stack page `j` of `l` translates to frame `frame`, kernel read/write no-execute.
pub open spec fn leaf_mapped(space: ActiveAddressSpace, l: TaskStackLayout, j: int, frame: u64) -> bool {
    space.translate_spec(stack_page(l, j)) == Ok::<Option<Translation>, PagingError>(
        Some(mapped_translation(frame, rw_nx(), stack_page(l, j))),
    )
}

/// Undoes a partial stack mapping: unmaps every leaf the mapping records,
/// checks that each gave back its recorded frame, and empties the metadata.
/// Returns `original` once the page tables are back at their baseline.
fn rollback(
    mapping: &mut TaskStackMapping,
    address_space: &mut ActiveAddressSpace,
    mapped_baseline: u64,
    original: TaskStackError,
    Ghost(l): Ghost<TaskStackLayout>,
    Ghost(orig): Ghost<ActiveAddressSpace>,
) -> (result: Result<(), TaskStackError>)
    requires
        same_frame(*old(address_space), orig),
        0 < old(mapping).slot < MAX_TASKS,
        l == slot_layout(old(mapping).slot as int),
        old(mapping).mapped_count <= old(mapping).owned_count <= TASK_STACK_PAGE_COUNT,
        0 < old(mapping).owned_count,
        old(mapping).virtual_start == l.stack_start ==> mapped_prefix_ok(
            l,
            *old(address_space),
            orig,
            old(mapping).mapped_count as int,
        ),
        old(mapping).virtual_start == l.stack_start ==> forall|j: int|
            0 <= j < old(mapping).mapped_count ==> leaf_mapped(*old(address_space), l, j, #[trigger] old(mapping).physical_pages@[j])
                && frame_result(old(mapping).physical_pages@[j], old(address_space).spec_width()) is Ok,
        mapped_baseline + TASK_STACK_PAGE_COUNT <= u64::MAX ==> old(address_space).spec_mapped_pages()
            == mapped_baseline + old(mapping).mapped_count,
    ensures
        same_frame(*final(address_space), orig),
        result is Err,
        old(mapping).virtual_start == l.stack_start && mapped_baseline + TASK_STACK_PAGE_COUNT <= u64::MAX
            ==> final(mapping).owned_count == 0,
        final(mapping).owned_count == 0 ==> is_empty_mapping(*final(mapping), old(mapping).slot)
            && result == Err::<(), TaskStackError>(original),
        final(mapping).owned_count != 0 ==> *final(mapping) == *old(mapping),
        final(mapping).owned_count == 0 && old(mapping).virtual_start == l.stack_start ==> forall|
            a: u64,
        | #[trigger] live_mapping(final(address_space).translate_spec(a)) == live_mapping(
            orig.translate_spec(a),
        ),
{
    let empty = match TaskStackMapping::empty(mapping.slot()) {
        Ok(e) => e,
        Err(e) => return Err(TaskStackError::Layout(e)),
    };
    let count = mapping.mapped_count;
    let ghost aligned = mapping.virtual_start == l.stack_start;
    let ghost room = mapped_baseline + TASK_STACK_PAGE_COUNT <= u64::MAX;
    proof {
        if aligned {
            assert forall|j: int| 0 <= j < count implies #[trigger] leaf_valid(*mapping, address_space.spec_width(), j) by {
                lemma_stack_pages(mapping.slot as int, j, j);
                assert(frame_result(mapping.physical_pages@[j], address_space.spec_width()) is Ok);
            }
        }
    }
    let (virtual_pages, physical_frames) = match prevalidate_leaf_objects(mapping, address_space.width()) {
        Ok(v) => v,
        Err(e) => return Err(e),
    };
    let restored_mapped_count = match mapped_baseline.checked_add(count as u64) {
        Some(v) => v,
        None => return Err(TaskStackError::RollbackFailed),
    };
    let mut unmapped: usize = 0;
    while unmapped < count
        invariant
            count == mapping.mapped_count,
            count <= TASK_STACK_PAGE_COUNT,
            unmapped <= count,
            virtual_pages@.len() == count,
            physical_frames@.len() == count,
            forall|j: int|
                0 <= j < count ==> (#[trigger] virtual_pages@[j]).0.0 == mapping.virtual_start + j
                    * PAGE_SIZE,
            same_frame(*address_space, orig),
            *mapping == *old(mapping),
            0 < mapping.owned_count,
            aligned == (mapping.virtual_start == l.stack_start),
            aligned ==> forall|a: u64|
                !in_stack_slots(l, a, count as int) ==> #[trigger] address_space.translate_spec(a)
                    == orig.translate_spec(a),
            aligned ==> forall|a: u64, j: int|
                0 <= j < count && same_slots(a, #[trigger] stack_page(l, j)) ==> !(
                #[trigger] orig.translate_spec(a) matches Ok(Some(_))),
            aligned ==> forall|a: u64, j: int|
                0 <= j < unmapped && same_slots(a, #[trigger] stack_page(l, j)) ==> !(
                #[trigger] address_space.translate_spec(a) matches Ok(Some(_))),
            l == slot_layout(mapping.slot as int),
            0 < mapping.slot < MAX_TASKS,
            room == (mapped_baseline + TASK_STACK_PAGE_COUNT <= u64::MAX),
            room ==> address_space.spec_mapped_pages() == mapped_baseline + count - unmapped,
            aligned ==> forall|j: int|
                unmapped <= j < count ==> leaf_mapped(*address_space, l, j, #[trigger] mapping.physical_pages@[j]),
        decreases count - unmapped,
    {
        let ghost before = *address_space;
        proof {
            if aligned {
                let p = stack_page(l, unmapped as int);
                assert(leaf_mapped(*address_space, l, unmapped as int, mapping.physical_pages@[unmapped as int]));
                lemma_stack_pages(mapping.slot as int, unmapped as int, unmapped as int);
                lemma_leaf_frame(*address_space, p);
                lemma_slots_of_page(p);
                assert(virtual_pages@[unmapped as int].0.0 == p);
            }
        }
        let returned = match address_space.unmap_page(virtual_pages[unmapped]) {
            Ok(f) => f,
            Err(_) => {
                if restore_unmapped(address_space, &virtual_pages, &physical_frames, unmapped).is_err()
                    || address_space.mapped_pages() != restored_mapped_count {
                    return Err(TaskStackError::RollbackFailed);
                }
                return Err(original);
            },
        };
        if returned.address() != mapping.physical_pages[unmapped] {
            let restored_current = address_space.map_page(
                virtual_pages[unmapped],
                returned,
                MappingPermissions::kernel_rw_nx(),
            );
            let current_ok = match restored_current {
                Ok(MapOutcome::Created) => true,
                _ => false,
            };
            if !current_ok || restore_unmapped(
                address_space,
                &virtual_pages,
                &physical_frames,
                unmapped,
            ).is_err() || address_space.mapped_pages() != restored_mapped_count {
                return Err(TaskStackError::RollbackFailed);
            }
            return Err(TaskStackError::CorruptMapping);
        }
        proof {
            if aligned {
                let p = virtual_pages@[unmapped as int].0.0;
                assert(p == stack_page(l, unmapped as int));
                assert forall|a: u64| !in_stack_slots(l, a, count as int) implies #[trigger] address_space.translate_spec(a)
                    == orig.translate_spec(a) by {
                    if same_slots(a, p) {
                        assert(in_stack_slots(l, a, count as int));
                    }
                    assert(before.translate_spec(a) == orig.translate_spec(a));
                }
                assert forall|a: u64, j: int|
                    0 <= j < unmapped + 1 && same_slots(a, #[trigger] stack_page(l, j)) implies !(
                    #[trigger] address_space.translate_spec(a) matches Ok(Some(_))) by {
                    if !same_slots(a, p) {
                        assert(address_space.translate_spec(a) == before.translate_spec(a));
                    }
                }
                assert forall|j: int| unmapped + 1 <= j < count implies leaf_mapped(
                    *address_space,
                    l,
                    j,
                    #[trigger] mapping.physical_pages@[j],
                ) by {
                    lemma_stack_pages(mapping.slot as int, j, unmapped as int);
                    assert(leaf_mapped(before, l, j, mapping.physical_pages@[j]));
                    assert(address_space.translate_spec(stack_page(l, j)) == before.translate_spec(stack_page(l, j)));
                }
            }
        }
        unmapped += 1;
    }
    if address_space.mapped_pages() != mapped_baseline {
        if restore_unmapped(address_space, &virtual_pages, &physical_frames, count).is_err() {
            return Err(TaskStackError::RollbackFailed);
        }
        return Err(TaskStackError::RollbackFailed);
    }
    proof {
        if aligned {
            assert forall|a: u64| #[trigger] live_mapping(address_space.translate_spec(a))
                == live_mapping(orig.translate_spec(a)) by {
                if in_stack_slots(l, a, count as int) {
                    let j = choose|j: int| 0 <= j < count && same_slots(a, #[trigger] stack_page(l, j));
                    assert(!(orig.translate_spec(a) matches Ok(Some(_))));
                    assert(!(address_space.translate_spec(a) matches Ok(Some(_))));
                }
            }
        }
    }
    *mapping = empty;
    Err(original)
}

/// Maps one stack page to `frame`; only a freshly written leaf counts as success.
fn map_stack_page(address_space: &mut ActiveAddressSpace, address: u64, frame: u64) -> (result:
    Result<(), TaskStackError>)
    requires
        old(address_space).wf(),
    ensures
        same_frame(*final(address_space), *old(address_space)),
        result is Err ==> forall|a: u64|
            #[trigger] final(address_space).translate_spec(a) == old(address_space).translate_spec(a),
        result is Ok ==> forall|a: u64|
            !same_slots(a, address) ==> #[trigger] final(address_space).translate_spec(a) == old(
                address_space,
            ).translate_spec(a),
        result is Ok ==> forall|a: u64|
            same_slots(a, address) ==> !(#[trigger] old(address_space).translate_spec(a) matches Ok(
                Some(_),
            )),
        result is Ok ==> frame_result(frame, old(address_space).spec_width()) is Ok
            && final(address_space).translate_spec(address) == Ok::<Option<Translation>, PagingError>(
            Some(mapped_translation(frame, rw_nx(), address)),
        ),
        result is Ok && old(address_space).spec_mapped_pages() < u64::MAX ==> final(address_space).spec_mapped_pages()
            == old(address_space).spec_mapped_pages() + 1,
        result is Err ==> final(address_space).spec_mapped_pages() == old(address_space).spec_mapped_pages(),
        old(address_space).translate_spec(address) == Ok::<Option<Translation>, PagingError>(None)
            && page_result(address) is Ok && frame_result(frame, old(address_space).spec_width()) is Ok
            && old(address_space).fresh_pool_pages(3) ==> result is Ok,
        result is Ok ==> forall|n: int|
            3 <= n && #[trigger] old(address_space).fresh_pool_pages(n) ==> final(address_space).fresh_pool_pages(n - 3),
{
    let virtual_page = match VirtualPage::new(address) {
        Ok(page) => page,
        Err(error) => return Err(TaskStackError::Paging(error)),
    };
    let physical = match PhysicalFrame::new(frame, address_space.width()) {
        Ok(f) => f,
        Err(error) => return Err(TaskStackError::Paging(error)),
    };
    proof {
        lemma_slots_of_page(address);
    }
    match address_space.map_page(virtual_page, physical, MappingPermissions::kernel_rw_nx()) {
        Ok(MapOutcome::Created) => Ok(()),
        Ok(MapOutcome::AlreadyPresent) => Err(TaskStackError::AlreadyMapped),
        Err(error) => Err(TaskStackError::Paging(error)),
    }
}

/// Mapping stack page `k` with a fresh leaf extends what a failed mapping keeps.
proof fn lemma_extend_prefix(
    l: TaskStackLayout,
    before: ActiveAddressSpace,
    after: ActiveAddressSpace,
    orig: ActiveAddressSpace,
    k: int,
)
    requires
        0 <= k,
        mapped_prefix_ok(l, before, orig, k),
        forall|a: u64|
            !same_slots(a, stack_page(l, k)) ==> #[trigger] after.translate_spec(a)
                == before.translate_spec(a),
        forall|a: u64|
            same_slots(a, stack_page(l, k)) ==> !(#[trigger] before.translate_spec(a) matches Ok(
                Some(_),
            )),
    ensures
        mapped_prefix_ok(l, after, orig, k + 1),
{
    assert forall|a: u64| !in_stack_slots(l, a, k + 1) implies #[trigger] after.translate_spec(a)
        == orig.translate_spec(a) by {
        if same_slots(a, stack_page(l, k)) {
            assert(in_stack_slots(l, a, k + 1));
        }
        if in_stack_slots(l, a, k) {
            let w = choose|w: int| 0 <= w < k && same_slots(a, #[trigger] stack_page(l, w));
            assert(in_stack_slots(l, a, k + 1));
        }
    }
    assert forall|a: u64, j: int|
        0 <= j < k + 1 && same_slots(a, #[trigger] stack_page(l, j)) implies !(
        #[trigger] orig.translate_spec(a) matches Ok(Some(_))) by {
        if j == k {
            if !in_stack_slots(l, a, k) {
                assert(before.translate_spec(a) == orig.translate_spec(a));
            } else {
                let w = choose|w: int| 0 <= w < k && same_slots(a, #[trigger] stack_page(l, w));
                assert(!(orig.translate_spec(a) matches Ok(Some(_))));
            }
        }
    }
}

/// Every page of slot layout `l`, stack, guards and padding, is unmapped.
pub open spec fn slot_unmapped(space: ActiveAddressSpace, l: TaskStackLayout) -> bool {
    forall|k: int|
        0 <= k < TASK_STACK_SLOT_PAGES ==> #[trigger] space.translate_spec(stack_check_address(l, k))
            == Ok::<Option<Translation>, PagingError>(None)
}

/// What mapping a stack needs to succeed: its slot unmapped, frames the
/// tables accept, and enough fresh pool pages for three new tables per page.
pub open spec fn stack_mappable(space: ActiveAddressSpace, slot: int, frames: Seq<u64>) -> bool {
    &&& slot_unmapped(space, slot_layout(slot))
    &&& forall|j: int| 0 <= j < TASK_STACK_PAGE_COUNT ==> #[trigger] frame_result(frames[j], space.spec_width()) is Ok
    &&& space.fresh_pool_pages(3 * TASK_STACK_PAGE_COUNT)
}

/// Address `a` lies in none of the stack pages that `m` records.
pub open spec fn off_stack_pages(m: TaskStackMapping, a: u64) -> bool {
    forall|j: int|
        0 <= j < TASK_STACK_PAGE_COUNT ==> !same_slots(a, #[trigger] ((m.virtual_start + j * PAGE_SIZE) as u64))
}

/// What restoring a reclaimed stack needs: its slot unmapped, frames the
/// tables accept, and the leaf table of every stack page still in place.
pub open spec fn stack_restorable(space: ActiveAddressSpace, slot: int, frames: Seq<u64>) -> bool {
    &&& slot_unmapped(space, slot_layout(slot))
    &&& forall|j: int| 0 <= j < TASK_STACK_PAGE_COUNT ==> #[trigger] frame_result(frames[j], space.spec_width()) is Ok
    &&& forall|j: int|
        0 <= j < TASK_STACK_PAGE_COUNT ==> #[trigger] path_present(space, stack_page(slot_layout(slot), j))
}

/// The mapped-page count after `n` removals that stop at zero.
pub open spec fn count_after_removals(count: u64, n: int) -> u64 {
    if count >= n {
        (count - n) as u64
    } else {
        0
    }
}

/// The guard and padding pages of a slot are apart from its stack pages.
proof fn lemma_guards_apart(slot: int, k: int, j: int)
    requires
        0 < slot < MAX_TASKS,
        TASK_STACK_PAGE_COUNT <= k < TASK_STACK_SLOT_PAGES,
        0 <= j < TASK_STACK_PAGE_COUNT,
    ensures
        !same_slots(stack_check_address(slot_layout(slot), k), stack_page(slot_layout(slot), j)),
{
    lemma_pages_apart(stack_check_address(slot_layout(slot), k), stack_page(slot_layout(slot), j));
}

/// Maps the sixteen frames `frames` as the stack of `mapping`'s slot,
/// writable and not executable, and checks the result. On failure the page
/// tables are put back and the metadata emptied, so that the caller can
/// return the frames; when that cleanup itself fails the metadata keeps
/// ownership and the error says so.
pub fn map_task_stack(
    mapping: &mut TaskStackMapping,
    address_space: &mut ActiveAddressSpace,
    frames: &[u64; 16],
) -> (result: Result<(), TaskStackError>)
    requires
        old(address_space).wf(),
        old(mapping).mapped_count <= old(mapping).owned_count,
    ensures
        same_frame(*final(address_space), *old(address_space)),
        old(mapping).owned_count != 0 ==> result == Err::<(), TaskStackError>(
            TaskStackError::AlreadyMapped,
        ) && *final(mapping) == *old(mapping) && *final(address_space) == *old(address_space),
        old(mapping).owned_count == 0 && old(mapping).slot == 0 ==> result == Err::<
            (),
            TaskStackError,
        >(TaskStackError::Layout(TaskStackLayoutError::BootstrapHasNoMappedStack))
            && *final(mapping) == *old(mapping) && *final(address_space) == *old(address_space),
        old(mapping).owned_count == 0 && old(mapping).slot >= MAX_TASKS ==> result == Err::<
            (),
            TaskStackError,
        >(TaskStackError::Layout(TaskStackLayoutError::InvalidSlot)) && *final(mapping) == *old(
            mapping,
        ) && *final(address_space) == *old(address_space),
        result is Ok ==> {
            &&& final(mapping).slot == old(mapping).slot
            &&& final(mapping).virtual_start == old(mapping).virtual_start
            &&& final(mapping).virtual_end == old(mapping).virtual_end
            &&& final(mapping).physical_pages@ == frames@
            &&& task_stack_validation(*final(mapping), *final(address_space)) is Ok
            &&& stack_mapped_from(slot_layout(old(mapping).slot as int), *old(address_space), *final(address_space))
        },
        result is Err && final(mapping).owned_count == 0 && old(mapping).owned_count == 0 && 0 < old(
            mapping,
        ).slot < MAX_TASKS ==> is_empty_mapping(*final(mapping), old(mapping).slot),
        result is Err && old(mapping).owned_count == 0 && old(mapping).virtual_start == slot_layout(
            old(mapping).slot as int,
        ).stack_start && old(address_space).spec_mapped_pages() + TASK_STACK_PAGE_COUNT <= u64::MAX
            ==> final(mapping).owned_count == 0,
        old(mapping).owned_count == 0 && 0 < old(mapping).slot < MAX_TASKS && stack_mappable(
            *old(address_space),
            old(mapping).slot as int,
            frames@,
        ) ==> result is Ok,
        result is Err && final(mapping).owned_count == 0 && old(mapping).virtual_start == slot_layout(
            old(mapping).slot as int,
        ).stack_start ==> forall|a: u64|
            #[trigger] live_mapping(final(address_space).translate_spec(a)) == live_mapping(
                old(address_space).translate_spec(a),
            ),
{
    if !mapping.is_empty() {
        return Err(TaskStackError::AlreadyMapped);
    }
    let layout = match TaskStackLayout::for_slot(mapping.slot()) {
        Ok(l) => l,
        Err(e) => return Err(TaskStackError::Layout(e)),
    };
    let ghost orig = *address_space;
    let ghost start = *mapping;
    let ghost ready = stack_mappable(orig, mapping.slot as int, frames@);
    let mapped_baseline = address_space.mapped_pages();
    let mut index: usize = 0;
    while index < TASK_STACK_PAGE_COUNT
        invariant
            orig == *old(address_space),
            start == *old(mapping),
            start.owned_count == 0,
            same_frame(*address_space, orig),
            index <= TASK_STACK_PAGE_COUNT,
            0 < mapping.slot < MAX_TASKS,
            layout == slot_layout(mapping.slot as int),
            mapping.slot == start.slot,
            mapping.virtual_start == start.virtual_start,
            mapping.virtual_end == start.virtual_end,
            mapping.owned_count == index,
            mapping.mapped_count == index,
            forall|j: int| 0 <= j < index ==> mapping.physical_pages@[j] == frames@[j],
            mapped_prefix_ok(layout, *address_space, orig, index as int),
            orig.spec_mapped_pages() == mapped_baseline,
            mapped_baseline + TASK_STACK_PAGE_COUNT <= u64::MAX ==> address_space.spec_mapped_pages()
                == mapped_baseline + index,
            forall|j: int|
                0 <= j < index ==> leaf_mapped(*address_space, layout, j, #[trigger] mapping.physical_pages@[j])
                    && frame_result(mapping.physical_pages@[j], orig.spec_width()) is Ok,
            ready == stack_mappable(orig, mapping.slot as int, frames@),
            ready ==> address_space.fresh_pool_pages(3 * (TASK_STACK_PAGE_COUNT - index)),
        decreases TASK_STACK_PAGE_COUNT - index,
    {
        let frame_address = frames[index];
        mapping.physical_pages[index] = frame_address;
        mapping.owned_count += 1;
        let virtual_address = layout.stack_start + (index as u64) * PAGE_SIZE;
        assert(virtual_address == stack_page(layout, index as int));
        let ghost before = *address_space;
        proof {
            if ready {
                lemma_stack_pages(mapping.slot as int, index as int, index as int);
                assert(stack_check_address(layout, index as int) == virtual_address);
                assert(orig.translate_spec(stack_check_address(layout, index as int)) == Ok::<
                    Option<Translation>,
                    PagingError,
                >(None));
                if in_stack_slots(layout, virtual_address, index as int) {
                    let w = choose|w: int| 0 <= w < index && same_slots(virtual_address, #[trigger] stack_page(layout, w));
                    lemma_stack_pages(mapping.slot as int, index as int, w);
                }
                assert(address_space.translate_spec(virtual_address) == orig.translate_spec(virtual_address));
                assert(frame_result(frames@[index as int], orig.spec_width()) is Ok);
                assert(address_space.fresh_pool_pages(3));
            }
        }
        match map_stack_page(address_space, virtual_address, frame_address) {
            Ok(()) => {},
            Err(error) => {
                return rollback(
                    mapping,
                    address_space,
                    mapped_baseline,
                    error,
                    Ghost(layout),
                    Ghost(orig),
                );
            },
        }
        proof {
            if ready {
                assert(before.fresh_pool_pages(3 * (TASK_STACK_PAGE_COUNT - index)));
            }
            lemma_extend_prefix(layout, before, *address_space, orig, index as int);
            assert forall|j: int| 0 <= j < index + 1 implies leaf_mapped(
                *address_space,
                layout,
                j,
                #[trigger] mapping.physical_pages@[j],
            ) && frame_result(mapping.physical_pages@[j], orig.spec_width()) is Ok by {
                lemma_stack_pages(mapping.slot as int, j, index as int);
                if j < index {
                    assert(leaf_mapped(before, layout, j, mapping.physical_pages@[j]));
                    assert(address_space.translate_spec(stack_page(layout, j)) == before.translate_spec(
                        stack_page(layout, j),
                    ));
                }
            }
        }
        mapping.mapped_count += 1;
        index += 1;
    }
    assert(mapping.physical_pages@ =~= frames@);
    proof {
        assert forall|a: u64|
            in_stack_slots(layout, a, TASK_STACK_PAGE_COUNT as int) implies !(
            #[trigger] orig.translate_spec(a) matches Ok(Some(_))) by {
            let j = choose|j: int|
                0 <= j < TASK_STACK_PAGE_COUNT && same_slots(a, #[trigger] stack_page(layout, j));
        }
    }
    proof {
        if ready {
            let m = *mapping;
            assert forall|k: int| 0 <= k < TASK_STACK_SLOT_PAGES implies (#[trigger] stack_check(
                *address_space,
                m,
                layout,
                k,
            )) is None by {
                if k < TASK_STACK_PAGE_COUNT {
                    assert(leaf_mapped(*address_space, layout, k, m.physical_pages@[k]));
                    lemma_stack_pages(m.slot as int, k, k);
                    lemma_slots_of_page(stack_page(layout, k));
                    lemma_slots_of_page(m.physical_pages@[k]);
                } else {
                    let a = stack_check_address(layout, k);
                    if in_stack_slots(layout, a, TASK_STACK_PAGE_COUNT as int) {
                        let w = choose|w: int|
                            0 <= w < TASK_STACK_PAGE_COUNT && same_slots(a, #[trigger] stack_page(layout, w));
                        lemma_guards_apart(m.slot as int, k, w);
                    }
                    assert(address_space.translate_spec(a) == orig.translate_spec(a));
                }
            }
            lemma_first_failure_skip(*address_space, m, layout, 0, TASK_STACK_SLOT_PAGES as int);
        }
    }
    if validate_task_stack(mapping, address_space).is_err() {
        return rollback(
            mapping,
            address_space,
            mapped_baseline,
            TaskStackError::CorruptMapping,
            Ghost(layout),
            Ghost(orig),
        );
    }
    Ok(())
}

/// Stack pages of a task slot are aligned lower-half pages, each in its own
/// leaf slot.
proof fn lemma_stack_pages(slot: int, i: int, j: int)
    requires
        0 < slot < MAX_TASKS,
        0 <= i < TASK_STACK_PAGE_COUNT,
        0 <= j < TASK_STACK_PAGE_COUNT,
    ensures
        slot_layout(slot).stack_start + i * PAGE_SIZE <= u64::MAX,
        stack_page(slot_layout(slot), i) % PAGE_SIZE == 0,
        stack_page(slot_layout(slot), i) < 0x1_0000_0000_0000u64,
        canonical(stack_page(slot_layout(slot), i)),
        page_result(stack_page(slot_layout(slot), i)) == Ok::<VirtualPage, PagingError>(
            VirtualPage(VirtualAddress(stack_page(slot_layout(slot), i))),
        ),
        i != j ==> !same_slots(stack_page(slot_layout(slot), i), stack_page(slot_layout(slot), j)),
{
    lemma_low_half_canonical(stack_page(slot_layout(slot), i));
    if i != j {
        lemma_pages_apart(stack_page(slot_layout(slot), i), stack_page(slot_layout(slot), j));
    }
}

/// A validated stack at its slot's place has leaves the tables accept, and
/// each clears to its recorded frame.
proof fn lemma_validated_leaves(m: TaskStackMapping, space: ActiveAddressSpace)
    requires
        space.wf(),
        task_stack_validation(m, space) is Ok,
        m.virtual_start == slot_layout(m.slot as int).stack_start,
        forall|k: int|
            0 <= k < TASK_STACK_PAGE_COUNT ==> is_stack_leaf(
                #[trigger] space.translate_spec((slot_layout(m.slot as int).stack_start + k * PAGE_SIZE) as u64),
                m.physical_pages@[k],
            ),
    ensures
        leaves_valid(m, space.spec_width()),
        forall|k: int|
            0 <= k < TASK_STACK_PAGE_COUNT ==> space.clear_spec(#[trigger] stack_page(
                slot_layout(m.slot as int),
                k,
            )) == Ok::<u64, PagingError>(m.physical_pages@[k]),
{
    let l = slot_layout(m.slot as int);
    assert forall|k: int| 0 <= k < TASK_STACK_PAGE_COUNT implies leaf_valid(m, space.spec_width(), k)
        && space.clear_spec(#[trigger] stack_page(l, k)) == Ok::<u64, PagingError>(m.physical_pages@[k]) by {
        lemma_stack_pages(m.slot as int, k, k);
        let a = stack_page(l, k);
        assert(is_stack_leaf(space.translate_spec((l.stack_start + k * PAGE_SIZE) as u64), m.physical_pages@[k]));
        lemma_leaf_frame(space, a);
        let t = space.translate_spec(a)->Ok_0->Some_0;
        lemma_slots_of_page(t.physical_address);
    }
    assert forall|j: int| 0 <= j < m.mapped_count implies #[trigger] leaf_valid(m, space.spec_width(), j) by {
        assert(leaf_valid(m, space.spec_width(), j) && space.clear_spec(stack_page(l, j)) == Ok::<u64, PagingError>(m.physical_pages@[j]));
    }
}

/// Once every page of a validated stack is unmapped, with its upper
/// entries and every other walk kept, the stack can be mapped back.
proof fn lemma_reclaimed_restorable(m: TaskStackMapping, orig: ActiveAddressSpace, after: ActiveAddressSpace)
    requires
        orig.wf(),
        same_frame(after, orig),
        task_stack_validation(m, orig) is Ok,
        m.virtual_start == slot_layout(m.slot as int).stack_start,
        m.mapped_count == TASK_STACK_PAGE_COUNT,
        forall|k: int|
            0 <= k < TASK_STACK_PAGE_COUNT ==> is_stack_leaf(
                #[trigger] orig.translate_spec((slot_layout(m.slot as int).stack_start + k * PAGE_SIZE) as u64),
                m.physical_pages@[k],
            ),
        orig.upper_entries_kept(after),
        forall|a: u64|
            !in_stack_slots(slot_layout(m.slot as int), a, TASK_STACK_PAGE_COUNT as int)
                ==> #[trigger] after.translate_spec(a) == orig.translate_spec(a),
        forall|j: int|
            0 <= j < TASK_STACK_PAGE_COUNT ==> #[trigger] after.translate_spec(stack_page(slot_layout(m.slot as int), j))
                == Ok::<Option<Translation>, PagingError>(None),
    ensures
        stack_restorable(after, m.slot as int, m.physical_pages@),
{
    let l = slot_layout(m.slot as int);
    lemma_validated_leaves(m, orig);
    lemma_no_failure_all_pass(orig, m, l, 0);
    assert forall|k: int| 0 <= k < TASK_STACK_SLOT_PAGES implies #[trigger] after.translate_spec(
        stack_check_address(l, k),
    ) == Ok::<Option<Translation>, PagingError>(None) by {
        if k < TASK_STACK_PAGE_COUNT {
            assert(stack_check_address(l, k) == stack_page(l, k));
        } else {
            let a = stack_check_address(l, k);
            assert forall|j: int| 0 <= j < TASK_STACK_PAGE_COUNT implies !same_slots(a, #[trigger] stack_page(l, j)) by {
                lemma_guards_apart(m.slot as int, k, j);
            }
            assert(!in_stack_slots(l, a, TASK_STACK_PAGE_COUNT as int));
            assert(stack_check(orig, m, l, k) is None);
        }
    }
    assert forall|j: int| 0 <= j < TASK_STACK_PAGE_COUNT implies #[trigger] frame_result(
        m.physical_pages@[j],
        after.spec_width(),
    ) is Ok by {
        assert(leaf_valid(m, orig.spec_width(), j));
    }
    assert forall|j: int| 0 <= j < TASK_STACK_PAGE_COUNT implies #[trigger] path_present(after, stack_page(l, j)) by {
        assert(is_stack_leaf(orig.translate_spec((l.stack_start + j * PAGE_SIZE) as u64), m.physical_pages@[j]));
        lemma_live_path_present(orig, stack_page(l, j));
        lemma_path_kept(orig, after, stack_page(l, j));
    }
}

/// Reclaim then restore: what a successful reclaim of a validated stack at
/// its slot's place promises of the space it leaves (the stack restorable,
/// sixteen fewer mapped pages) is what restoring that stack with the
/// mapped-page count from before the reclaim needs to succeed.
pub proof fn lemma_reclaim_then_restore(m: TaskStackMapping, before: ActiveAddressSpace, after: ActiveAddressSpace)
    requires
        task_stack_validation(m, before) is Ok,
        m.virtual_start == slot_layout(m.slot as int).stack_start,
        before.spec_mapped_pages() >= TASK_STACK_PAGE_COUNT,
        after.spec_mapped_pages() == count_after_removals(
            before.spec_mapped_pages(),
            TASK_STACK_PAGE_COUNT as int,
        ),
        stack_restorable(after, m.slot as int, m.physical_pages@),
    ensures
        m.owned_count == TASK_STACK_PAGE_COUNT,
        m.mapped_count == TASK_STACK_PAGE_COUNT,
        0 < m.slot < MAX_TASKS,
        before.spec_mapped_pages() == after.spec_mapped_pages() + TASK_STACK_PAGE_COUNT,
{
}

/// Unmaps every leaf of an exited task's stack after validating it, and
/// empties the metadata so that the caller can return the frames. A failed
/// unmap puts the earlier leaves back and leaves the metadata as it was.
#[verifier::rlimit(50)]
pub fn reclaim_task_stack(mapping: &mut TaskStackMapping, address_space: &mut ActiveAddressSpace) -> (result:
    Result<(), TaskStackError>)
    requires
        old(address_space).wf(),
    ensures
        same_frame(*final(address_space), *old(address_space)),
        task_stack_validation(*old(mapping), *old(address_space)) matches Err(e) ==> result == Err::<
            (),
            TaskStackError,
        >(e) && *final(mapping) == *old(mapping) && *final(address_space) == *old(address_space),
        result is Err ==> *final(mapping) == *old(mapping),
        result is Ok ==> is_empty_mapping(*final(mapping), old(mapping).slot),
        result is Ok && old(mapping).virtual_start == slot_layout(old(mapping).slot as int).stack_start
            ==> stack_reclaimed_from(slot_layout(old(mapping).slot as int), *old(address_space), *final(address_space)),
        task_stack_validation(*old(mapping), *old(address_space)) is Ok && old(mapping).virtual_start
            == slot_layout(old(mapping).slot as int).stack_start ==> result is Ok,
        result is Ok ==> final(address_space).spec_mapped_pages() == count_after_removals(
            old(address_space).spec_mapped_pages(),
            TASK_STACK_PAGE_COUNT as int,
        ),
        result matches Err(e) && e != TaskStackError::RollbackFailed
            ==> final(address_space).spec_mapped_pages() == old(address_space).spec_mapped_pages(),
        result is Ok && old(mapping).virtual_start == slot_layout(old(mapping).slot as int).stack_start
            ==> stack_restorable(*final(address_space), old(mapping).slot as int, old(mapping).physical_pages@),
        forall|a: u64|
            off_stack_pages(*old(mapping), a) ==> #[trigger] final(address_space).translate_spec(a)
                == old(address_space).translate_spec(a),
{
    match validate_task_stack(mapping, address_space) {
        Ok(()) => {},
        Err(e) => return Err(e),
    }
    let empty = match TaskStackMapping::empty(mapping.slot()) {
        Ok(e) => e,
        Err(e) => return Err(TaskStackError::Layout(e)),
    };
    let ghost l = slot_layout(mapping.slot as int);
    let ghost orig = *address_space;
    proof {
        if mapping.virtual_start == l.stack_start {
            lemma_validated_leaves(*mapping, *address_space);
        }
    }
    let mapped_baseline = address_space.mapped_pages();
    let (virtual_pages, physical_frames) = match prevalidate_leaf_objects(mapping, address_space.width()) {
        Ok(v) => v,
        Err(e) => return Err(e),
    };
    let count = mapping.mapped_count;
    let ghost aligned = mapping.virtual_start == l.stack_start;
    proof {
        lemma_kept_refl(orig);
        assert forall|a: u64, j: int|
            #![trigger same_slots(a, virtual_pages@[j].0.0)]
            off_stack_pages(*mapping, a) && 0 <= j < count implies !same_slots(a, virtual_pages@[j].0.0) by {
            assert(virtual_pages@[j].0.0 == ((mapping.virtual_start + j * PAGE_SIZE) as u64));
        }
    }
    let mut unmapped: usize = 0;
    while unmapped < count
        invariant
            count == mapping.mapped_count,
            count == TASK_STACK_PAGE_COUNT,
            unmapped <= count,
            virtual_pages@.len() == count,
            physical_frames@.len() == count,
            forall|j: int|
                0 <= j < count ==> (#[trigger] virtual_pages@[j]).0.0 == mapping.virtual_start + j
                    * PAGE_SIZE,
            same_frame(*address_space, orig),
            orig == *old(address_space),
            *mapping == *old(mapping),
            l == slot_layout(mapping.slot as int),
            task_stack_validation(*mapping, orig) is Ok,
            aligned == (mapping.virtual_start == l.stack_start),
            aligned ==> forall|a: u64|
                !in_stack_slots(l, a, count as int) ==> #[trigger] address_space.translate_spec(a)
                    == orig.translate_spec(a),
            aligned ==> forall|a: u64, j: int|
                0 <= j < unmapped && same_slots(a, #[trigger] stack_page(l, j)) ==> !(
                #[trigger] address_space.translate_spec(a) matches Ok(Some(_))),
            aligned ==> forall|j: int|
                unmapped <= j < count ==> #[trigger] address_space.translate_spec(stack_page(l, j))
                    == orig.translate_spec(stack_page(l, j)),
            aligned ==> forall|k: int|
                0 <= k < TASK_STACK_PAGE_COUNT ==> is_stack_leaf(
                    #[trigger] orig.translate_spec((l.stack_start + k * PAGE_SIZE) as u64),
                    mapping.physical_pages@[k],
                ),
            mapped_baseline == orig.spec_mapped_pages(),
            address_space.spec_mapped_pages() == count_after_removals(orig.spec_mapped_pages(), unmapped as int),
            aligned ==> orig.upper_entries_kept(*address_space),
            aligned ==> forall|j: int|
                0 <= j < unmapped ==> #[trigger] address_space.translate_spec(stack_page(l, j))
                    == Ok::<Option<Translation>, PagingError>(None),
            forall|a: u64|
                off_stack_pages(*mapping, a) ==> #[trigger] address_space.translate_spec(a)
                    == orig.translate_spec(a),
            forall|a: u64, j: int|
                #![trigger same_slots(a, virtual_pages@[j].0.0)]
                off_stack_pages(*mapping, a) && 0 <= j < count ==> !same_slots(a, virtual_pages@[j].0.0),
        decreases count - unmapped,
    {
        let ghost before = *address_space;
        proof {
            if aligned {
                let p = stack_page(l, unmapped as int);
                assert(address_space.translate_spec(p) == orig.translate_spec(p));
                assert(is_stack_leaf(
                    orig.translate_spec((l.stack_start + unmapped * PAGE_SIZE) as u64),
                    mapping.physical_pages@[unmapped as int],
                ));
                lemma_stack_pages(mapping.slot as int, unmapped as int, unmapped as int);
                lemma_leaf_frame(*address_space, p);
                lemma_slots_of_page(address_space.translate_spec(p)->Ok_0->Some_0.physical_address);
                assert(virtual_pages@[unmapped as int].0.0 == p);
            }
        }
        let returned = match address_space.unmap_page(virtual_pages[unmapped]) {
            Ok(f) => f,
            Err(error) => {
                if restore_unmapped(address_space, &virtual_pages, &physical_frames, unmapped).is_err()
                    || address_space.mapped_pages() != mapped_baseline {
                    return Err(TaskStackError::RollbackFailed);
                }
                return Err(TaskStackError::Paging(error));
            },
        };
        if returned.address() != mapping.physical_pages[unmapped] {
            let restored_current = address_space.map_page(
                virtual_pages[unmapped],
                returned,
                MappingPermissions::kernel_rw_nx(),
            );
            let current_ok = match restored_current {
                Ok(MapOutcome::Created) => true,
                _ => false,
            };
            if !current_ok || restore_unmapped(
                address_space,
                &virtual_pages,
                &physical_frames,
                unmapped,
            ).is_err() || address_space.mapped_pages() != mapped_baseline {
                return Err(TaskStackError::RollbackFailed);
            }
            return Err(TaskStackError::CorruptMapping);
        }
        proof {
            assert forall|a: u64| off_stack_pages(*mapping, a) implies #[trigger] address_space.translate_spec(a)
                == orig.translate_spec(a) by {
                assert(!same_slots(a, virtual_pages@[unmapped as int].0.0));
                assert(before.translate_spec(a) == orig.translate_spec(a));
            }
            if aligned {
                let p = virtual_pages@[unmapped as int].0.0;
                assert(p == stack_page(l, unmapped as int));
                assert forall|a: u64| !in_stack_slots(l, a, count as int) implies #[trigger] address_space.translate_spec(a)
                    == orig.translate_spec(a) by {
                    if same_slots(a, p) {
                        assert(in_stack_slots(l, a, count as int));
                    }
                    assert(before.translate_spec(a) == orig.translate_spec(a));
                }
                assert forall|a: u64, j: int|
                    0 <= j < unmapped + 1 && same_slots(a, #[trigger] stack_page(l, j)) implies !(
                    #[trigger] address_space.translate_spec(a) matches Ok(Some(_))) by {
                    if !same_slots(a, p) {
                        assert(address_space.translate_spec(a) == before.translate_spec(a));
                    }
                }
                assert forall|j: int| unmapped + 1 <= j < count implies #[trigger] address_space.translate_spec(
                    stack_page(l, j),
                ) == orig.translate_spec(stack_page(l, j)) by {
                    lemma_stack_pages(mapping.slot as int, j, unmapped as int);
                    assert(address_space.translate_spec(stack_page(l, j)) == before.translate_spec(stack_page(l, j)));
                }
                lemma_kept_trans(orig, before, *address_space);
                lemma_stack_pages(mapping.slot as int, unmapped as int, unmapped as int);
                lemma_slots_of_page(p);
                assert(address_space.translate_spec(p) == Ok::<Option<Translation>, PagingError>(None));
                assert forall|j: int| 0 <= j < unmapped + 1 implies #[trigger] address_space.translate_spec(
                    stack_page(l, j),
                ) == Ok::<Option<Translation>, PagingError>(None) by {
                    if j < unmapped {
                        lemma_stack_pages(mapping.slot as int, j, unmapped as int);
                        assert(address_space.translate_spec(stack_page(l, j)) == before.translate_spec(stack_page(l, j)));
                    }
                }
            }
        }
        unmapped += 1;
    }
    proof {
        if aligned {
            assert forall|a: u64|
                in_stack_slots(l, a, TASK_STACK_PAGE_COUNT as int) implies !(
                #[trigger] address_space.translate_spec(a) matches Ok(Some(_))) by {
                let j = choose|j: int|
                    0 <= j < TASK_STACK_PAGE_COUNT && same_slots(a, #[trigger] stack_page(l, j));
            }
            lemma_reclaimed_restorable(*mapping, orig, *address_space);
        }
    }
    *mapping = empty;
    Ok(())
}

/// The slot whose stack would start at `start`.
pub open spec fn stack_slot_at(start: u64) -> int {
    (start - TASK_STACK_REGION_BASE - PAGE_SIZE) / (TASK_STACK_SLOT_STRIDE as int)
}

/// Whether `start` is where the stack of a task slot begins.
pub open spec fn is_slot_stack_start(start: u64) -> bool {
    &&& 0 < stack_slot_at(start) < MAX_TASKS
    &&& slot_layout(stack_slot_at(start)).stack_start == start
}

/// Unmaps pages `count - 1` down to `0` of a stack starting at `start`;
/// whether every unmap succeeded. For a slot's stack, the walk never
/// overflows, no translation outside those pages changes, every page that
/// was mapped is unmapped, and `true` means none of them is mapped any more.
fn unmap_in_reverse(address_space: &mut ActiveAddressSpace, start: u64, count: usize) -> (result:
    Result<bool, TaskStackError>)
    requires
        old(address_space).wf(),
        count <= TASK_STACK_PAGE_COUNT,
    ensures
        same_frame(*final(address_space), *old(address_space)),
        is_slot_stack_start(start) ==> {
            let l = slot_layout(stack_slot_at(start));
            &&& result is Ok
            &&& forall|a: u64|
                !in_stack_slots(l, a, count as int) ==> #[trigger] final(address_space).translate_spec(a)
                    == old(address_space).translate_spec(a)
            &&& result == Ok::<bool, TaskStackError>(true) ==> forall|a: u64|
                in_stack_slots(l, a, count as int) ==> !(#[trigger] final(address_space).translate_spec(a) matches Ok(
                    Some(_),
                ))
            &&& (forall|j: int|
                0 <= j < count ==> #[trigger] old(address_space).translate_spec(stack_page(l, j)) matches Ok(
                    Some(_),
                )) ==> result == Ok::<bool, TaskStackError>(true)
        },
{
    let ghost aligned = is_slot_stack_start(start);
    let ghost slot = stack_slot_at(start);
    let ghost l = slot_layout(slot);
    let ghost orig = *address_space;
    let ghost mapped_all = forall|j: int|
        0 <= j < count ==> #[trigger] orig.translate_spec(stack_page(l, j)) matches Ok(Some(_));
    let mut all_ok = true;
    let mut index = count;
    while index > 0
        invariant
            index <= count <= TASK_STACK_PAGE_COUNT,
            same_frame(*address_space, orig),
            orig == *old(address_space),
            aligned == is_slot_stack_start(start),
            slot == stack_slot_at(start),
            l == slot_layout(slot),
            mapped_all == (forall|j: int|
                0 <= j < count ==> #[trigger] orig.translate_spec(stack_page(l, j)) matches Ok(Some(_))),
            aligned ==> forall|a: u64|
                !in_stack_slots(l, a, count as int) ==> #[trigger] address_space.translate_spec(a)
                    == orig.translate_spec(a),
            aligned ==> forall|j: int|
                0 <= j < index ==> #[trigger] address_space.translate_spec(stack_page(l, j))
                    == orig.translate_spec(stack_page(l, j)),
            aligned && all_ok ==> forall|a: u64, j: int|
                index <= j < count && same_slots(a, #[trigger] stack_page(l, j)) ==> !(
                #[trigger] address_space.translate_spec(a) matches Ok(Some(_))),
            aligned && mapped_all ==> all_ok,
        decreases index,
    {
        index -= 1;
        proof {
            if aligned {
                lemma_stack_pages(slot, index as int, index as int);
            }
        }
        let address = match start.checked_add((index as u64) * PAGE_SIZE) {
            Some(a) => a,
            None => return Err(TaskStackError::Layout(TaskStackLayoutError::AddressOverflow)),
        };
        let page = match VirtualPage::new(address) {
            Ok(p) => p,
            Err(e) => return Err(TaskStackError::Paging(e)),
        };
        let ghost before = *address_space;
        proof {
            if aligned {
                assert(address == stack_page(l, index as int));
                if mapped_all {
                    assert(orig.translate_spec(stack_page(l, index as int)) matches Ok(Some(_)));
                    lemma_leaf_frame(*address_space, address);
                }
            }
        }
        let unmapped = address_space.unmap_page(page);
        proof {
            if aligned {
                let p = stack_page(l, index as int);
                assert forall|a: u64| !in_stack_slots(l, a, count as int) implies #[trigger] address_space.translate_spec(a)
                    == orig.translate_spec(a) by {
                    if same_slots(a, p) {
                        assert(in_stack_slots(l, a, count as int));
                    }
                    assert(before.translate_spec(a) == orig.translate_spec(a));
                }
                assert forall|j: int| 0 <= j < index implies #[trigger] address_space.translate_spec(
                    stack_page(l, j),
                ) == orig.translate_spec(stack_page(l, j)) by {
                    lemma_stack_pages(slot, j, index as int);
                    assert(address_space.translate_spec(stack_page(l, j)) == before.translate_spec(
                        stack_page(l, j),
                    ));
                }
                if all_ok && unmapped is Ok {
                    assert forall|a: u64, j: int|
                        index <= j < count && same_slots(a, #[trigger] stack_page(l, j)) implies !(
                        #[trigger] address_space.translate_spec(a) matches Ok(Some(_))) by {
                        if !same_slots(a, p) {
                            assert(address_space.translate_spec(a) == before.translate_spec(a));
                        }
                    }
                }
            }
        }
        all_ok = unmapped.is_ok() && all_ok;
    }
    proof {
        if aligned && all_ok {
            assert forall|a: u64|
                in_stack_slots(l, a, count as int) implies !(
                #[trigger] address_space.translate_spec(a) matches Ok(Some(_))) by {
                let j = choose|j: int| 0 <= j < count && same_slots(a, #[trigger] stack_page(l, j));
            }
        }
    }
    Ok(all_ok)
}

/// Maps a reclaimed stack back from its retained metadata and checks it;
/// `mapped_baseline` is the leaf count from before the reclaim. A failed
/// remap unmaps what it mapped again.
pub fn restore_task_stack(
    original: &TaskStackMapping,
    address_space: &mut ActiveAddressSpace,
    mapped_baseline: u64,
) -> (result: Result<(), TaskStackError>)
    requires
        old(address_space).wf(),
    ensures
        same_frame(*final(address_space), *old(address_space)),
        (original.owned_count != TASK_STACK_PAGE_COUNT || original.mapped_count
            != TASK_STACK_PAGE_COUNT) ==> result == Err::<(), TaskStackError>(
            TaskStackError::CorruptMapping,
        ) && *final(address_space) == *old(address_space),
        result is Ok ==> task_stack_validation(*original, *final(address_space)) is Ok,
        result is Ok && original.virtual_start == slot_layout(original.slot as int).stack_start
            ==> stack_mapped_from(slot_layout(original.slot as int), *old(address_space), *final(address_space)),
        original.owned_count == TASK_STACK_PAGE_COUNT && original.mapped_count == TASK_STACK_PAGE_COUNT
            && 0 < original.slot < MAX_TASKS && original.virtual_start == slot_layout(
            original.slot as int,
        ).stack_start && stack_mappable(*old(address_space), original.slot as int, original.physical_pages@)
            && mapped_baseline == old(address_space).spec_mapped_pages() + TASK_STACK_PAGE_COUNT ==> result is Ok,
        original.owned_count == TASK_STACK_PAGE_COUNT && original.mapped_count == TASK_STACK_PAGE_COUNT
            && 0 < original.slot < MAX_TASKS && original.virtual_start == slot_layout(
            original.slot as int,
        ).stack_start && stack_restorable(*old(address_space), original.slot as int, original.physical_pages@)
            && mapped_baseline == old(address_space).spec_mapped_pages() + TASK_STACK_PAGE_COUNT ==> result is Ok,
        result is Ok ==> final(address_space).spec_mapped_pages() == mapped_baseline,
{
    if original.owned_count != TASK_STACK_PAGE_COUNT || original.mapped_count != TASK_STACK_PAGE_COUNT {
        return Err(TaskStackError::CorruptMapping);
    }
    let ghost orig = *address_space;
    let ghost l = slot_layout(original.slot as int);
    let ghost aligned = original.virtual_start == l.stack_start;
    let ghost mappable = stack_mappable(orig, original.slot as int, original.physical_pages@);
    let ghost restorable = stack_restorable(orig, original.slot as int, original.physical_pages@);
    let ghost ready = 0 < original.slot < MAX_TASKS && aligned && (mappable || restorable)
        && mapped_baseline == orig.spec_mapped_pages() + TASK_STACK_PAGE_COUNT;
    proof {
        lemma_kept_refl(orig);
    }
    let mut mapped: usize = 0;
    let mut index: usize = 0;
    while index < TASK_STACK_PAGE_COUNT
        invariant
            index <= TASK_STACK_PAGE_COUNT,
            mapped == index,
            same_frame(*address_space, orig),
            orig == *old(address_space),
            original.owned_count == TASK_STACK_PAGE_COUNT,
            original.mapped_count == TASK_STACK_PAGE_COUNT,
            aligned == (original.virtual_start == l.stack_start),
            aligned ==> mapped_prefix_ok(l, *address_space, orig, index as int),
            mappable == stack_mappable(orig, original.slot as int, original.physical_pages@),
            restorable == stack_restorable(orig, original.slot as int, original.physical_pages@),
            ready == (0 < original.slot < MAX_TASKS && aligned && (mappable || restorable)
                && mapped_baseline == orig.spec_mapped_pages() + TASK_STACK_PAGE_COUNT),
            l == slot_layout(original.slot as int),
            ready && mappable ==> address_space.fresh_pool_pages(3 * (TASK_STACK_PAGE_COUNT - index)),
            orig.upper_entries_kept(*address_space),
            orig.wf(),
            ready ==> address_space.spec_mapped_pages() == orig.spec_mapped_pages() + index,
            ready ==> forall|j: int|
                0 <= j < index ==> leaf_mapped(*address_space, l, j, #[trigger] original.physical_pages@[j]),
        decreases TASK_STACK_PAGE_COUNT - index,
    {
        proof {
            if ready {
                lemma_stack_pages(original.slot as int, index as int, index as int);
                let va = stack_page(l, index as int);
                assert(stack_check_address(l, index as int) == va);
                assert(orig.translate_spec(stack_check_address(l, index as int)) == Ok::<
                    Option<Translation>,
                    PagingError,
                >(None));
                if in_stack_slots(l, va, index as int) {
                    let w = choose|w: int| 0 <= w < index && same_slots(va, #[trigger] stack_page(l, w));
                    lemma_stack_pages(original.slot as int, index as int, w);
                }
                assert(address_space.translate_spec(va) == orig.translate_spec(va));
                assert(frame_result(original.physical_pages@[index as int], orig.spec_width()) is Ok);
                if mappable {
                    assert(address_space.fresh_pool_pages(3));
                } else {
                    assert(path_present(orig, stack_page(l, index as int)));
                    lemma_path_kept(orig, *address_space, va);
                }
                lemma_slots_of_page(va);
            }
        }
        let address = match original.virtual_start.checked_add((index as u64) * PAGE_SIZE) {
            Some(a) => a,
            None => return Err(TaskStackError::Layout(TaskStackLayoutError::AddressOverflow)),
        };
        let virtual_page = match VirtualPage::new(address) {
            Ok(p) => p,
            Err(e) => return Err(TaskStackError::Paging(e)),
        };
        let physical_frame = match PhysicalFrame::new(original.physical_pages[index], address_space.width()) {
            Ok(f) => f,
            Err(e) => return Err(TaskStackError::Paging(e)),
        };
        let ghost before = *address_space;
        let map_error = match address_space.map_page(
            virtual_page,
            physical_frame,
            MappingPermissions::kernel_rw_nx(),
        ) {
            Ok(MapOutcome::Created) => None,
            Ok(MapOutcome::AlreadyPresent) => Some(PagingError::AlreadyMapped),
            Err(error) => Some(error),
        };
        if let Some(map_error) = map_error {
            let rollback_ok = match unmap_in_reverse(address_space, original.virtual_start, mapped) {
                Ok(b) => b,
                Err(e) => return Err(e),
            };
            let reclaimed_baseline = match mapped_baseline.checked_sub(TASK_STACK_PAGE_COUNT as u64) {
                Some(v) => v,
                None => return Err(TaskStackError::RollbackFailed),
            };
            if !rollback_ok || address_space.mapped_pages() != reclaimed_baseline {
                return Err(TaskStackError::RollbackFailed);
            }
            return Err(TaskStackError::Paging(map_error));
        }
        proof {
            if aligned {
                assert(address == stack_page(l, index as int));
                lemma_extend_prefix(l, before, *address_space, orig, index as int);
            }
            lemma_kept_trans(orig, before, *address_space);
            if ready {
                if mappable {
                    assert(before.fresh_pool_pages(3 * (TASK_STACK_PAGE_COUNT - index)));
                }
                lemma_slots_of_page(address);
                assert forall|j: int| 0 <= j < index + 1 implies leaf_mapped(
                    *address_space,
                    l,
                    j,
                    #[trigger] original.physical_pages@[j],
                ) by {
                    lemma_stack_pages(original.slot as int, j, index as int);
                    if j < index {
                        assert(leaf_mapped(before, l, j, original.physical_pages@[j]));
                        assert(address_space.translate_spec(stack_page(l, j)) == before.translate_spec(
                            stack_page(l, j),
                        ));
                    }
                }
            }
        }
        mapped += 1;
        index += 1;
    }
    proof {
        if ready {
            let m = *original;
            assert forall|k: int| 0 <= k < TASK_STACK_SLOT_PAGES implies (#[trigger] stack_check(
                *address_space,
                m,
                l,
                k,
            )) is None by {
                if k < TASK_STACK_PAGE_COUNT {
                    assert(leaf_mapped(*address_space, l, k, m.physical_pages@[k]));
                    assert(frame_result(m.physical_pages@[k], orig.spec_width()) is Ok);
                    lemma_stack_pages(m.slot as int, k, k);
                    lemma_slots_of_page(stack_page(l, k));
                    lemma_slots_of_page(m.physical_pages@[k]);
                } else {
                    let a = stack_check_address(l, k);
                    if in_stack_slots(l, a, TASK_STACK_PAGE_COUNT as int) {
                        let w = choose|w: int|
                            0 <= w < TASK_STACK_PAGE_COUNT && same_slots(a, #[trigger] stack_page(l, w));
                        lemma_guards_apart(m.slot as int, k, w);
                    }
                    assert(address_space.translate_spec(a) == orig.translate_spec(a));
                    assert(orig.translate_spec(stack_check_address(l, k)) == Ok::<Option<Translation>, PagingError>(None));
                }
            }
            lemma_first_failure_skip(*address_space, m, l, 0, TASK_STACK_SLOT_PAGES as int);
        }
    }
    if address_space.mapped_pages() != mapped_baseline {
        return Err(TaskStackError::RollbackFailed);
    }
    match validate_task_stack(original, address_space) {
        Ok(()) => {},
        Err(error) => {
            let all_ok = match unmap_in_reverse(address_space, original.virtual_start, TASK_STACK_PAGE_COUNT) {
                Ok(b) => b,
                Err(e) => return Err(e),
            };
            if !all_ok {
                return Err(TaskStackError::RollbackFailed);
            }
            return Err(error);
        },
    }
    proof {
        if aligned {
            assert forall|a: u64|
                in_stack_slots(l, a, TASK_STACK_PAGE_COUNT as int) implies !(
                #[trigger] orig.translate_spec(a) matches Ok(Some(_))) by {
                let j = choose|j: int|
                    0 <= j < TASK_STACK_PAGE_COUNT && same_slots(a, #[trigger] stack_page(l, j));
            }
        }
    }
    Ok(())
}

} // verus!
