//! Virtual layout and ownership metadata for guarded cooperative task
//! stacks on ARM64.
use vstd::prelude::*;
use crate::aarch64::address_space::{leaf_present, lemma_fresh_fewer, same_path, same_upper_path, walk_meets_empty_entry, ActiveAddressSpace};
use crate::aarch64::paging::{
    level_index, Translation, page_descriptor_result, MemoryType, PagingError, Permissions, LOW_VA_LIMIT,
};
use crate::task::MAX_TASKS;

verus! {

/// Bytes in one translation granule page.
pub const PAGE_SIZE: u64 = 4096;
/// Base of the virtual region reserved for non-bootstrap task stacks.
pub const TASK_STACK_REGION_BASE: u64 = 0x0000_2800_0000_0000;
/// Usable bytes in every non-bootstrap task stack (64 KiB).
pub const TASK_STACK_SIZE: usize = 64 * 1024;
/// Number of mapped pages in every non-bootstrap task stack.
pub const TASK_STACK_PAGE_COUNT: usize = 16;
/// Virtual distance between consecutive task-stack slots (128 KiB).
pub const TASK_STACK_SLOT_STRIDE: u64 = 128 * 1024;

/// A validated virtual layout for one guarded task stack.
#[derive(Clone, Copy, Debug, PartialEq, Eq, Structural)]
pub struct TaskStackLayout {
    /// First unmapped guard page.
    pub lower_guard: u64,
    /// First mapped writable stack page.
    pub stack_start: u64,
    /// Exclusive end of the mapped stack.
    pub stack_end: u64,
    /// First address of the unmapped upper guard page.
    pub upper_guard: u64,
    /// Exclusive end of this virtual slot.
    pub slot_end: u64,
}

/// Errors from task-stack layout arithmetic.
#[derive(Clone, Copy, Debug, PartialEq, Eq, Structural)]
pub enum TaskStackLayoutError {
    /// Bootstrap has no separately mapped task-stack slot.
    BootstrapHasNoMappedStack,
    /// The slot is outside the task table.
    InvalidSlot,
    /// Arithmetic overflow.
    AddressOverflow,
}

/// The layout of stack slot `slot` (for `0 < slot < MAX_TASKS`).
pub open spec fn slot_layout(slot: int) -> TaskStackLayout {
    let lower = TASK_STACK_REGION_BASE + slot * TASK_STACK_SLOT_STRIDE;
    TaskStackLayout {
        lower_guard: lower as u64,
        stack_start: (lower + PAGE_SIZE) as u64,
        stack_end: (lower + PAGE_SIZE + TASK_STACK_PAGE_COUNT * PAGE_SIZE) as u64,
        upper_guard: (lower + PAGE_SIZE + TASK_STACK_PAGE_COUNT * PAGE_SIZE) as u64,
        slot_end: (lower + TASK_STACK_SLOT_STRIDE) as u64,
    }
}

impl TaskStackLayout {
    /// Computes the layout for a non-bootstrap slot.
    pub fn for_slot(slot: usize) -> (result: Result<TaskStackLayout, TaskStackLayoutError>)
        ensures
            slot == 0 ==> result == Err::<TaskStackLayout, TaskStackLayoutError>(
                TaskStackLayoutError::BootstrapHasNoMappedStack,
            ),
            slot >= MAX_TASKS ==> result == Err::<TaskStackLayout, TaskStackLayoutError>(
                TaskStackLayoutError::InvalidSlot,
            ),
            0 < slot < MAX_TASKS ==> result == Ok::<TaskStackLayout, TaskStackLayoutError>(
                slot_layout(slot as int),
            ),
    {
        if slot == 0 {
            return Err(TaskStackLayoutError::BootstrapHasNoMappedStack);
        }
        if slot >= MAX_TASKS {
            return Err(TaskStackLayoutError::InvalidSlot);
        }
        let offset = (slot as u64) * TASK_STACK_SLOT_STRIDE;
        let lower_guard = TASK_STACK_REGION_BASE + offset;
        let stack_start = lower_guard + PAGE_SIZE;
        let stack_end = stack_start + (TASK_STACK_PAGE_COUNT as u64) * PAGE_SIZE;
        let upper_guard = stack_end;
        let slot_end = lower_guard + TASK_STACK_SLOT_STRIDE;
        Ok(TaskStackLayout { lower_guard, stack_start, stack_end, upper_guard, slot_end })
    }
}

/// Distinct slots never overlap, and each slot's stack sits between its
/// guard pages.
pub proof fn lemma_slots_disjoint(a: int, b: int)
    requires
        0 < a < b < MAX_TASKS,
    ensures
        slot_layout(a).slot_end <= slot_layout(b).lower_guard,
        slot_layout(a).lower_guard + PAGE_SIZE == slot_layout(a).stack_start,
        slot_layout(a).stack_end == slot_layout(a).upper_guard,
        slot_layout(a).upper_guard + PAGE_SIZE <= slot_layout(a).slot_end,
        slot_layout(a).stack_end - slot_layout(a).stack_start == TASK_STACK_SIZE,
{
}

/// Fixed ownership metadata for one mapped task stack.
#[derive(Clone, Copy, Debug, PartialEq, Eq)]
pub struct TaskStackMapping {
    pub slot: u8,
    pub virtual_start: u64,
    pub virtual_end: u64,
    pub physical_pages: [u64; 16],
    pub owned_count: usize,
    pub mapped_count: usize,
}

impl TaskStackMapping {
    /// Empty mapping metadata for `slot`.
    pub fn empty(slot: usize) -> (result: Result<TaskStackMapping, TaskStackLayoutError>)
        ensures
            slot == 0 ==> result == Err::<TaskStackMapping, TaskStackLayoutError>(
                TaskStackLayoutError::BootstrapHasNoMappedStack,
            ),
            slot >= MAX_TASKS ==> result == Err::<TaskStackMapping, TaskStackLayoutError>(
                TaskStackLayoutError::InvalidSlot,
            ),
            0 < slot < MAX_TASKS ==> (result matches Ok(m) && m.slot == slot && m.virtual_start
                == slot_layout(slot as int).stack_start && m.virtual_end == slot_layout(
                slot as int,
            ).stack_end && m.owned_count == 0 && m.mapped_count == 0 && forall|i: int|
                0 <= i < 16 ==> #[trigger] m.physical_pages@[i] == 0),
    {
        let layout = match TaskStackLayout::for_slot(slot) {
            Ok(l) => l,
            Err(e) => return Err(e),
        };
        Ok(
            TaskStackMapping {
                slot: slot as u8,
                virtual_start: layout.stack_start,
                virtual_end: layout.stack_end,
                physical_pages: [0; 16],
                owned_count: 0,
                mapped_count: 0,
            },
        )
    }

    /// Task slot owning this mapping.
    pub fn slot(&self) -> (s: usize)
        ensures
            s == self.slot,
    {
        self.slot as usize
    }

    /// First virtual address of the mapped stack.
    pub fn virtual_start(&self) -> (a: u64)
        ensures
            a == self.virtual_start,
    {
        self.virtual_start
    }

    /// Exclusive end of the mapped stack.
    pub fn virtual_end(&self) -> (a: u64)
        ensures
            a == self.virtual_end,
    {
        self.virtual_end
    }

    /// Whether this mapping contains `address`.
    pub fn contains(&self, address: u64) -> (b: bool)
        ensures
            b == (self.virtual_start <= address && address < self.virtual_end),
    {
        self.virtual_start <= address && address < self.virtual_end
    }

    /// Number of physical frames owned.
    pub fn owned_count(&self) -> (n: usize)
        ensures
            n == self.owned_count,
    {
        self.owned_count
    }

    /// Whether no physical frames are owned.
    pub fn is_empty(&self) -> (b: bool)
        ensures
            b == (self.owned_count == 0),
    {
        self.owned_count == 0
    }
}

/// Failures from live task-stack management.
#[derive(Clone, Copy, Debug, PartialEq, Eq, Structural)]
pub enum TaskStackError {
    Layout(TaskStackLayoutError),
    /// No frame was available for a stack page.
    Physical,
    Paging(PagingError),
    CorruptMapping,
    AlreadyMapped,
}

/// Why stack page `i` of `m` fails its check, if it does: its walk fails, or
/// it does not land on the recorded frame.
pub open spec fn stack_page_failure(space: ActiveAddressSpace, m: TaskStackMapping, i: int) -> Option<
    TaskStackError,
> {
    match space.translate_spec((m.virtual_start + i * PAGE_SIZE) as u64) {
        Err(e) => Some(TaskStackError::Paging(e)),
        Ok(t) => if t.physical_address != m.physical_pages@[i] {
            Some(TaskStackError::CorruptMapping)
        } else {
            None
        },
    }
}

/// The first failing stack page at or after `i`.
pub open spec fn first_stack_page_failure(space: ActiveAddressSpace, m: TaskStackMapping, i: int) -> Option<
    TaskStackError,
>
    decreases TASK_STACK_PAGE_COUNT - i,
{
    if i < 0 || i >= TASK_STACK_PAGE_COUNT {
        None
    } else {
        match stack_page_failure(space, m, i) {
            Some(e) => Some(e),
            None => first_stack_page_failure(space, m, i + 1),
        }
    }
}

/// What checking a mapped stack against the tables gives.
pub open spec fn task_stack_validation(m: TaskStackMapping, space: ActiveAddressSpace) -> Result<
    (),
    TaskStackError,
> {
    if m.mapped_count != TASK_STACK_PAGE_COUNT {
        Err(TaskStackError::CorruptMapping)
    } else {
        match first_stack_page_failure(space, m, 0) {
            Some(e) => Err(e),
            None => Ok(()),
        }
    }
}

/// Checks that every page of a fully mapped stack translates to its
/// recorded frame.
pub fn validate_task_stack(mapping: &TaskStackMapping, address_space: &ActiveAddressSpace) -> (result:
    Result<(), TaskStackError>)
    requires
        mapping.virtual_start + TASK_STACK_SIZE <= u64::MAX,
    ensures
        result == task_stack_validation(*mapping, *address_space),
{
    if mapping.mapped_count != TASK_STACK_PAGE_COUNT {
        return Err(TaskStackError::CorruptMapping);
    }
    let mut i: usize = 0;
    while i < TASK_STACK_PAGE_COUNT
        invariant
            i <= TASK_STACK_PAGE_COUNT,
            mapping.mapped_count == TASK_STACK_PAGE_COUNT,
            mapping.virtual_start + TASK_STACK_SIZE <= u64::MAX,
            first_stack_page_failure(*address_space, *mapping, 0) == first_stack_page_failure(
                *address_space,
                *mapping,
                i as int,
            ),
        decreases TASK_STACK_PAGE_COUNT - i,
    {
        let va = mapping.virtual_start + (i as u64) * PAGE_SIZE;
        let failure = match address_space.translate(va) {
            Err(e) => Some(TaskStackError::Paging(e)),
            Ok(t) => if t.physical_address != mapping.physical_pages[i] {
                Some(TaskStackError::CorruptMapping)
            } else {
                None
            },
        };
        assert(failure == stack_page_failure(*address_space, *mapping, i as int));
        if let Some(e) = failure {
            return Err(e);
        }
        i += 1;
    }
    Ok(())
}

/// The virtual address of stack page `i` of `m`.
pub open spec fn stack_page(m: TaskStackMapping, i: int) -> u64 {
    (m.virtual_start + i * PAGE_SIZE) as u64
}

/// `m` describes the stack of a task slot at that slot's place.
pub open spec fn at_slot_place(m: TaskStackMapping) -> bool {
    0 < m.slot < MAX_TASKS && m.virtual_start == slot_layout(m.slot as int).stack_start
}

/// Address `a` walks through none of the stack pages of `m`.
pub open spec fn off_stack_pages(m: TaskStackMapping, a: u64) -> bool {
    forall|i: int| 0 <= i < TASK_STACK_PAGE_COUNT ==> !same_path(a, #[trigger] stack_page(m, i))
}

/// What mapping a stack needs to succeed: metadata at its slot's place,
/// every page's walk ending at an empty entry, frames a page descriptor
/// can name, and three fresh table pages for each page.
pub open spec fn stack_mappable(space: ActiveAddressSpace, m: TaskStackMapping, frames: Seq<u64>) -> bool {
    &&& at_slot_place(m)
    &&& forall|i: int|
        0 <= i < TASK_STACK_PAGE_COUNT ==> #[trigger] walk_meets_empty_entry(
            space.table_pages(),
            space.spec_root(),
            stack_page(m, i),
        )
    &&& forall|i: int|
        0 <= i < TASK_STACK_PAGE_COUNT ==> #[trigger] page_descriptor_result(
            frames[i],
            Permissions::ReadWriteNoExecute,
            MemoryType::NormalWriteBack,
        ) is Ok
    &&& space.fresh_tables(3 * TASK_STACK_PAGE_COUNT)
}

/// The pages of a slot's stack share every table above the leaf and use
/// distinct leaf entries, inside the low half.
pub proof fn lemma_slot_stack_pages(m: TaskStackMapping, i: int, j: int)
    requires
        at_slot_place(m),
        0 <= i < TASK_STACK_PAGE_COUNT,
        0 <= j < TASK_STACK_PAGE_COUNT,
    ensures
        m.virtual_start + i * PAGE_SIZE <= u64::MAX,
        stack_page(m, i) % PAGE_SIZE == 0,
        stack_page(m, i) < LOW_VA_LIMIT,
        same_upper_path(stack_page(m, i), stack_page(m, j)),
        i != j ==> level_index(stack_page(m, i), 12) != level_index(stack_page(m, j), 12),
        i != j ==> !same_path(stack_page(m, i), stack_page(m, j)),
{
    let s = m.slot as u64;
    let a = stack_page(m, i);
    let b = stack_page(m, j);
    let iu = i as u64;
    let ju = j as u64;
    assert(i != j ==> iu != ju);
    assert(a == 0x2800_0000_0000u64 + s * 0x20000u64 + 0x1000u64 + iu * 0x1000u64);
    assert(b == 0x2800_0000_0000u64 + s * 0x20000u64 + 0x1000u64 + ju * 0x1000u64);
    assert(a % 4096 == 0 && a < 0x1_0000_0000_0000u64 && (a >> 39u64) & 0x1ff == (b >> 39u64) & 0x1ff
        && (a >> 30u64) & 0x1ff == (b >> 30u64) & 0x1ff && (a >> 21u64) & 0x1ff == (b >> 21u64) & 0x1ff
        && (a >> 12u64) & 0x1ff < 512 && (b >> 12u64) & 0x1ff < 512
        && (iu != ju ==> (a >> 12u64) & 0x1ff != (b >> 12u64) & 0x1ff)) by (bit_vector)
        requires
            0 < s < 8,
            iu < 16,
            ju < 16,
            a == 0x2800_0000_0000u64 + s * 0x20000u64 + 0x1000u64 + iu * 0x1000u64,
            b == 0x2800_0000_0000u64 + s * 0x20000u64 + 0x1000u64 + ju * 0x1000u64,
    ;
}

/// Maps the sixteen frames `frames` as the stack of `mapping`, read/write,
/// never executable, normal write-back memory. A metadata record that owns
/// anything is refused; a failed page mapping reclaims what was mapped and
/// empties the metadata so that the caller can return the frames. The new
/// pages still have to be zeroed by the caller.
pub fn map_task_stack(
    mapping: &mut TaskStackMapping,
    address_space: &mut ActiveAddressSpace,
    frames: &[u64; 16],
) -> (result: Result<(), TaskStackError>)
    requires
        old(address_space).wf(),
        old(mapping).virtual_start + TASK_STACK_SIZE <= u64::MAX,
    ensures
        final(address_space).wf(),
        final(address_space).spec_root() == old(address_space).spec_root(),
        old(mapping).owned_count != 0 || old(mapping).mapped_count != 0 ==> result == Err::<
            (),
            TaskStackError,
        >(TaskStackError::AlreadyMapped) && *final(mapping) == *old(mapping) && *final(address_space)
            == *old(address_space),
        result is Ok ==> *final(mapping) == (TaskStackMapping {
            physical_pages: *frames,
            owned_count: TASK_STACK_PAGE_COUNT,
            mapped_count: TASK_STACK_PAGE_COUNT,
            ..*old(mapping)
        }),
        result is Ok && old(address_space).spec_root() < LOW_VA_LIMIT && old(address_space).spec_root()
            % PAGE_SIZE == 0 && at_slot_place(*old(mapping)) ==> forall|i: int|
            0 <= i < TASK_STACK_PAGE_COUNT ==> #[trigger] final(address_space).maps_page(
                stack_page(*old(mapping), i),
                frames@[i],
                Permissions::ReadWriteNoExecute,
                MemoryType::NormalWriteBack,
            ),
        result matches Err(e) ==> (e != TaskStackError::AlreadyMapped ==> e is Paging
            && final(mapping).owned_count == 0 && final(mapping).mapped_count == 0),
        forall|a: u64|
            off_stack_pages(*old(mapping), a) ==> #[trigger] final(address_space).translate_spec(a)
                == old(address_space).translate_spec(a),
        old(mapping).owned_count == 0 && old(mapping).mapped_count == 0 && stack_mappable(
            *old(address_space),
            *old(mapping),
            frames@,
        ) ==> result is Ok,
{
    if mapping.owned_count != 0 || mapping.mapped_count != 0 {
        return Err(TaskStackError::AlreadyMapped);
    }
    let ghost orig = *address_space;
    let ghost m0 = *mapping;
    let ghost ready = stack_mappable(orig, m0, frames@);
    mapping.physical_pages = *frames;
    mapping.owned_count = TASK_STACK_PAGE_COUNT;
    let mut i: usize = 0;
    while i < TASK_STACK_PAGE_COUNT
        invariant
            i <= TASK_STACK_PAGE_COUNT,
            address_space.wf(),
            address_space.spec_root() == orig.spec_root(),
            orig.wf(),
            *mapping == (TaskStackMapping {
                physical_pages: *frames,
                owned_count: TASK_STACK_PAGE_COUNT,
                mapped_count: i as usize,
                ..m0
            }),
            m0.virtual_start + TASK_STACK_SIZE <= u64::MAX,
            ready == stack_mappable(orig, m0, frames@),
            m0 == *old(mapping),
            m0.owned_count == 0 && m0.mapped_count == 0,
            orig == *old(address_space),
            forall|a: u64|
                off_stack_pages(m0, a) ==> #[trigger] address_space.translate_spec(a) == orig.translate_spec(a),
            orig.spec_root() < LOW_VA_LIMIT && orig.spec_root() % PAGE_SIZE == 0 && at_slot_place(m0)
                ==> forall|j: int|
                0 <= j < i ==> #[trigger] address_space.maps_page(
                    stack_page(m0, j),
                    frames@[j],
                    Permissions::ReadWriteNoExecute,
                    MemoryType::NormalWriteBack,
                ),
            ready ==> address_space.fresh_tables(3 * (TASK_STACK_PAGE_COUNT - i)),
            ready ==> forall|j: int|
                i <= j < TASK_STACK_PAGE_COUNT ==> #[trigger] walk_meets_empty_entry(
                    address_space.table_pages(),
                    address_space.spec_root(),
                    stack_page(m0, j),
                ),
        decreases TASK_STACK_PAGE_COUNT - i,
    {
        let va = mapping.virtual_start + (i as u64) * PAGE_SIZE;
        let ghost before = *address_space;
        proof {
            if ready {
                assert(walk_meets_empty_entry(
                    address_space.table_pages(),
                    address_space.spec_root(),
                    stack_page(m0, i as int),
                ));
                assert(3 * (TASK_STACK_PAGE_COUNT - i) >= 3);
                assert(address_space.fresh_tables(3 * (TASK_STACK_PAGE_COUNT - i)));
                lemma_fresh_fewer(*address_space, 3 * (TASK_STACK_PAGE_COUNT - i), 3);
                assert(va == stack_page(m0, i as int));
                assert(page_descriptor_result(
                    frames@[i as int],
                    Permissions::ReadWriteNoExecute,
                    MemoryType::NormalWriteBack,
                ) is Ok);
            }
        }
        match address_space.map_page(
            va,
            frames[i],
            Permissions::ReadWriteNoExecute,
            MemoryType::NormalWriteBack,
        ) {
            Ok(()) => {},
            Err(e) => {
                proof {
                    assert forall|a: u64| off_stack_pages(m0, a) implies off_stack_pages(*mapping, a) by {
                        assert forall|k: int| 0 <= k < TASK_STACK_PAGE_COUNT implies !same_path(
                            a,
                            #[trigger] stack_page(*mapping, k),
                        ) by {
                            assert(stack_page(*mapping, k) == stack_page(m0, k));
                        }
                    }
                }
                let _ = reclaim_task_stack(mapping, address_space);
                return Err(TaskStackError::Paging(e));
            },
        }
        proof {
            assert forall|a: u64| off_stack_pages(m0, a) implies #[trigger] address_space.translate_spec(a)
                == orig.translate_spec(a) by {
                assert(!same_path(a, stack_page(m0, i as int)));
                assert(before.translate_spec(a) == orig.translate_spec(a));
            }
            if orig.spec_root() < LOW_VA_LIMIT && orig.spec_root() % PAGE_SIZE == 0 && at_slot_place(m0) {
                lemma_slot_stack_pages(m0, i as int, i as int);
                assert forall|j: int| 0 <= j < i + 1 implies #[trigger] address_space.maps_page(
                    stack_page(m0, j),
                    frames@[j],
                    Permissions::ReadWriteNoExecute,
                    MemoryType::NormalWriteBack,
                ) by {
                    if j < i {
                        assert(before.maps_page(
                            stack_page(m0, j),
                            frames@[j],
                            Permissions::ReadWriteNoExecute,
                            MemoryType::NormalWriteBack,
                        ));
                        lemma_slot_stack_pages(m0, j, i as int);
                        assert forall|o: u64| o < PAGE_SIZE implies #[trigger] address_space.translate_spec(
                            (stack_page(m0, j) + o) as u64,
                        ) == before.translate_spec((stack_page(m0, j) + o) as u64) by {
                            assert(before.translate_spec((stack_page(m0, j) + o) as u64) is Ok);
                        }
                    }
                }
            }
            if ready {
                assert(3 * (TASK_STACK_PAGE_COUNT - (i + 1)) == 3 * (TASK_STACK_PAGE_COUNT - i) - 3);
                assert forall|j: int| i + 1 <= j < TASK_STACK_PAGE_COUNT implies #[trigger] walk_meets_empty_entry(
                    address_space.table_pages(),
                    address_space.spec_root(),
                    stack_page(m0, j),
                ) by {
                    lemma_slot_stack_pages(m0, j, i as int);
                    assert(walk_meets_empty_entry(before.table_pages(), before.spec_root(), stack_page(m0, j)));
                }
            }
        }
        mapping.mapped_count = i + 1;
        i += 1;
    }
    Ok(())
}

/// Unmaps every mapped page of `mapping`, last first, going on past a
/// failed unmap, then empties the metadata so that the caller can return
/// its frames. The first failed unmap is reported.
pub fn reclaim_task_stack(mapping: &mut TaskStackMapping, address_space: &mut ActiveAddressSpace) -> (result:
    Result<(), TaskStackError>)
    requires
        old(address_space).wf(),
        old(mapping).mapped_count <= TASK_STACK_PAGE_COUNT,
        old(mapping).owned_count <= TASK_STACK_PAGE_COUNT,
        old(mapping).virtual_start + TASK_STACK_SIZE <= u64::MAX,
    ensures
        final(address_space).wf(),
        final(address_space).spec_root() == old(address_space).spec_root(),
        *final(mapping) == (TaskStackMapping {
            physical_pages: final(mapping).physical_pages,
            owned_count: 0,
            mapped_count: 0,
            ..*old(mapping)
        }),
        forall|k: int|
            0 <= k < 16 ==> #[trigger] final(mapping).physical_pages@[k] == if k < old(mapping).owned_count {
                0
            } else {
                old(mapping).physical_pages@[k]
            },
        result matches Err(e) ==> e == TaskStackError::Paging(PagingError::NotMapped),
        at_slot_place(*old(mapping)) ==> (result is Ok <==> forall|i: int|
            0 <= i < old(mapping).mapped_count ==> #[trigger] leaf_present(
                old(address_space).table_pages(),
                old(address_space).spec_root(),
                stack_page(*old(mapping), i),
            )),
        forall|a: u64|
            off_stack_pages(*old(mapping), a) ==> #[trigger] final(address_space).translate_spec(a)
                == old(address_space).translate_spec(a),
        result is Ok && old(address_space).spec_root() < LOW_VA_LIMIT && old(address_space).spec_root()
            % PAGE_SIZE == 0 && at_slot_place(*old(mapping)) ==> forall|i: int, a: u64|
            0 <= i < old(mapping).mapped_count && same_path(a, #[trigger] stack_page(*old(mapping), i))
                && a < LOW_VA_LIMIT ==> #[trigger] final(address_space).translate_spec(a) == Err::<
                Translation,
                PagingError,
            >(PagingError::NotMapped),
        at_slot_place(*old(mapping)) && (forall|i: int|
            0 <= i < old(mapping).mapped_count ==> (#[trigger] old(address_space).translate_spec(
                stack_page(*old(mapping), i),
            )) is Ok) ==> result is Ok,
{
    let ghost orig = *address_space;
    let ghost m0 = *mapping;
    let ghost count = mapping.mapped_count;
    let mut error: Option<TaskStackError> = None;
    while mapping.mapped_count > 0
        invariant
            address_space.wf(),
            address_space.spec_root() == orig.spec_root(),
            orig.wf(),
            mapping.mapped_count <= count,
            count == m0.mapped_count,
            count <= TASK_STACK_PAGE_COUNT,
            *mapping == (TaskStackMapping { mapped_count: mapping.mapped_count, ..m0 }),
            m0.virtual_start + TASK_STACK_SIZE <= u64::MAX,
            error matches Some(e) ==> e == TaskStackError::Paging(PagingError::NotMapped),
            at_slot_place(m0) ==> forall|j: int|
                0 <= j < mapping.mapped_count ==> #[trigger] leaf_present(
                    address_space.table_pages(),
                    address_space.spec_root(),
                    stack_page(m0, j),
                ) == leaf_present(orig.table_pages(), orig.spec_root(), stack_page(m0, j)),
            at_slot_place(m0) ==> (error is None <==> forall|j: int|
                mapping.mapped_count <= j < count ==> #[trigger] leaf_present(
                    orig.table_pages(),
                    orig.spec_root(),
                    stack_page(m0, j),
                )),
            forall|a: u64|
                off_stack_pages(m0, a) ==> #[trigger] address_space.translate_spec(a) == orig.translate_spec(a),
            at_slot_place(m0) ==> forall|j: int|
                0 <= j < mapping.mapped_count ==> #[trigger] address_space.translate_spec(stack_page(m0, j))
                    == orig.translate_spec(stack_page(m0, j)),
            error is None && orig.spec_root() < LOW_VA_LIMIT && orig.spec_root() % PAGE_SIZE == 0
                && at_slot_place(m0) ==> forall|j: int, a: u64|
                mapping.mapped_count <= j < count && same_path(a, #[trigger] stack_page(m0, j)) && a
                    < LOW_VA_LIMIT ==> #[trigger] address_space.translate_spec(a) == Err::<
                    Translation,
                    PagingError,
                >(PagingError::NotMapped),
            at_slot_place(m0) && (forall|j: int|
                0 <= j < count ==> (#[trigger] orig.translate_spec(stack_page(m0, j))) is Ok) ==> error is None,
        decreases mapping.mapped_count,
    {
        let index = mapping.mapped_count - 1;
        let va = mapping.virtual_start + (index as u64) * PAGE_SIZE;
        let ghost before = *address_space;
        proof {
            if at_slot_place(m0) {
                lemma_slot_stack_pages(m0, index as int, index as int);
            }
        }
        let unmapped = address_space.unmap_page(va);
        if let Err(e) = unmapped {
            if error.is_none() {
                error = Some(TaskStackError::Paging(e));
            }
        }
        proof {
            assert forall|a: u64| off_stack_pages(m0, a) implies #[trigger] address_space.translate_spec(a)
                == orig.translate_spec(a) by {
                assert(!same_path(a, stack_page(m0, index as int)));
                assert(before.translate_spec(a) == orig.translate_spec(a));
            }
            if at_slot_place(m0) {
                assert(va == stack_page(m0, index as int));
                assert forall|j: int| 0 <= j < index implies #[trigger] leaf_present(
                    address_space.table_pages(),
                    address_space.spec_root(),
                    stack_page(m0, j),
                ) == leaf_present(orig.table_pages(), orig.spec_root(), stack_page(m0, j)) by {
                    lemma_slot_stack_pages(m0, j, index as int);
                    assert(leaf_present(before.table_pages(), before.spec_root(), stack_page(m0, j))
                        == leaf_present(orig.table_pages(), orig.spec_root(), stack_page(m0, j)));
                }
                assert(unmapped is Ok <==> leaf_present(orig.table_pages(), orig.spec_root(), stack_page(m0, index as int)));
                assert forall|j: int| 0 <= j < index implies #[trigger] address_space.translate_spec(
                    stack_page(m0, j),
                ) == orig.translate_spec(stack_page(m0, j)) by {
                    lemma_slot_stack_pages(m0, j, index as int);
                    assert(before.translate_spec(stack_page(m0, j)) == orig.translate_spec(stack_page(m0, j)));
                }
                if error is None && orig.spec_root() < LOW_VA_LIMIT && orig.spec_root() % PAGE_SIZE == 0 {
                    assert forall|j: int, a: u64|
                        index <= j < count && same_path(a, #[trigger] stack_page(m0, j)) && a < LOW_VA_LIMIT
                            implies #[trigger] address_space.translate_spec(a) == Err::<
                            Translation,
                            PagingError,
                        >(PagingError::NotMapped) by {
                        if j != index {
                            lemma_slot_stack_pages(m0, j, index as int);
                            if same_path(a, stack_page(m0, index as int)) {
                                assert(same_path(stack_page(m0, j), stack_page(m0, index as int)));
                            }
                            assert(before.translate_spec(a) == Err::<Translation, PagingError>(
                                PagingError::NotMapped,
                            ));
                        }
                    }
                }
            }
        }
        mapping.mapped_count = index;
    }
    while mapping.owned_count > 0
        invariant
            mapping.mapped_count == 0,
            mapping.owned_count <= TASK_STACK_PAGE_COUNT,
            mapping.slot == m0.slot,
            mapping.virtual_start == m0.virtual_start,
            mapping.virtual_end == m0.virtual_end,
            mapping.owned_count <= m0.owned_count,
            m0.owned_count <= TASK_STACK_PAGE_COUNT,
            forall|k: int|
                0 <= k < 16 ==> #[trigger] mapping.physical_pages@[k] == if mapping.owned_count <= k
                    < m0.owned_count {
                    0
                } else {
                    m0.physical_pages@[k]
                },
        decreases mapping.owned_count,
    {
        let index = mapping.owned_count - 1;
        mapping.physical_pages[index] = 0;
        mapping.owned_count = index;
    }
    match error {
        Some(e) => Err(e),
        None => Ok(()),
    }
}

/// Undoes a partially set-up stack: the same as reclaiming it.
pub fn restore_task_stack(mapping: &mut TaskStackMapping, address_space: &mut ActiveAddressSpace) -> (result:
    Result<(), TaskStackError>)
    requires
        old(address_space).wf(),
        old(mapping).mapped_count <= TASK_STACK_PAGE_COUNT,
        old(mapping).owned_count <= TASK_STACK_PAGE_COUNT,
        old(mapping).virtual_start + TASK_STACK_SIZE <= u64::MAX,
    ensures
        final(address_space).wf(),
        final(address_space).spec_root() == old(address_space).spec_root(),
        *final(mapping) == (TaskStackMapping {
            physical_pages: final(mapping).physical_pages,
            owned_count: 0,
            mapped_count: 0,
            ..*old(mapping)
        }),
        forall|k: int|
            0 <= k < 16 ==> #[trigger] final(mapping).physical_pages@[k] == if k < old(mapping).owned_count {
                0
            } else {
                old(mapping).physical_pages@[k]
            },
        result matches Err(e) ==> e == TaskStackError::Paging(PagingError::NotMapped),
        at_slot_place(*old(mapping)) ==> (result is Ok <==> forall|i: int|
            0 <= i < old(mapping).mapped_count ==> #[trigger] leaf_present(
                old(address_space).table_pages(),
                old(address_space).spec_root(),
                stack_page(*old(mapping), i),
            )),
        forall|a: u64|
            off_stack_pages(*old(mapping), a) ==> #[trigger] final(address_space).translate_spec(a)
                == old(address_space).translate_spec(a),
        result is Ok && old(address_space).spec_root() < LOW_VA_LIMIT && old(address_space).spec_root()
            % PAGE_SIZE == 0 && at_slot_place(*old(mapping)) ==> forall|i: int, a: u64|
            0 <= i < old(mapping).mapped_count && same_path(a, #[trigger] stack_page(*old(mapping), i))
                && a < LOW_VA_LIMIT ==> #[trigger] final(address_space).translate_spec(a) == Err::<
                Translation,
                PagingError,
            >(PagingError::NotMapped),
        at_slot_place(*old(mapping)) && (forall|i: int|
            0 <= i < old(mapping).mapped_count ==> (#[trigger] old(address_space).translate_spec(
                stack_page(*old(mapping), i),
            )) is Ok) ==> result is Ok,
{
    reclaim_task_stack(mapping, address_space)
}

} // verus!
