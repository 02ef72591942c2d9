//! The kernel heap's guarded virtual window and the bookkeeping of the
//! frames that back it.
use vstd::prelude::*;
use crate::x86_64::paging::{
    canonical, frame_result, is_canonical, lemma_clear_returns_translated_frame,
    lemma_low_half_canonical, lemma_pages_apart, lemma_slots_of_page, lemma_upper_shared,
    mapped_translation, path_present, rw_nx, same_slots,
    same_upper_slots, ActiveAddressSpace, MapOutcome, MappingPermissions, PagingError,
    PhysicalFrame, Translation, VirtualPage, PAGE_SIZE,
};

verus! {

/// Base of the virtual window reserved for the kernel heap (its low guard page).
pub const KERNEL_HEAP_REGION_BASE: u64 = 0x0000_2000_0000_0000;
/// Usable heap bytes.
pub const KERNEL_HEAP_SIZE: usize = 0x10_0000;
/// Pages backing the heap.
pub const KERNEL_HEAP_PAGE_COUNT: usize = 256;
/// First heap byte.
pub const KERNEL_HEAP_START: u64 = 0x0000_2000_0000_1000;
/// Exclusive end of the heap.
pub const KERNEL_HEAP_END: u64 = 0x0000_2000_0010_1000;
/// Unmapped page below the heap.
pub const KERNEL_HEAP_GUARD_LOW: u64 = 0x0000_2000_0000_0000;
/// Unmapped page above the heap.
pub const KERNEL_HEAP_GUARD_HIGH: u64 = 0x0000_2000_0010_1000;

/// Failures while mapping or checking the heap.
#[derive(Clone, Copy, Debug, PartialEq, Eq, Structural)]
pub enum HeapMappingError {
    /// No frame was available for a heap page.
    PhysicalAllocation,
    Paging(PagingError),
    InvalidHeapRange,
    GuardPageMapped,
    MappingValidationFailed,
    RollbackFailed,
}

/// Address of heap page `j`.
pub open spec fn heap_page(j: int) -> u64 {
    (KERNEL_HEAP_START + j * PAGE_SIZE) as u64
}

/// Whether `a` walks through the leaf slot of one of the first `k` heap pages.
pub open spec fn in_heap_slots(a: u64, k: int) -> bool {
    exists|j: int| 0 <= j < k && same_slots(a, #[trigger] heap_page(j))
}

/// A heap leaf is the recorded frame, writable, not executable and supervisor-only.
pub open spec fn heap_leaf_ok(t: Translation, frame: u64) -> bool {
    &&& t.physical_address & !0xfffu64 == frame
    &&& t.effective_writable
    &&& !t.effective_executable
    &&& !t.effective_user
}

/// Why a guard page fails its check, if it does.
pub open spec fn guard_failure(r: Result<Option<Translation>, PagingError>) -> Option<HeapMappingError> {
    match r {
        Err(e) => Some(HeapMappingError::Paging(e)),
        Ok(Some(_)) => Some(HeapMappingError::GuardPageMapped),
        Ok(None) => None,
    }
}

/// Why heap page `j` fails its check against `frame`, if it does.
pub open spec fn page_failure(space: ActiveAddressSpace, j: int, frame: u64) -> Option<HeapMappingError> {
    match space.translate_spec(heap_page(j)) {
        Err(e) => Some(HeapMappingError::Paging(e)),
        Ok(None) => Some(HeapMappingError::MappingValidationFailed),
        Ok(Some(t)) => if heap_leaf_ok(t, frame) {
            None
        } else {
            Some(HeapMappingError::MappingValidationFailed)
        },
    }
}

/// The first failing heap page at or after `j`, below `count`.
pub open spec fn first_page_failure(
    space: ActiveAddressSpace,
    frames: Seq<u64>,
    count: int,
    j: int,
) -> Option<HeapMappingError>
    decreases count - j,
{
    if j < 0 || j >= count {
        None
    } else {
        match page_failure(space, j, frames[j]) {
            Some(e) => Some(e),
            None => first_page_failure(space, frames, count, j + 1),
        }
    }
}

/// What checking the first `count` heap pages against `frames` gives.
pub open spec fn heap_validation(space: ActiveAddressSpace, frames: Seq<u64>, count: int) -> Result<
    (),
    HeapMappingError,
> {
    if let Some(e) = guard_failure(space.translate_spec(KERNEL_HEAP_GUARD_LOW)) {
        Err(e)
    } else if let Some(e) = guard_failure(space.translate_spec(KERNEL_HEAP_GUARD_HIGH)) {
        Err(e)
    } else if let Some(e) = first_page_failure(space, frames, count, 0) {
        Err(e)
    } else {
        Ok(())
    }
}

/// The translation a walk result establishes, if any.
pub open spec fn live(r: Result<Option<Translation>, PagingError>) -> Option<Translation> {
    match r {
        Ok(Some(t)) => Some(t),
        _ => None,
    }
}

/// Heap pages with different indices use different leaf slots.
pub proof fn lemma_heap_pages_apart(i: int, j: int)
    requires
        0 <= i < KERNEL_HEAP_PAGE_COUNT,
        0 <= j < KERNEL_HEAP_PAGE_COUNT,
        i != j,
    ensures
        !same_slots(heap_page(i), heap_page(j)),
{
    lemma_pages_apart(heap_page(i), heap_page(j));
}

/// Heap pages are page aligned and canonical.
pub proof fn lemma_heap_page_canonical(i: int)
    requires
        0 <= i <= KERNEL_HEAP_PAGE_COUNT,
    ensures
        heap_page(i) % PAGE_SIZE == 0,
        canonical(heap_page(i)),
{
    lemma_low_half_canonical(heap_page(i));
}

/// A heap window that passes validation has both guard pages unmapped and
/// every checked heap page mapped to its recorded frame, writable, not
/// executable and supervisor-only.
pub proof fn lemma_validated_heap(space: ActiveAddressSpace, frames: Seq<u64>, count: int)
    requires
        0 <= count <= frames.len(),
        heap_validation(space, frames, count) == Ok::<(), HeapMappingError>(()),
    ensures
        space.translate_spec(KERNEL_HEAP_GUARD_LOW) == Ok::<Option<Translation>, PagingError>(None),
        space.translate_spec(KERNEL_HEAP_GUARD_HIGH) == Ok::<Option<Translation>, PagingError>(None),
        forall|j: int|
            0 <= j < count ==> (#[trigger] space.translate_spec(heap_page(j)) matches Ok(Some(t))
                && heap_leaf_ok(t, frames[j])),
{
    assert forall|j: int| 0 <= j < count implies (#[trigger] space.translate_spec(heap_page(j)) matches Ok(
        Some(t),
    ) && heap_leaf_ok(t, frames[j])) by {
        lemma_no_page_failure(space, frames, count, 0, j);
    }
}

/// No failure from `i` on means no failure at any `j` in between.
proof fn lemma_no_page_failure(space: ActiveAddressSpace, frames: Seq<u64>, count: int, i: int, j: int)
    requires
        0 <= i <= j < count,
        first_page_failure(space, frames, count, i) is None,
    ensures
        page_failure(space, j, frames[j]) is None,
    decreases j - i,
{
    if i < j {
        lemma_no_page_failure(space, frames, count, i + 1, j);
    }
}

/// What mapping the heap into `space` with `frames` needs to succeed: both
/// guard pages and every heap page unmapped with walks that end cleanly, a
/// frame that fits the address width for every heap page, and either the
/// heap's leaf table already present or three fresh pool pages to build it.
pub open spec fn heap_ready(space: ActiveAddressSpace, frames: Seq<u64>) -> bool {
    &&& space.translate_spec(KERNEL_HEAP_GUARD_LOW) == Ok::<Option<Translation>, PagingError>(None)
    &&& space.translate_spec(KERNEL_HEAP_GUARD_HIGH) == Ok::<Option<Translation>, PagingError>(None)
    &&& frames.len() >= KERNEL_HEAP_PAGE_COUNT
    &&& space.fresh_pool_pages(3) || path_present(space, heap_page(0))
    &&& forall|j: int|
        0 <= j < KERNEL_HEAP_PAGE_COUNT ==> #[trigger] space.translate_spec(heap_page(j)) == Ok::<
            Option<Translation>,
            PagingError,
        >(None)
    &&& forall|j: int|
        0 <= j < KERNEL_HEAP_PAGE_COUNT ==> frame_result(#[trigger] frames[j], space.spec_width()) is Ok
}

/// Every heap page lies in the same 2 MiB region: one leaf table serves them all.
pub proof fn lemma_heap_upper_shared(j: int)
    requires
        0 <= j < KERNEL_HEAP_PAGE_COUNT,
    ensures
        same_upper_slots(heap_page(j), heap_page(0)),
{
    let a = heap_page(j);
    let b = heap_page(0);
    assert(0x2000_0000_1000u64 <= a && a < 0x2000_0010_1000u64 && 0x2000_0000_1000u64 <= b && b
        < 0x2000_0010_1000u64 ==> (a >> 39u64) & 0x1ff == (b >> 39u64) & 0x1ff && (a >> 30u64)
        & 0x1ff == (b >> 30u64) & 0x1ff && (a >> 21u64) & 0x1ff == (b >> 21u64) & 0x1ff)
        by (bit_vector);
}

/// No page failure from `i` up to `count` means no first failure from `i`.
proof fn lemma_no_failure_from(space: ActiveAddressSpace, frames: Seq<u64>, count: int, i: int)
    requires
        0 <= i,
        forall|j: int| i <= j < count ==> #[trigger] page_failure(space, j, frames[j]) is None,
    ensures
        first_page_failure(space, frames, count, i) is None,
    decreases count - i,
{
    if i < count {
        assert(page_failure(space, i, frames[i]) is None);
        lemma_no_failure_from(space, frames, count, i + 1);
    }
}

/// Frames backing the kernel heap.
#[derive(Clone, Debug)]
pub struct KernelHeapMapping {
    physical_pages: [u64; 256],
    mapped_count: usize,
}

impl KernelHeapMapping {
    /// The recorded frames.
    pub closed spec fn frames(&self) -> Seq<u64> {
        self.physical_pages@
    }

    /// How many heap pages are mapped.
    pub closed spec fn spec_mapped_count(&self) -> nat {
        self.mapped_count as nat
    }

    /// The bookkeeping invariant.
    pub closed spec fn wf(&self) -> bool {
        self.mapped_count <= KERNEL_HEAP_PAGE_COUNT
    }

    /// Bookkeeping with nothing mapped.
    pub fn empty() -> (m: KernelHeapMapping)
        ensures
            m.wf(),
            m.spec_mapped_count() == 0,
            forall|i: int| 0 <= i < KERNEL_HEAP_PAGE_COUNT ==> #[trigger] m.frames()[i] == 0,
    {
        KernelHeapMapping { physical_pages: [0; 256], mapped_count: 0 }
    }

    /// How many heap pages are mapped.
    pub fn mapped_count(&self) -> (n: usize)
        ensures
            n == self.spec_mapped_count(),
    {
        self.mapped_count
    }

    /// The frame recorded for heap page `index`.
    pub fn physical_page(&self, index: usize) -> (p: Option<u64>)
        ensures
            p == (if index < KERNEL_HEAP_PAGE_COUNT {
                Some(self.frames()[index as int])
            } else {
                None::<u64>
            }),
    {
        if index < KERNEL_HEAP_PAGE_COUNT {
            Some(self.physical_pages[index])
        } else {
            None
        }
    }

    /// Checks the guard pages and every mapped heap page against the recorded frames.
    pub fn validate(&self, address_space: &ActiveAddressSpace) -> (result: Result<
        (),
        HeapMappingError,
    >)
        requires
            self.wf(),
            address_space.wf(),
        ensures
            result == heap_validation(*address_space, self.frames(), self.spec_mapped_count() as int),
    {
        match address_space.translate(KERNEL_HEAP_GUARD_LOW) {
            Err(e) => return Err(HeapMappingError::Paging(e)),
            Ok(Some(_)) => return Err(HeapMappingError::GuardPageMapped),
            Ok(None) => {},
        }
        match address_space.translate(KERNEL_HEAP_GUARD_HIGH) {
            Err(e) => return Err(HeapMappingError::Paging(e)),
            Ok(Some(_)) => return Err(HeapMappingError::GuardPageMapped),
            Ok(None) => {},
        }
        let ghost space = *address_space;
        let ghost frames = self.frames();
        let count = self.mapped_count;
        let mut index: usize = 0;
        while index < count
            invariant
                count == self.mapped_count,
                count <= KERNEL_HEAP_PAGE_COUNT,
                index <= count,
                address_space.wf(),
                space == *address_space,
                frames == self.frames(),
                guard_failure(space.translate_spec(KERNEL_HEAP_GUARD_LOW)).is_none(),
                guard_failure(space.translate_spec(KERNEL_HEAP_GUARD_HIGH)).is_none(),
                first_page_failure(space, frames, count as int, 0) == first_page_failure(
                    space,
                    frames,
                    count as int,
                    index as int,
                ),
            decreases count - index,
        {
            let virtual_address = KERNEL_HEAP_START + (index as u64) * PAGE_SIZE;
            let failure = match address_space.translate(virtual_address) {
                Err(e) => Some(HeapMappingError::Paging(e)),
                Ok(None) => Some(HeapMappingError::MappingValidationFailed),
                Ok(Some(t)) => if t.physical_address & !0xfffu64 != self.physical_pages[index]
                    || !t.effective_writable || t.effective_executable || t.effective_user {
                    Some(HeapMappingError::MappingValidationFailed)
                } else {
                    None
                },
            };
            assert(failure == page_failure(space, index as int, frames[index as int]));
            if let Some(e) = failure {
                assert(first_page_failure(space, frames, count as int, index as int) == Some(e));
                return Err(e);
            }
            index += 1;
        }
        Ok(())
    }

    /// Maps the heap: checks the fixed layout and both guard pages, then maps
    /// heap page `j` to `frames[j]` (kernel read/write, no-execute) for every
    /// `j`, and finally validates the whole window. Any failure after the
    /// first page was mapped unmaps what was mapped before it returns.
    pub fn initialize(&mut self, address_space: &mut ActiveAddressSpace, frames: &[u64]) -> (result:
        Result<(), HeapMappingError>)
        requires
            old(self).wf(),
            old(self).spec_mapped_count() == 0,
            old(address_space).wf(),
        ensures
            final(self).wf(),
            final(address_space).wf(),
            final(address_space).spec_root() == old(address_space).spec_root(),
            final(address_space).spec_width() == old(address_space).spec_width(),
            guard_failure(old(address_space).translate_spec(KERNEL_HEAP_GUARD_LOW)) matches Some(e)
                ==> result == Err::<(), HeapMappingError>(e) && *final(address_space) == *old(address_space),
            guard_failure(old(address_space).translate_spec(KERNEL_HEAP_GUARD_LOW)) is None ==> (guard_failure(
                old(address_space).translate_spec(KERNEL_HEAP_GUARD_HIGH),
            ) matches Some(e) ==> result == Err::<(), HeapMappingError>(e) && *final(address_space)
                == *old(address_space)),
            frames@.len() < KERNEL_HEAP_PAGE_COUNT ==> result is Err,
            result == Err::<(), HeapMappingError>(HeapMappingError::PhysicalAllocation) ==> frames@.len()
                < KERNEL_HEAP_PAGE_COUNT,
            result is Ok ==> {
                &&& final(self).spec_mapped_count() == KERNEL_HEAP_PAGE_COUNT
                &&& forall|j: int| 0 <= j < KERNEL_HEAP_PAGE_COUNT ==> #[trigger] final(self).frames()[j] == frames@[j]
                &&& heap_validation(*final(address_space), final(self).frames(), KERNEL_HEAP_PAGE_COUNT as int)
                    == Ok::<(), HeapMappingError>(())
                &&& forall|a: u64|
                    !in_heap_slots(a, KERNEL_HEAP_PAGE_COUNT as int) ==> #[trigger] final(address_space).translate_spec(a)
                        == old(address_space).translate_spec(a)
            },
            result is Err ==> final(self).spec_mapped_count() == 0 && forall|a: u64|
                #[trigger] live(final(address_space).translate_spec(a)) == live(old(address_space).translate_spec(a)),
            heap_ready(*old(address_space), frames@) ==> result is Ok,
    {
        proof {
            lemma_heap_page_canonical(KERNEL_HEAP_PAGE_COUNT as int);
        }
        if !KERNEL_HEAP_START.is_multiple_of(PAGE_SIZE) || !KERNEL_HEAP_END.is_multiple_of(PAGE_SIZE)
            || KERNEL_HEAP_START >= KERNEL_HEAP_END || !is_canonical(KERNEL_HEAP_GUARD_HIGH) {
            return Err(HeapMappingError::InvalidHeapRange);
        }
        match address_space.translate(KERNEL_HEAP_GUARD_LOW) {
            Err(e) => return Err(HeapMappingError::Paging(e)),
            Ok(Some(_)) => return Err(HeapMappingError::GuardPageMapped),
            Ok(None) => {},
        }
        match address_space.translate(KERNEL_HEAP_GUARD_HIGH) {
            Err(e) => return Err(HeapMappingError::Paging(e)),
            Ok(Some(_)) => return Err(HeapMappingError::GuardPageMapped),
            Ok(None) => {},
        }
        let ghost orig = *address_space;
        let ghost ready = heap_ready(orig, frames@);
        let mut index: usize = 0;
        while index < KERNEL_HEAP_PAGE_COUNT
            invariant
                ready == heap_ready(orig, frames@),
                ready ==> forall|j: int|
                    index <= j < KERNEL_HEAP_PAGE_COUNT ==> #[trigger] address_space.translate_spec(
                        heap_page(j),
                    ) == Ok::<Option<Translation>, PagingError>(None),
                ready ==> forall|j: int|
                    0 <= j < index ==> #[trigger] address_space.translate_spec(heap_page(j)) == Ok::<
                        Option<Translation>,
                        PagingError,
                    >(Some(mapped_translation(frames@[j], rw_nx(), heap_page(j)))),
                ready && index > 0 ==> path_present(*address_space, heap_page(index - 1)),
                ready && index == 0 ==> address_space.fresh_pool_pages(3) || path_present(
                    *address_space,
                    heap_page(0),
                ),
                index <= KERNEL_HEAP_PAGE_COUNT,
                self.wf(),
                self.spec_mapped_count() == index,
                forall|j: int| 0 <= j < index ==> #[trigger] self.frames()[j] == frames@[j],
                index <= frames@.len(),
                address_space.wf(),
                address_space.spec_root() == orig.spec_root(),
                address_space.spec_width() == orig.spec_width(),
                heap_prefix_ok(*address_space, orig, index as int),
                orig == *old(address_space),
                guard_failure(orig.translate_spec(KERNEL_HEAP_GUARD_LOW)) is None,
                guard_failure(orig.translate_spec(KERNEL_HEAP_GUARD_HIGH)) is None,
            decreases KERNEL_HEAP_PAGE_COUNT - index,
        {
            if index >= frames.len() {
                let _ = self.rollback(address_space, Ghost(orig));
                return Err(HeapMappingError::PhysicalAllocation);
            }
            let ghost before = *address_space;
            proof {
                if ready {
                    assert(frame_result(frames@[index as int], orig.spec_width()) is Ok);
                    if index > 0 {
                        lemma_heap_upper_shared(index as int);
                        lemma_heap_upper_shared(index - 1);
                        lemma_upper_shared(*address_space, heap_page(index as int), heap_page(index - 1));
                    }
                }
            }
            match self.map_heap_page(address_space, index, frames[index], Ghost(orig)) {
                Ok(()) => {},
                Err(e) => return Err(e),
            }
            proof {
                if ready {
                    assert forall|j: int|
                        index + 1 <= j < KERNEL_HEAP_PAGE_COUNT implies #[trigger] address_space.translate_spec(
                            heap_page(j),
                        ) == Ok::<Option<Translation>, PagingError>(None) by {
                        lemma_heap_pages_apart(j, index as int);
                        assert(before.translate_spec(heap_page(j)) == Ok::<Option<Translation>, PagingError>(None));
                    }
                    assert forall|j: int|
                        0 <= j < index + 1 implies #[trigger] address_space.translate_spec(heap_page(j))
                            == Ok::<Option<Translation>, PagingError>(
                            Some(mapped_translation(frames@[j], rw_nx(), heap_page(j))),
                        ) by {
                        if j < index {
                            lemma_heap_pages_apart(j, index as int);
                            assert(before.translate_spec(heap_page(j)) == Ok::<Option<Translation>, PagingError>(
                                Some(mapped_translation(frames@[j], rw_nx(), heap_page(j))),
                            ));
                        }
                    }
                }
            }
            index += 1;
        }
        proof {
            if ready {
                let space = *address_space;
                let fr = self.frames();
                assert forall|j: int| 0 <= j < KERNEL_HEAP_PAGE_COUNT implies !same_slots(
                    KERNEL_HEAP_GUARD_LOW,
                    #[trigger] heap_page(j),
                ) && !same_slots(KERNEL_HEAP_GUARD_HIGH, heap_page(j)) by {
                    lemma_heap_page_canonical(j);
                    lemma_pages_apart(KERNEL_HEAP_GUARD_LOW, heap_page(j));
                    lemma_pages_apart(KERNEL_HEAP_GUARD_HIGH, heap_page(j));
                }
                assert(!in_heap_slots(KERNEL_HEAP_GUARD_LOW, KERNEL_HEAP_PAGE_COUNT as int));
                assert(!in_heap_slots(KERNEL_HEAP_GUARD_HIGH, KERNEL_HEAP_PAGE_COUNT as int));
                assert forall|j: int| 0 <= j < KERNEL_HEAP_PAGE_COUNT implies #[trigger] page_failure(
                    space,
                    j,
                    fr[j],
                ) is None by {
                    let f = frames@[j];
                    assert(fr[j] == f);
                    assert(frame_result(f, orig.spec_width()) is Ok);
                    lemma_heap_page_canonical(j);
                    lemma_slots_of_page(heap_page(j));
                    lemma_slots_of_page(f);
                    assert(space.translate_spec(heap_page(j)) == Ok::<Option<Translation>, PagingError>(
                        Some(mapped_translation(f, rw_nx(), heap_page(j))),
                    ));
                }
                lemma_no_failure_from(space, fr, KERNEL_HEAP_PAGE_COUNT as int, 0);
            }
        }
        if self.validate(address_space).is_err() {
            if !self.rollback(address_space, Ghost(orig)) {
                return Err(HeapMappingError::RollbackFailed);
            }
            return Err(HeapMappingError::MappingValidationFailed);
        }
        proof {
            assert forall|a: u64|
                !in_heap_slots(a, KERNEL_HEAP_PAGE_COUNT as int) implies #[trigger] address_space.translate_spec(a)
                    == orig.translate_spec(a) by {}
        }
        Ok(())
    }

    /// Maps heap page `index` to `physical` and records it; on failure
    /// unmaps the pages mapped before it.
    fn map_heap_page(
        &mut self,
        address_space: &mut ActiveAddressSpace,
        index: usize,
        physical: u64,
        Ghost(orig): Ghost<ActiveAddressSpace>,
    ) -> (result: Result<(), HeapMappingError>)
        requires
            index < KERNEL_HEAP_PAGE_COUNT,
            old(self).wf(),
            old(self).spec_mapped_count() == index,
            old(address_space).wf(),
            old(address_space).spec_root() == orig.spec_root(),
            old(address_space).spec_width() == orig.spec_width(),
            heap_prefix_ok(*old(address_space), orig, index as int),
        ensures
            final(self).wf(),
            final(address_space).wf(),
            final(address_space).spec_root() == orig.spec_root(),
            final(address_space).spec_width() == orig.spec_width(),
            result is Ok ==> {
                &&& final(self).spec_mapped_count() == index + 1
                &&& final(self).frames() == old(self).frames().update(index as int, physical)
                &&& heap_prefix_ok(*final(address_space), orig, index + 1)
            },
            result is Err ==> final(self).spec_mapped_count() == 0 && forall|a: u64|
                #[trigger] live(final(address_space).translate_spec(a)) == live(orig.translate_spec(a)),
            result != Err::<(), HeapMappingError>(HeapMappingError::PhysicalAllocation),
            old(address_space).translate_spec(heap_page(index as int)) == Ok::<
                Option<Translation>,
                PagingError,
            >(None) && frame_result(physical, old(address_space).spec_width()) is Ok && (old(
                address_space,
            ).fresh_pool_pages(3) || path_present(*old(address_space), heap_page(index as int)))
                ==> result is Ok,
            result is Ok ==> path_present(*final(address_space), heap_page(index as int)),
            result is Ok ==> forall|a: u64|
                !same_slots(a, heap_page(index as int)) ==> #[trigger] final(address_space).translate_spec(a)
                    == old(address_space).translate_spec(a),
            result is Ok ==> final(address_space).translate_spec(heap_page(index as int)) == Ok::<
                Option<Translation>,
                PagingError,
            >(Some(mapped_translation(physical, rw_nx(), heap_page(index as int)))),
    {
        self.physical_pages[index] = physical;
        let virtual_address = KERNEL_HEAP_START + (index as u64) * PAGE_SIZE;
        proof {
            assert(virtual_address == heap_page(index as int));
            lemma_heap_page_canonical(index as int);
        }
        let frame = match PhysicalFrame::new(physical, address_space.width()) {
            Ok(f) => f,
            Err(e) => {
                self.physical_pages[index] = 0;
                let _ = self.rollback(address_space, Ghost(orig));
                return Err(HeapMappingError::Paging(e));
            },
        };
        let page = match VirtualPage::new(virtual_address) {
            Ok(p) => p,
            Err(e) => {
                self.physical_pages[index] = 0;
                let _ = self.rollback(address_space, Ghost(orig));
                return Err(HeapMappingError::Paging(e));
            },
        };
        let ghost before = *address_space;
        proof {
            lemma_slots_of_page(virtual_address);
        }
        let outcome = address_space.map_page(page, frame, MappingPermissions::kernel_rw_nx());
        match outcome {
            Ok(MapOutcome::Created) => {},
            Ok(_) => {
                self.physical_pages[index] = 0;
                assert forall|a: u64| #[trigger] address_space.translate_spec(a) == before.translate_spec(a) by {}
                let _ = self.rollback(address_space, Ghost(orig));
                return Err(HeapMappingError::MappingValidationFailed);
            },
            Err(e) => {
                self.physical_pages[index] = 0;
                if !self.rollback(address_space, Ghost(orig)) {
                    return Err(HeapMappingError::RollbackFailed);
                }
                return Err(HeapMappingError::Paging(e));
            },
        }
        proof {
            let p = heap_page(index as int);
            assert forall|a: u64, j: int|
                0 <= j < index + 1 && same_slots(a, #[trigger] heap_page(j)) implies !(
                #[trigger] orig.translate_spec(a) matches Ok(Some(_))) by {
                if j == index {
                    if in_heap_slots(a, index as int) {
                        let k = choose|k: int| 0 <= k < index && same_slots(a, #[trigger] heap_page(k));
                        lemma_heap_pages_apart(k, index as int);
                    }
                    assert(before.translate_spec(a) == orig.translate_spec(a));
                }
            }
            assert forall|a: u64| !in_heap_slots(a, index + 1) implies #[trigger] address_space.translate_spec(a)
                == orig.translate_spec(a) by {
                if same_slots(a, p) {
                    assert(in_heap_slots(a, index + 1));
                }
                if in_heap_slots(a, index as int) {
                    let k = choose|k: int| 0 <= k < index && same_slots(a, #[trigger] heap_page(k));
                    assert(in_heap_slots(a, index + 1));
                }
            }
            assert forall|j: int| 0 <= j < index + 1 implies (#[trigger] address_space.translate_spec(
                heap_page(j),
            )) matches Ok(Some(_)) by {
                if j < index {
                    lemma_heap_pages_apart(j, index as int);
                } else {
                    lemma_slots_of_page(p);
                }
            }
        }
        self.mapped_count = index + 1;
        Ok(())
    }

    /// Unmaps the mapped heap pages from the last down and forgets their
    /// frames; whether every unmap succeeded.
    fn rollback(&mut self, address_space: &mut ActiveAddressSpace, Ghost(orig): Ghost<ActiveAddressSpace>) -> (success: bool)
        requires
            old(self).wf(),
            old(address_space).wf(),
            old(address_space).spec_root() == orig.spec_root(),
            old(address_space).spec_width() == orig.spec_width(),
            heap_prefix_ok(*old(address_space), orig, old(self).spec_mapped_count() as int),
        ensures
            final(self).wf(),
            final(self).spec_mapped_count() == 0,
            final(address_space).wf(),
            final(address_space).spec_root() == orig.spec_root(),
            final(address_space).spec_width() == orig.spec_width(),
            success,
            forall|a: u64| #[trigger] live(final(address_space).translate_spec(a)) == live(orig.translate_spec(a)),
    {
        let ghost count = self.mapped_count as int;
        let mut success = true;
        while self.mapped_count > 0
            invariant
                self.wf(),
                address_space.wf(),
                address_space.spec_root() == orig.spec_root(),
                address_space.spec_width() == orig.spec_width(),
                self.mapped_count <= count <= KERNEL_HEAP_PAGE_COUNT,
                success,
                forall|a: u64|
                    !in_heap_slots(a, count) ==> #[trigger] address_space.translate_spec(a)
                        == orig.translate_spec(a),
                forall|a: u64, j: int|
                    0 <= j < count && same_slots(a, #[trigger] heap_page(j)) ==> !(
                    #[trigger] orig.translate_spec(a) matches Ok(Some(_))),
                forall|j: int|
                    0 <= j < self.mapped_count ==> (#[trigger] address_space.translate_spec(
                        heap_page(j),
                    )) matches Ok(Some(_)),
                forall|a: u64, j: int|
                    self.mapped_count <= j < count && same_slots(a, #[trigger] heap_page(j)) ==> !(
                    #[trigger] address_space.translate_spec(a) matches Ok(Some(_))),
            decreases self.mapped_count,
        {
            let index = self.mapped_count - 1;
            let virtual_address = KERNEL_HEAP_START + (index as u64) * PAGE_SIZE;
            let ghost before = *address_space;
            proof {
                assert(virtual_address == heap_page(index as int));
                lemma_heap_page_canonical(index as int);
                assert(address_space.translate_spec(heap_page(index as int)) matches Ok(Some(_)));
                lemma_clear_returns_translated_frame(
                    address_space.table_pages(),
                    address_space.spec_root(),
                    address_space.spec_width(),
                    virtual_address,
                );
            }
            match VirtualPage::new(virtual_address) {
                Ok(page) => {
                    assert(page.0.0 == virtual_address);
                    assert(before.clear_spec(virtual_address) is Ok);
                    let unmapped = address_space.unmap_page(page);
                    assert(unmapped is Ok);
                    if unmapped.is_err() {
                        success = false;
                    }
                },
                Err(_) => success = false,
            }
            proof {
                let p = heap_page(index as int);
                assert forall|j: int| 0 <= j < index implies (#[trigger] address_space.translate_spec(
                    heap_page(j),
                )) matches Ok(Some(_)) by {
                    lemma_heap_pages_apart(j, index as int);
                    assert(address_space.translate_spec(heap_page(j)) == before.translate_spec(heap_page(j)));
                }
                assert forall|a: u64| !in_heap_slots(a, count) implies #[trigger] address_space.translate_spec(a)
                    == orig.translate_spec(a) by {
                    if same_slots(a, p) {
                        assert(in_heap_slots(a, count));
                    }
                    assert(before.translate_spec(a) == orig.translate_spec(a));
                }
                assert forall|a: u64, j: int|
                    index <= j < count && same_slots(a, #[trigger] heap_page(j)) implies !(
                    #[trigger] address_space.translate_spec(a) matches Ok(Some(_))) by {
                    if !same_slots(a, p) {
                        assert(address_space.translate_spec(a) == before.translate_spec(a));
                    }
                }
            }
            self.physical_pages[index] = 0;
            self.mapped_count = index;
        }
        proof {
            assert forall|a: u64| #[trigger] live(address_space.translate_spec(a)) == live(orig.translate_spec(a)) by {
                if in_heap_slots(a, count) {
                    let j = choose|j: int| 0 <= j < count && same_slots(a, #[trigger] heap_page(j));
                    assert(!(orig.translate_spec(a) matches Ok(Some(_))));
                    assert(!(address_space.translate_spec(a) matches Ok(Some(_))));
                }
            }
        }
        success
    }
}

/// What mapping the first `k` heap pages keeps: every other walk is the one
/// of `orig`, no walk through those pages had a translation in `orig`, and
/// each of them is mapped now.
pub open spec fn heap_prefix_ok(space: ActiveAddressSpace, orig: ActiveAddressSpace, k: int) -> bool {
    &&& forall|a: u64| !in_heap_slots(a, k) ==> #[trigger] space.translate_spec(a) == orig.translate_spec(a)
    &&& forall|a: u64, j: int|
        0 <= j < k && same_slots(a, #[trigger] heap_page(j)) ==> !(
        #[trigger] orig.translate_spec(a) matches Ok(Some(_)))
    &&& forall|j: int| 0 <= j < k ==> (#[trigger] space.translate_spec(heap_page(j))) matches Ok(Some(_))
}

} // verus!
