//! x86-64 external interrupt policy: fixed vectors, frame validation, and
//! attribution of an interrupted stack pointer to a published task stack.
use vstd::prelude::*;
use crate::task::{TaskId, MAX_TASKS};
use crate::x86_64::gdt::{KERNEL_CODE_SELECTOR, KERNEL_DATA_SELECTOR};
use crate::x86_64::paging::{canonical, is_canonical};

verus! {

/// First legacy PIC vector.
pub const PIC_VECTOR_START: u8 = 0x20;
/// Last legacy PIC vector.
pub const PIC_VECTOR_END: u8 = 0x2f;
/// BSP local APIC timer vector.
pub const TIMER_VECTOR: u8 = 0x40;
/// BSP local APIC spurious vector.
pub const SPURIOUS_VECTOR: u8 = 0xff;
/// Ring-0 interrupt gate with IST zero.
pub const EXTERNAL_GATE_IST: u8 = 0;
/// Dedicated ring-0 diagnostic software interrupt vector.
pub const PREEMPTION_TEST_VECTOR: u8 = 0x41;
/// Bytes of the saved general-purpose registers.
pub const GPR_PREFIX_SIZE: u64 = 120;
/// Bytes of the software vector and synthetic error code.
pub const SOFTWARE_PREFIX_SIZE: u64 = 16;
/// Bytes of the CPU's CPL0 return fields (RIP, CS, RFLAGS).
pub const HARDWARE_RETURN_SIZE: u64 = 24;
/// Bytes of the `iretq`-interpreted frame through the saved SS.
pub const IRET_FRAME_SIZE: u64 = 176;
/// Bytes of the complete hardware footprint including its alignment slot.
pub const FRAME_SIZE: u64 = 184;

/// Errors from stack-derived task attribution.
#[derive(Clone, Copy, Debug, PartialEq, Eq, Structural)]
pub enum AttributionError {
    NoncanonicalRsp,
    NoMatch,
    MultipleMatch,
    UnstablePublication,
    InvalidGeneration,
    FrameOutsideStack,
    InvalidFrame,
    AlreadyPublished,
}

/// A stable copy of one published task-stack interval.
#[derive(Clone, Copy, Debug, PartialEq, Eq, Structural)]
pub struct PublishedStackInfo {
    /// Generation-tagged task identity.
    pub task_id: TaskId,
    /// Inclusive lower publication boundary.
    pub start: u64,
    /// Exclusive upper publication boundary.
    pub end: u64,
}

/// Errors validating an interrupt frame before dispatch.
#[derive(Clone, Copy, Debug, PartialEq, Eq, Structural)]
pub enum FrameValidationError {
    Null,
    NoncanonicalFrame,
    MisalignedFrame,
    AddressOverflow,
    InvalidFields,
    NoncanonicalRsp,
}

/// One slot of the publication table.
#[derive(Clone, Copy, Debug, PartialEq, Eq, Structural)]
pub struct PublishedTaskStack {
    pub active: bool,
    pub generation: u32,
    pub start: u64,
    pub end: u64,
}

impl PublishedTaskStack {
    /// An inactive slot.
    pub fn empty() -> (p: PublishedTaskStack)
        ensures
            p == (PublishedTaskStack { active: false, generation: 0, start: 0, end: 0 }),
    {
        PublishedTaskStack { active: false, generation: 0, start: 0, end: 0 }
    }
}

/// Whether slot `p` claims `rsp`: active, with `start < rsp <= end`.
pub open spec fn claims(p: PublishedTaskStack, rsp: u64) -> bool {
    p.active && p.start < rsp && rsp <= p.end
}

/// The stack intervals published for interrupt-time attribution, one per task slot.
pub struct PublishedStacks {
    slots: Vec<PublishedTaskStack>,
}

impl View for PublishedStacks {
    type V = Seq<PublishedTaskStack>;

    closed spec fn view(&self) -> Seq<PublishedTaskStack> {
        self.slots@
    }
}

/// The outcome of attributing `rsp` against publication slots `s`.
pub open spec fn attribution(s: Seq<PublishedTaskStack>, rsp: u64) -> Result<
    PublishedStackInfo,
    AttributionError,
> {
    if !canonical(rsp) {
        Err(AttributionError::NoncanonicalRsp)
    } else if !exists|i: int| 0 <= i < s.len() && claims(#[trigger] s[i], rsp) {
        Err(AttributionError::NoMatch)
    } else if exists|i: int, j: int|
        0 <= i < j < s.len() && claims(#[trigger] s[i], rsp) && claims(#[trigger] s[j], rsp) {
        Err(AttributionError::MultipleMatch)
    } else {
        let i = choose|i: int| 0 <= i < s.len() && claims(#[trigger] s[i], rsp);
        Ok(
            PublishedStackInfo {
                task_id: TaskId { slot: i as u8, generation: s[i].generation },
                start: s[i].start,
                end: s[i].end,
            },
        )
    }
}

/// Publishing task `id`'s stack `start..end` makes attribution give `id`
/// for a canonical stack pointer exactly when it lies in `(start, end]`,
/// as long as no other active publication holds that pointer.
pub proof fn lemma_publication_attribution(
    before: Seq<PublishedTaskStack>,
    id: TaskId,
    start: u64,
    end: u64,
    x: u64,
)
    requires
        before.len() == MAX_TASKS,
        id.generation != 0,
        (id.slot as usize) < MAX_TASKS,
        start < end,
        canonical(x),
        forall|i: int| 0 <= i < MAX_TASKS && i != id.slot ==> !claims(#[trigger] before[i], x),
    ensures
        ({
            let after = before.update(
                id.slot as int,
                PublishedTaskStack { active: true, generation: id.generation, start, end },
            );
            &&& start < x <= end ==> attribution(after, x) == Ok::<PublishedStackInfo, AttributionError>(
                PublishedStackInfo { task_id: id, start, end },
            )
            &&& !(start < x <= end) ==> attribution(after, x) == Err::<
                PublishedStackInfo,
                AttributionError,
            >(AttributionError::NoMatch)
        }),
{
    let after = before.update(
        id.slot as int,
        PublishedTaskStack { active: true, generation: id.generation, start, end },
    );
    let k = id.slot as int;
    assert forall|i: int| 0 <= i < after.len() && i != k implies !claims(#[trigger] after[i], x) by {
        assert(after[i] == before[i]);
    }
    if start < x <= end {
        assert(claims(after[k], x));
        assert(!exists|a: int, b: int|
            0 <= a < b < after.len() && claims(#[trigger] after[a], x) && claims(#[trigger] after[b], x));
        let c = choose|i: int| 0 <= i < after.len() && claims(#[trigger] after[i], x);
        assert(c == k);
    } else {
        assert(!claims(after[k], x));
        assert(!exists|i: int| 0 <= i < after.len() && claims(#[trigger] after[i], x));
    }
}

impl PublishedStacks {
    /// Well-formedness: one slot per task, and every active slot has a
    /// non-zero generation and a non-empty interval.
    pub open spec fn wf(&self) -> bool {
        &&& self@.len() == MAX_TASKS
        &&& forall|i: int|
            0 <= i < self@.len() && (#[trigger] self@[i]).active ==> self@[i].generation != 0
                && self@[i].start < self@[i].end
    }

    /// A table with every slot inactive.
    pub fn new() -> (t: PublishedStacks)
        ensures
            t.wf(),
            forall|i: int| 0 <= i < MAX_TASKS ==> !(#[trigger] t@[i]).active,
    {
        let mut slots: Vec<PublishedTaskStack> = Vec::new();
        let mut i: usize = 0;
        while i < MAX_TASKS
            invariant
                i <= MAX_TASKS,
                slots@.len() == i,
                forall|j: int| 0 <= j < i ==> !(#[trigger] slots@[j]).active,
            decreases MAX_TASKS - i,
        {
            slots.push(PublishedTaskStack::empty());
            i += 1;
        }
        PublishedStacks { slots }
    }

    /// Publishes the stack `start..end` of task `id`.
    pub fn publish_task_stack(&mut self, id: TaskId, start: u64, end: u64) -> (result: Result<
        (),
        AttributionError,
    >)
        requires
            old(self).wf(),
        ensures
            final(self).wf(),
            (id.generation == 0 || id.slot as usize >= MAX_TASKS || start >= end) ==> result
                == Err::<(), AttributionError>(AttributionError::InvalidGeneration) && final(self)@
                == old(self)@,
            !(id.generation == 0 || id.slot as usize >= MAX_TASKS || start >= end) ==> result
                == Ok::<(), AttributionError>(()) && final(self)@ == old(self)@.update(
                id.slot as int,
                PublishedTaskStack { active: true, generation: id.generation, start, end },
            ),
    {
        if id.generation() == 0 || id.slot() >= MAX_TASKS || start >= end {
            return Err(AttributionError::InvalidGeneration);
        }
        self.slots.set(
            id.slot(),
            PublishedTaskStack { active: true, generation: id.generation(), start, end },
        );
        Ok(())
    }

    /// Withdraws the publication in `slot_index` before slot reuse or reclamation.
    pub fn unpublish_task_stack(&mut self, slot_index: usize)
        requires
            old(self).wf(),
        ensures
            final(self).wf(),
            slot_index >= MAX_TASKS ==> final(self)@ == old(self)@,
            slot_index < MAX_TASKS ==> final(self)@ == old(self)@.update(
                slot_index as int,
                PublishedTaskStack { active: false, ..old(self)@[slot_index as int] },
            ),
    {
        if slot_index < self.slots.len() {
            let mut slot = self.slots[slot_index];
            slot.active = false;
            self.slots.set(slot_index, slot);
        }
    }

    /// Whether task `id` currently has an active publication with its generation.
    pub fn task_stack_published(&self, id: TaskId) -> (b: bool)
        requires
            self.wf(),
        ensures
            b == ((id.slot as usize) < MAX_TASKS && self@[id.slot as int].active
                && self@[id.slot as int].generation == id.generation),
    {
        if id.slot() >= self.slots.len() {
            return false;
        }
        let slot = self.slots[id.slot()];
        slot.active && slot.generation == id.generation()
    }

    /// The unique active publication whose interval `(start, end]` holds `rsp`.
    pub fn find_published_stack(&self, interrupted_rsp: u64) -> (result: Result<
        PublishedStackInfo,
        AttributionError,
    >)
        requires
            self.wf(),
        ensures
            result == attribution(self@, interrupted_rsp),
    {
        if !is_canonical(interrupted_rsp) {
            return Err(AttributionError::NoncanonicalRsp);
        }
        let ghost s = self@;
        let mut found: Option<usize> = None;
        let mut i: usize = 0;
        while i < self.slots.len()
            invariant
                s == self@,
                self.wf(),
                canonical(interrupted_rsp),
                i <= s.len(),
                found is None ==> forall|j: int| 0 <= j < i ==> !claims(#[trigger] s[j], interrupted_rsp),
                found matches Some(f) ==> f < i && claims(s[f as int], interrupted_rsp) && forall|
                    j: int,
                | 0 <= j < i && j != f ==> !claims(#[trigger] s[j], interrupted_rsp),
            decreases s.len() - i,
        {
            let slot = self.slots[i];
            if slot.active && slot.start < interrupted_rsp && interrupted_rsp <= slot.end {
                if let Some(f) = found {
                    assert(claims(s[f as int], interrupted_rsp) && claims(s[i as int], interrupted_rsp));
                    assert(exists|a: int, b: int|
                        0 <= a < b < s.len() && claims(#[trigger] s[a], interrupted_rsp) && claims(
                            #[trigger] s[b],
                            interrupted_rsp,
                        ));
                    return Err(AttributionError::MultipleMatch);
                }
                found = Some(i);
            }
            i += 1;
        }
        match found {
            None => Err(AttributionError::NoMatch),
            Some(f) => {
                let slot = self.slots[f];
                assert(claims(s[f as int], interrupted_rsp));
                assert(!exists|a: int, b: int|
                    0 <= a < b < s.len() && claims(#[trigger] s[a], interrupted_rsp) && claims(
                        #[trigger] s[b],
                        interrupted_rsp,
                    ));
                let ghost c = choose|j: int| 0 <= j < s.len() && claims(#[trigger] s[j], interrupted_rsp);
                assert(c == f as int);
                Ok(
                    PublishedStackInfo {
                        task_id: TaskId { slot: f as u8, generation: slot.generation },
                        start: slot.start,
                        end: slot.end,
                    },
                )
            },
        }
    }

    /// The task whose published stack holds `interrupted_rsp`.
    pub fn attribute_interrupted_rsp(&self, interrupted_rsp: u64) -> (result: Result<
        TaskId,
        AttributionError,
    >)
        requires
            self.wf(),
        ensures
            match attribution(self@, interrupted_rsp) {
                Ok(info) => result == Ok::<TaskId, AttributionError>(info.task_id),
                Err(e) => result == Err::<TaskId, AttributionError>(e),
            },
    {
        match self.find_published_stack(interrupted_rsp) {
            Ok(info) => Ok(info.task_id),
            Err(e) => Err(e),
        }
    }

    /// Checks that a complete frame at `frame_pointer` lies inside the
    /// publication selected by `interrupted_rsp`, below that stack pointer
    /// (the hardware pushes the frame onto the interrupted stack).
    pub fn validate_frame_stack(&self, frame_pointer: u64, interrupted_rsp: u64) -> (result:
        Result<PublishedStackInfo, AttributionError>)
        requires
            self.wf(),
        ensures
            match attribution(self@, interrupted_rsp) {
                Err(e) => result == Err::<PublishedStackInfo, AttributionError>(e),
                Ok(info) => if frame_pointer + FRAME_SIZE > u64::MAX || frame_pointer < info.start
                    || frame_pointer + FRAME_SIZE > info.end || frame_pointer + FRAME_SIZE
                    > interrupted_rsp {
                    result == Err::<PublishedStackInfo, AttributionError>(
                        AttributionError::FrameOutsideStack,
                    )
                } else {
                    result == Ok::<PublishedStackInfo, AttributionError>(info)
                },
            },
    {
        let publication = match self.find_published_stack(interrupted_rsp) {
            Ok(p) => p,
            Err(e) => return Err(e),
        };
        let frame_end = match frame_pointer.checked_add(FRAME_SIZE) {
            Some(v) => v,
            None => return Err(AttributionError::FrameOutsideStack),
        };
        if frame_pointer < publication.start || frame_end > publication.end || frame_end
            > interrupted_rsp {
            return Err(AttributionError::FrameOutsideStack);
        }
        Ok(publication)
    }
}

/// A copy of all general-purpose registers saved by an interrupt entry.
#[derive(Clone, Copy, Debug, PartialEq, Eq, Structural)]
pub struct SavedGeneralRegisters {
    pub rax: u64,
    pub rbx: u64,
    pub rcx: u64,
    pub rdx: u64,
    pub rsi: u64,
    pub rdi: u64,
    pub rbp: u64,
    pub r8: u64,
    pub r9: u64,
    pub r10: u64,
    pub r11: u64,
    pub r12: u64,
    pub r13: u64,
    pub r14: u64,
    pub r15: u64,
}

/// Diagnostic copy of the most recently captured interrupt.
#[derive(Clone, Copy, Debug, PartialEq, Eq, Structural)]
pub struct InterruptedTaskSnapshot {
    pub task_id: TaskId,
    pub frame_pointer: u64,
    pub returned_frame_pointer: u64,
    pub interrupted_rsp: u64,
    pub saved_rsp_field_address: u64,
    pub saved_ss: u64,
    pub rip: u64,
    pub cs: u64,
    pub rflags: u64,
    pub vector: u8,
    pub sequence: u64,
    pub registers: SavedGeneralRegisters,
}

/// The common frame built by the external-interrupt stubs, lowest address first.
#[derive(Clone, Copy, Debug, PartialEq, Eq, Structural)]
pub struct KernelInterruptFrame {
    pub rax: u64,
    pub rbx: u64,
    pub rcx: u64,
    pub rdx: u64,
    pub rsi: u64,
    pub rdi: u64,
    pub rbp: u64,
    pub r8: u64,
    pub r9: u64,
    pub r10: u64,
    pub r11: u64,
    pub r12: u64,
    pub r13: u64,
    pub r14: u64,
    pub r15: u64,
    pub vector: u64,
    pub error_code: u64,
    pub rip: u64,
    pub cs: u64,
    pub rflags: u64,
    pub saved_rsp: u64,
    pub saved_ss: u64,
    pub hardware_alignment: u64,
}

/// The vectors routed through the external-interrupt entry.
pub open spec fn dispatched_vector(vector: u64) -> bool {
    vector == TIMER_VECTOR as u64 || vector == SPURIOUS_VECTOR as u64 || vector
        == PREEMPTION_TEST_VECTOR as u64
}

/// The outcome of validating frame `f` found at `fp`.
pub open spec fn frame_validation(f: KernelInterruptFrame, fp: u64) -> Result<u64, FrameValidationError> {
    if fp == 0 {
        Err(FrameValidationError::Null)
    } else if !canonical(fp) {
        Err(FrameValidationError::NoncanonicalFrame)
    } else if fp % 8 != 0 {
        Err(FrameValidationError::MisalignedFrame)
    } else if fp + FRAME_SIZE > u64::MAX {
        Err(FrameValidationError::AddressOverflow)
    } else if !canonical((fp + FRAME_SIZE - 1) as u64) {
        Err(FrameValidationError::NoncanonicalFrame)
    } else if !dispatched_vector(f.vector) || f.error_code != 0 || f.cs
        != KERNEL_CODE_SELECTOR as u64 || !canonical(f.rip) || f.rflags & 2 == 0 || f.saved_ss
        != KERNEL_DATA_SELECTOR as u64 {
        Err(FrameValidationError::InvalidFields)
    } else if !canonical(f.saved_rsp) {
        Err(FrameValidationError::NoncanonicalRsp)
    } else {
        Ok(f.saved_rsp)
    }
}

/// A frame at an aligned canonical address whose fields are those of a
/// kernel interrupt (no error code, kernel code and stack selectors,
/// canonical return address and stack pointer, the reserved flag bit set)
/// is accepted with its saved stack pointer when its vector is the timer,
/// the spurious or the preemption-test vector, and only then.
pub proof fn lemma_kernel_frames_accepted(f: KernelInterruptFrame, fp: u64)
    requires
        fp != 0,
        canonical(fp),
        fp % 8 == 0,
        fp + FRAME_SIZE <= u64::MAX,
        canonical((fp + FRAME_SIZE - 1) as u64),
        f.error_code == 0,
        f.cs == KERNEL_CODE_SELECTOR as u64,
        canonical(f.rip),
        f.rflags & 2 != 0,
        f.saved_ss == KERNEL_DATA_SELECTOR as u64,
        canonical(f.saved_rsp),
    ensures
        f.vector == 0x40 ==> frame_validation(f, fp) == Ok::<u64, FrameValidationError>(f.saved_rsp),
        f.vector == 0xff ==> frame_validation(f, fp) == Ok::<u64, FrameValidationError>(f.saved_rsp),
        f.vector == 0x41 ==> frame_validation(f, fp) == Ok::<u64, FrameValidationError>(f.saved_rsp),
        f.vector != 0x40 && f.vector != 0xff && f.vector != 0x41 ==> frame_validation(f, fp) == Err::<
            u64,
            FrameValidationError,
        >(FrameValidationError::InvalidFields),
{
}

/// An accepted frame gives back its saved stack pointer and came through the
/// timer, spurious or preemption-test vector with kernel selectors.
pub proof fn lemma_accepted_frame_fields(f: KernelInterruptFrame, fp: u64)
    requires
        frame_validation(f, fp) is Ok,
    ensures
        frame_validation(f, fp) == Ok::<u64, FrameValidationError>(f.saved_rsp),
        f.vector == 0x40 || f.vector == 0xff || f.vector == 0x41,
        f.error_code == 0,
        f.cs == KERNEL_CODE_SELECTOR as u64,
        f.saved_ss == KERNEL_DATA_SELECTOR as u64,
        canonical(f.rip) && canonical(f.saved_rsp) && canonical(fp),
        f.rflags & 2 != 0,
        fp != 0 && fp % 8 == 0,
        fp + FRAME_SIZE <= u64::MAX && canonical((fp + FRAME_SIZE - 1) as u64),
{
}

impl KernelInterruptFrame {
    /// The interrupted CPL0 stack pointer from the hardware tail.
    pub fn interrupted_rsp(&self) -> (result: Result<u64, FrameValidationError>)
        ensures
            canonical(self.saved_rsp) ==> result == Ok::<u64, FrameValidationError>(self.saved_rsp),
            !canonical(self.saved_rsp) ==> result == Err::<u64, FrameValidationError>(
                FrameValidationError::NoncanonicalRsp,
            ),
    {
        if !is_canonical(self.saved_rsp) {
            return Err(FrameValidationError::NoncanonicalRsp);
        }
        Ok(self.saved_rsp)
    }

    /// Validates the complete frame found at `frame_pointer` and returns the
    /// interrupted stack pointer.
    pub fn validate(&self, frame_pointer: u64) -> (result: Result<u64, FrameValidationError>)
        ensures
            result == frame_validation(*self, frame_pointer),
            result is Ok ==> result == Ok::<u64, FrameValidationError>(self.saved_rsp) && (
            self.vector == 0x40 || self.vector == 0xff || self.vector == 0x41),
            frame_pointer != 0 && canonical(frame_pointer) && frame_pointer % 8 == 0 && frame_pointer
                + FRAME_SIZE <= u64::MAX && canonical((frame_pointer + FRAME_SIZE - 1) as u64)
                && self.error_code == 0 && self.cs == KERNEL_CODE_SELECTOR as u64 && canonical(
                self.rip,
            ) && self.rflags & 2 != 0 && self.saved_ss == KERNEL_DATA_SELECTOR as u64 && canonical(
                self.saved_rsp,
            ) && (self.vector == 0x40 || self.vector == 0xff || self.vector == 0x41) ==> result
                == Ok::<u64, FrameValidationError>(self.saved_rsp),
    {
        if frame_pointer == 0 {
            return Err(FrameValidationError::Null);
        }
        if !is_canonical(frame_pointer) {
            return Err(FrameValidationError::NoncanonicalFrame);
        }
        if frame_pointer % 8 != 0 {
            return Err(FrameValidationError::MisalignedFrame);
        }
        let frame_end = match frame_pointer.checked_add(FRAME_SIZE) {
            Some(v) => v,
            None => return Err(FrameValidationError::AddressOverflow),
        };
        if !is_canonical(frame_end - 1) {
            return Err(FrameValidationError::NoncanonicalFrame);
        }
        let v = self.vector;
        let vector_ok = v == TIMER_VECTOR as u64 || v == SPURIOUS_VECTOR as u64 || v
            == PREEMPTION_TEST_VECTOR as u64;
        if !vector_ok || self.error_code != 0 || self.cs != KERNEL_CODE_SELECTOR as u64
            || !is_canonical(self.rip) || self.rflags & 2 == 0 || self.saved_ss
            != KERNEL_DATA_SELECTOR as u64 {
            return Err(FrameValidationError::InvalidFields);
        }
        self.interrupted_rsp()
    }

    /// Whether the frame found at `frame_pointer` is valid.
    pub fn valid(&self, frame_pointer: u64) -> (b: bool)
        ensures
            b == frame_validation(*self, frame_pointer) is Ok,
    {
        self.validate(frame_pointer).is_ok()
    }
}

/// The saved general-purpose registers of a frame.
pub fn save_registers(frame: &KernelInterruptFrame) -> (r: SavedGeneralRegisters)
    ensures
        r == (SavedGeneralRegisters {
            rax: frame.rax,
            rbx: frame.rbx,
            rcx: frame.rcx,
            rdx: frame.rdx,
            rsi: frame.rsi,
            rdi: frame.rdi,
            rbp: frame.rbp,
            r8: frame.r8,
            r9: frame.r9,
            r10: frame.r10,
            r11: frame.r11,
            r12: frame.r12,
            r13: frame.r13,
            r14: frame.r14,
            r15: frame.r15,
        }),
{
    SavedGeneralRegisters {
        rax: frame.rax,
        rbx: frame.rbx,
        rcx: frame.rcx,
        rdx: frame.rdx,
        rsi: frame.rsi,
        rdi: frame.rdi,
        rbp: frame.rbp,
        r8: frame.r8,
        r9: frame.r9,
        r10: frame.r10,
        r11: frame.r11,
        r12: frame.r12,
        r13: frame.r13,
        r14: frame.r14,
        r15: frame.r15,
    }
}

/// The bounded diagnostic capture of one interrupted task.
#[derive(Clone, Copy, Debug, PartialEq, Eq, Structural)]
pub struct CaptureState {
    pub active: bool,
    pub captured: bool,
    pub vector: u8,
    pub task_slot: usize,
    pub task_generation: u32,
    pub sequence: u64,
    pub snapshot: InterruptedTaskSnapshot,
    pub timer_phase: bool,
    pub timer_observed: bool,
}

/// The low byte of a vector, or 255 when it does not fit a byte.
pub open spec fn vector_byte(vector: u64) -> u8 {
    if vector <= 255 {
        vector as u8
    } else {
        255
    }
}

impl CaptureState {
    /// No capture armed, nothing captured; the stored snapshot is all zero
    /// for the task in slot 0, generation 1.
    pub fn new() -> (c: CaptureState)
        ensures
            !c.active && !c.captured && c.sequence == 0 && !c.timer_phase && !c.timer_observed,
            c.vector == 255 && c.task_slot == usize::MAX,
            c.snapshot.task_id == (TaskId { slot: 0, generation: 1 }),
    {
        let registers = SavedGeneralRegisters {
            rax: 0,
            rbx: 0,
            rcx: 0,
            rdx: 0,
            rsi: 0,
            rdi: 0,
            rbp: 0,
            r8: 0,
            r9: 0,
            r10: 0,
            r11: 0,
            r12: 0,
            r13: 0,
            r14: 0,
            r15: 0,
        };
        let initial = InterruptedTaskSnapshot {
            task_id: TaskId { slot: 0, generation: 1 },
            frame_pointer: 0,
            returned_frame_pointer: 0,
            interrupted_rsp: 0,
            saved_rsp_field_address: 0,
            saved_ss: 0,
            rip: 0,
            cs: 0,
            rflags: 0,
            vector: 0,
            sequence: 0,
            registers,
        };
        CaptureState {
            active: false,
            captured: false,
            vector: 255,
            task_slot: usize::MAX,
            task_generation: 0,
            sequence: 0,
            snapshot: initial,
            timer_phase: false,
            timer_observed: false,
        }
    }

    /// Arms a capture of the next `vector` interrupt taken by `task_id`.
    pub fn begin_capture(&mut self, vector: u8, task_id: TaskId)
        ensures
            *final(self) == (CaptureState {
                active: true,
                captured: false,
                vector,
                task_slot: task_id.slot as usize,
                task_generation: task_id.generation,
                sequence: 0,
                ..*old(self)
            }),
    {
        self.sequence = 0;
        self.captured = false;
        self.vector = vector;
        self.task_slot = task_id.slot();
        self.task_generation = task_id.generation();
        self.active = true;
    }

    /// Disarms the capture; a later interrupt can no longer overwrite it.
    pub fn end_capture(&mut self)
        ensures
            *final(self) == (CaptureState { active: false, ..*old(self) }),
    {
        self.active = false;
    }

    /// Starts the real-timer observation phase for `task_id`.
    pub fn begin_timer_test(&mut self, task_id: TaskId)
        ensures
            final(self).timer_phase && !final(self).timer_observed,
            final(self).active && !final(self).captured && final(self).vector == TIMER_VECTOR,
            final(self).task_slot == task_id.slot as usize && final(self).task_generation
                == task_id.generation,
    {
        self.timer_observed = false;
        self.timer_phase = true;
        self.begin_capture(TIMER_VECTOR, task_id);
    }

    /// Ends the real-timer observation phase.
    pub fn end_timer_test(&mut self)
        ensures
            *final(self) == (CaptureState { timer_phase: false, active: false, ..*old(self) }),
    {
        self.timer_phase = false;
        self.end_capture();
    }

    /// Whether a real timer interrupt was captured during the phase.
    pub fn timer_test_observed(&self) -> (b: bool)
        ensures
            b == self.timer_observed,
    {
        self.timer_observed
    }

    /// Records a snapshot when the armed capture matches the frame's vector
    /// and task; the capture is then disarmed.
    pub fn record_snapshot(
        &mut self,
        frame: &KernelInterruptFrame,
        frame_pointer: u64,
        returned: u64,
        id: TaskId,
    ) -> (captured: bool)
        ensures
            captured == (old(self).active && old(self).vector == vector_byte(frame.vector)
                && old(self).task_slot == id.slot as usize && old(self).task_generation
                == id.generation),
            !captured ==> *final(self) == *old(self),
            captured ==> {
                &&& !final(self).active && final(self).captured
                &&& final(self).snapshot.task_id == id
                &&& final(self).snapshot.vector == vector_byte(frame.vector)
                &&& final(self).snapshot.frame_pointer == frame_pointer
                &&& final(self).snapshot.returned_frame_pointer == returned
                &&& final(self).snapshot.registers == save_registers_spec(*frame)
                &&& final(self).snapshot.sequence == saturating_next(old(self).sequence)
                &&& final(self).sequence == saturating_next(saturating_next(old(self).sequence))
            },
    {
        let vector = if frame.vector <= 255 {
            frame.vector as u8
        } else {
            255
        };
        if !self.active || self.vector != vector || self.task_slot != id.slot()
            || self.task_generation != id.generation() {
            return false;
        }
        self.active = false;
        let sequence = self.sequence.saturating_add(1);
        let interrupted_rsp = match frame.interrupted_rsp() {
            Ok(v) => v,
            Err(_) => 0,
        };
        let saved_rsp_field_address = match frame_pointer.checked_add(
            GPR_PREFIX_SIZE + SOFTWARE_PREFIX_SIZE + HARDWARE_RETURN_SIZE,
        ) {
            Some(v) => v,
            None => 0,
        };
        self.snapshot = InterruptedTaskSnapshot {
            task_id: id,
            frame_pointer,
            returned_frame_pointer: returned,
            interrupted_rsp,
            saved_rsp_field_address,
            saved_ss: frame.saved_ss,
            rip: frame.rip,
            cs: frame.cs,
            rflags: frame.rflags,
            vector,
            sequence,
            registers: save_registers(frame),
        };
        self.sequence = sequence.saturating_add(1);
        self.captured = true;
        if frame.vector == TIMER_VECTOR as u64 && self.timer_phase {
            self.timer_observed = true;
        }
        true
    }

    /// A stable copy of the captured snapshot, when one has been completed.
    pub fn snapshot_copy(&self) -> (s: Option<InterruptedTaskSnapshot>)
        ensures
            s == (if self.captured && self.sequence != 0 && self.sequence % 2 == 0 {
                Some(self.snapshot)
            } else {
                None
            }),
    {
        if !self.captured {
            return None;
        }
        if self.sequence == 0 || self.sequence % 2 != 0 {
            return None;
        }
        Some(self.snapshot)
    }

    /// The snapshot as seen from outside interrupt context; none inside it.
    pub fn snapshot(&self, in_interrupt_context: bool) -> (s: Option<InterruptedTaskSnapshot>)
        ensures
            in_interrupt_context ==> s.is_none(),
            !in_interrupt_context ==> s == (if self.captured && self.sequence != 0 && self.sequence
                % 2 == 0 {
                Some(self.snapshot)
            } else {
                None
            }),
    {
        if in_interrupt_context {
            return None;
        }
        self.snapshot_copy()
    }
}

/// Saturating successor of a sequence number.
pub open spec fn saturating_next(x: u64) -> u64 {
    if x == u64::MAX {
        u64::MAX
    } else {
        (x + 1) as u64
    }
}

/// The saved registers of a frame, as a value.
pub open spec fn save_registers_spec(frame: KernelInterruptFrame) -> SavedGeneralRegisters {
    SavedGeneralRegisters {
        rax: frame.rax,
        rbx: frame.rbx,
        rcx: frame.rcx,
        rdx: frame.rdx,
        rsi: frame.rsi,
        rdi: frame.rdi,
        rbp: frame.rbp,
        r8: frame.r8,
        r9: frame.r9,
        r10: frame.r10,
        r11: frame.r11,
        r12: frame.r12,
        r13: frame.r13,
        r14: frame.r14,
        r15: frame.r15,
    }
}

/// What the interrupt dispatcher does with a frame.
#[derive(Clone, Copy, Debug, PartialEq, Eq, Structural)]
pub enum DispatchOutcome {
    /// Return a null frame: the entry stub halts.
    Reject,
    /// Run the timer tick handler, then resume the frame.
    Timer(TaskId),
    /// Count the spurious interrupt, then resume the frame.
    Spurious(TaskId),
    /// The diagnostic software interrupt: resume the frame.
    PreemptionTest(TaskId),
}

/// Decides the dispatch of the frame `frame` found at `frame_pointer`:
/// every frame is validated and attributed before its vector is acted on.
pub fn dispatch_decision(
    stacks: &PublishedStacks,
    frame: &KernelInterruptFrame,
    frame_pointer: u64,
    context_entered: bool,
) -> (outcome: DispatchOutcome)
    requires
        stacks.wf(),
    ensures
        !context_entered ==> outcome == DispatchOutcome::Reject,
        context_entered ==> match frame_validation(*frame, frame_pointer) {
            Err(_) => outcome == DispatchOutcome::Reject,
            Ok(rsp) => match attribution(stacks@, rsp) {
                Err(_) => outcome == DispatchOutcome::Reject,
                Ok(info) => if frame_pointer < info.start || frame_pointer + FRAME_SIZE > info.end
                    || frame_pointer + FRAME_SIZE > rsp {
                    outcome == DispatchOutcome::Reject
                } else if frame.vector == TIMER_VECTOR as u64 {
                    outcome == DispatchOutcome::Timer(info.task_id)
                } else if frame.vector == SPURIOUS_VECTOR as u64 {
                    outcome == DispatchOutcome::Spurious(info.task_id)
                } else {
                    outcome == DispatchOutcome::PreemptionTest(info.task_id)
                },
            },
        },
{
    if !context_entered {
        return DispatchOutcome::Reject;
    }
    let rsp = match frame.validate(frame_pointer) {
        Ok(v) => v,
        Err(_) => return DispatchOutcome::Reject,
    };
    let publication = match stacks.validate_frame_stack(frame_pointer, rsp) {
        Ok(p) => p,
        Err(_) => return DispatchOutcome::Reject,
    };
    if frame.vector == TIMER_VECTOR as u64 {
        DispatchOutcome::Timer(publication.task_id)
    } else if frame.vector == SPURIOUS_VECTOR as u64 {
        DispatchOutcome::Spurious(publication.task_id)
    } else {
        DispatchOutcome::PreemptionTest(publication.task_id)
    }
}

} // verus!
