use core::mem::size_of;
use lib::task::TaskId;
use lib::x86_64::gdt::{KERNEL_CODE_SELECTOR, KERNEL_DATA_SELECTOR};
use lib::x86_64::interrupts::{
    AttributionError, CaptureState, FrameValidationError, KernelInterruptFrame,
    PublishedStackInfo, PublishedStacks, FRAME_SIZE, PIC_VECTOR_END, PREEMPTION_TEST_VECTOR,
    SPURIOUS_VECTOR, TIMER_VECTOR,
};

const FRAME_ADDRESS: u64 = 0xffff_8000_0010_0000;

fn timer_frame(rip: u64, saved_rsp: u64) -> KernelInterruptFrame {
    KernelInterruptFrame {
        rax: 0,
        rbx: 0,
        rcx: 0,
        rdx: 0,
        rsi: 0,
        rdi: 0,
        rbp: 0,
        r8: 0,
        r9: 0,
        r10: 0,
        r11: 0,
        r12: 0,
        r13: 0,
        r14: 0,
        r15: 0,
        vector: u64::from(TIMER_VECTOR),
        error_code: 0,
        rip,
        cs: u64::from(KERNEL_CODE_SELECTOR),
        rflags: 2,
        saved_rsp,
        saved_ss: u64::from(KERNEL_DATA_SELECTOR),
        hardware_alignment: 0,
    }
}

#[test]
fn policy_does_not_collide() {
    assert!(PIC_VECTOR_END < TIMER_VECTOR);
    assert!((0..=0x1f).all(|v| v != TIMER_VECTOR));
    assert_ne!(TIMER_VECTOR, SPURIOUS_VECTOR);
}

#[test]
fn interrupt_frame_is_twenty_three_aligned_words() {
    assert_eq!(size_of::<KernelInterruptFrame>(), 23 * 8);
    assert_eq!(core::mem::align_of::<KernelInterruptFrame>(), 8);
    assert_eq!(FRAME_SIZE, 23 * 8);
}

#[test]
fn attribution_uses_published_stack_boundaries() {
    let mut stacks = PublishedStacks::new();
    let id = TaskId::new(2, 7).unwrap();
    stacks.publish_task_stack(id, 0x1000, 0x2000).unwrap();
    assert_eq!(stacks.attribute_interrupted_rsp(0x1001), Ok(id));
    assert_eq!(stacks.attribute_interrupted_rsp(0x2000), Ok(id));
    assert_eq!(stacks.attribute_interrupted_rsp(0x1000), Err(AttributionError::NoMatch));
    assert_eq!(stacks.attribute_interrupted_rsp(0x0fff), Err(AttributionError::NoMatch));
    assert_eq!(
        stacks.attribute_interrupted_rsp(0xffff_8000_0000_0000),
        Err(AttributionError::NoMatch)
    );
    stacks.unpublish_task_stack(id.slot());
}

#[test]
fn attribution_rejects_overlap_and_noncanonical_addresses() {
    let mut stacks = PublishedStacks::new();
    let first = TaskId::new(4, 8).unwrap();
    let second = TaskId::new(5, 9).unwrap();
    stacks.publish_task_stack(first, 0x3000, 0x4000).unwrap();
    stacks.publish_task_stack(second, 0x3800, 0x4800).unwrap();
    assert_eq!(
        stacks.attribute_interrupted_rsp(0x3900),
        Err(AttributionError::MultipleMatch)
    );
    assert_eq!(
        stacks.attribute_interrupted_rsp(0x0001_0000_0000_0000),
        Err(AttributionError::NoncanonicalRsp)
    );
    stacks.unpublish_task_stack(first.slot());
    stacks.unpublish_task_stack(second.slot());
}

#[test]
fn frame_validation_rejects_contract_violations() {
    let mut frame = timer_frame(0x1000, 0x1100);
    assert!(frame.valid(FRAME_ADDRESS));
    frame.cs |= 3;
    assert!(!frame.valid(FRAME_ADDRESS));
    frame.cs &= !3;
    frame.rflags = 0;
    assert!(!frame.valid(FRAME_ADDRESS));
    frame.rflags = 2;
    frame.error_code = 1;
    assert!(!frame.valid(FRAME_ADDRESS));
    frame.error_code = 0;
    frame.vector = 0x20;
    assert!(!frame.valid(FRAME_ADDRESS));
}

#[test]
fn frame_tail_extracts_saved_rsp_and_validates_ss() {
    let mut frame = timer_frame(0x2000, 0x8000);
    assert_eq!(frame.interrupted_rsp(), Ok(0x8000));
    assert!(frame.valid(FRAME_ADDRESS));
    frame.saved_rsp = 0x0001_0000_0000_0000;
    assert!(!frame.valid(FRAME_ADDRESS));
    frame.saved_rsp = 0x8000;
    frame.saved_ss = 0;
    assert!(!frame.valid(FRAME_ADDRESS));
}

#[test]
fn frame_pointer_must_be_a_canonical_aligned_address() {
    let frame = timer_frame(0x2000, 0x8000);
    assert_eq!(frame.validate(0), Err(FrameValidationError::Null));
    assert_eq!(frame.validate(FRAME_ADDRESS + 4), Err(FrameValidationError::MisalignedFrame));
    assert_eq!(
        frame.validate(0x0001_0000_0000_0000),
        Err(FrameValidationError::NoncanonicalFrame)
    );
    assert_eq!(
        frame.validate(0x0000_ffff_ffff_fff8),
        Err(FrameValidationError::NoncanonicalFrame)
    );
    assert_eq!(frame.validate(u64::MAX - 7), Err(FrameValidationError::AddressOverflow));
    assert_eq!(frame.validate(FRAME_ADDRESS), Ok(0x8000));
}

#[test]
fn complete_frame_bounds_use_the_hardware_footprint() {
    let mut stacks = PublishedStacks::new();
    let id = TaskId::new(6, 3).unwrap();
    stacks.publish_task_stack(id, 0x1000, 0x2000).unwrap();
    assert_eq!(
        stacks.validate_frame_stack(0x1000, 0x1000 + FRAME_SIZE),
        Ok(PublishedStackInfo { task_id: id, start: 0x1000, end: 0x2000 })
    );
    assert_eq!(
        stacks.validate_frame_stack(0x1f00, 0x1f00),
        Err(AttributionError::FrameOutsideStack)
    );
    stacks.unpublish_task_stack(id.slot());
}

#[test]
fn publication_is_withdrawn_and_rejects_invalid_identities() {
    let mut stacks = PublishedStacks::new();
    let id = TaskId::new(1, 2).unwrap();
    assert_eq!(
        stacks.publish_task_stack(id, 0x2000, 0x2000),
        Err(AttributionError::InvalidGeneration)
    );
    stacks.publish_task_stack(id, 0x1000, 0x2000).unwrap();
    assert!(stacks.task_stack_published(id));
    assert!(!stacks.task_stack_published(TaskId::new(1, 3).unwrap()));
    stacks.unpublish_task_stack(id.slot());
    assert!(!stacks.task_stack_published(id));
    assert_eq!(stacks.attribute_interrupted_rsp(0x1800), Err(AttributionError::NoMatch));
}

#[test]
fn phase_capture_is_frozen_until_explicitly_started_again() {
    let mut capture = CaptureState::new();
    let id = TaskId::new(7, 4).unwrap();
    capture.begin_capture(PREEMPTION_TEST_VECTOR, id);
    capture.end_capture();
    assert!(capture.snapshot(false).is_none());
}

#[test]
fn capture_records_only_the_armed_vector_and_task() {
    let mut capture = CaptureState::new();
    let id = TaskId::new(3, 5).unwrap();
    let mut frame = timer_frame(0x4000, 0x8000);
    frame.vector = u64::from(PREEMPTION_TEST_VECTOR);
    frame.rax = 0xaa;
    assert!(!capture.record_snapshot(&frame, FRAME_ADDRESS, FRAME_ADDRESS, id));
    capture.begin_capture(PREEMPTION_TEST_VECTOR, id);
    assert!(!capture.record_snapshot(&frame, FRAME_ADDRESS, FRAME_ADDRESS, TaskId::new(3, 6).unwrap()));
    assert!(capture.record_snapshot(&frame, FRAME_ADDRESS, FRAME_ADDRESS, id));
    assert!(capture.snapshot(true).is_none());
    let snapshot = capture.snapshot(false).unwrap();
    assert_eq!(snapshot.task_id, id);
    assert_eq!(snapshot.registers.rax, 0xaa);
    assert_eq!(snapshot.interrupted_rsp, 0x8000);
    assert_eq!(snapshot.sequence, 1);
    assert!(!capture.record_snapshot(&frame, FRAME_ADDRESS, FRAME_ADDRESS, id));
}
