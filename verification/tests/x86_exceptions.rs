use lib::x86_64::exceptions::{
    dispatch_action, error_code_vectors, has_error_code, ExceptionAction, ExceptionFrame,
    ExceptionTestMonitor, PageFaultErrorCode, TestState, VECTOR_BREAKPOINT, VECTOR_DOUBLE_FAULT,
    VECTOR_GENERAL_PROTECTION, VECTOR_INVALID_OPCODE, VECTOR_PAGE_FAULT,
};

#[test]
fn error_code_vectors_include_double_fault() {
    assert!(error_code_vectors().contains(&VECTOR_DOUBLE_FAULT));
    assert!(error_code_vectors().contains(&VECTOR_GENERAL_PROTECTION));
    assert!(error_code_vectors().contains(&VECTOR_PAGE_FAULT));
}

#[test]
fn breakpoint_vector_has_no_error_code() {
    assert!(!error_code_vectors().contains(&VECTOR_BREAKPOINT));
}

#[test]
fn invalid_opcode_vector_has_no_error_code() {
    assert!(!error_code_vectors().contains(&VECTOR_INVALID_OPCODE));
}

#[test]
fn exception_frame_is_twenty_words() {
    assert_eq!(core::mem::size_of::<ExceptionFrame>(), 8 * 20);
}

#[test]
fn breakpoint_and_invalid_opcode_have_synthetic_zero_error_code() {
    assert!(!error_code_vectors().contains(&VECTOR_BREAKPOINT));
    assert!(!error_code_vectors().contains(&VECTOR_INVALID_OPCODE));
}

#[test]
fn error_code_vector_set_is_exact() {
    let expected = [8u8, 10, 11, 12, 13, 14, 17, 21, 29, 30];
    assert_eq!(&error_code_vectors()[..], &expected[..]);
}

#[test]
fn page_fault_error_code_decodes_zero() {
    let err = PageFaultErrorCode::new(0);
    assert!(!err.present());
    assert!(!err.write());
    assert!(!err.user());
    assert!(!err.reserved_violation());
    assert!(!err.instruction_fetch());
    assert!(!err.protection_key());
    assert!(!err.shadow_stack());
    assert!(!err.sgx());
}

#[test]
fn page_fault_error_code_decodes_write_protection_violation() {
    let err = PageFaultErrorCode::new(0b011);
    assert!(err.present());
    assert!(err.write());
    assert!(!err.user());
}

#[test]
fn page_fault_error_code_decodes_user_instruction_fetch_read() {
    let err = PageFaultErrorCode::new(0b1_0101);
    assert!(err.present());
    assert!(!err.write());
    assert!(err.user());
    assert!(err.instruction_fetch());
}

#[test]
fn page_fault_error_code_decodes_user_instruction_fetch() {
    let err = PageFaultErrorCode::new(0b1_0111);
    assert!(err.present());
    assert!(!err.write());
    assert!(err.user());
    assert!(err.instruction_fetch());
}

#[test]
fn page_fault_error_code_decodes_combined_flags() {
    let err = PageFaultErrorCode::new(0b1101_0111);
    assert!(err.present());
    assert!(err.write());
    assert!(err.user());
    assert!(err.reserved_violation());
    assert!(err.instruction_fetch());
    assert!(!err.protection_key());
    assert!(!err.shadow_stack());
    assert!(!err.sgx());
}

#[test]
fn page_fault_error_code_decodes_reserved_bit_violation() {
    let err = PageFaultErrorCode::new(0b1001);
    assert!(err.present());
    assert!(err.reserved_violation());
}

#[test]
fn page_fault_error_code_decodes_all_low_flags() {
    let err = PageFaultErrorCode::new(0b101_1111);
    assert!(err.present());
    assert!(err.write());
    assert!(err.user());
    assert!(err.reserved_violation());
    assert!(err.instruction_fetch());
    assert!(!err.protection_key());
    assert!(err.shadow_stack());
    assert!(!err.sgx());
}

#[test]
fn page_fault_error_code_decodes_high_flags() {
    let err = PageFaultErrorCode::new((1 << 5) | (1 << 6) | (1 << 15));
    assert!(err.protection_key());
    assert!(err.shadow_stack());
    assert!(err.sgx());
    assert_eq!(err.raw(), (1 << 5) | (1 << 6) | (1 << 15));
}

#[test]
fn breakpoint_transition_is_accepted_when_expected() {
    let mut monitor = ExceptionTestMonitor::new();
    monitor.arm(TestState::BreakpointExpected);
    assert!(monitor.accept_breakpoint());
    assert_eq!(monitor.state, TestState::BreakpointHandled);
}

#[test]
fn breakpoint_transition_is_rejected_when_not_expected() {
    let mut monitor = ExceptionTestMonitor::new();
    assert!(!monitor.accept_breakpoint());
    assert_eq!(monitor.state, TestState::Idle);
}

#[test]
fn invalid_opcode_is_expected_only_in_expected_state() {
    let mut monitor = ExceptionTestMonitor::new();
    assert!(!monitor.invalid_opcode_expected());
    monitor.arm(TestState::InvalidOpcodeExpected);
    assert!(monitor.invalid_opcode_expected());
}

#[test]
fn dispatch_uses_the_low_vector_byte() {
    assert_eq!(dispatch_action(3), ExceptionAction::Breakpoint);
    assert_eq!(dispatch_action(0x100 + 6), ExceptionAction::InvalidOpcode);
    assert_eq!(dispatch_action(8), ExceptionAction::DoubleFault);
    assert_eq!(dispatch_action(13), ExceptionAction::GeneralProtection);
    assert_eq!(dispatch_action(14), ExceptionAction::PageFault);
    assert_eq!(dispatch_action(0), ExceptionAction::Unhandled);
    assert!(has_error_code(17));
    assert!(!has_error_code(3));
}
