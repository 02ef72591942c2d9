use core::mem::size_of;
use lib::aarch64::exceptions::{
    controlled_resume_delta, decode_current_el, fp_simd_enabled, initialization_check,
    page_fault_syndrome_matches, ExceptionFrame, ExpectedPageFault, InitializationError,
    PageFaultDecision, PageFaultMonitor, PageFaultProbes, PageFaultTestState, CONTROLLED_BRK_IMMEDIATE, CPACR_EL1_FPEN_MASK,
    EC_BRK64, EC_DATA_ABORT_CURRENT_EL, EC_INSTRUCTION_ABORT_CURRENT_EL, ESR_INSTRUCTION_LENGTH,
    FRAME_SIZE, ISS_FAR_NOT_VALID, ISS_STAGE_ONE_PAGE_TABLE_WALK, ISS_WRITE_NOT_READ,
    SOURCE_CURRENT_SP0_SYNC, SOURCE_CURRENT_SPX_SYNC, TEST_ARMED, TEST_IDLE,
};

#[test]
fn current_el_decoding_is_bounded() {
    assert_eq!(decode_current_el(0), 0);
    assert_eq!(decode_current_el(0b01 << 2), 1);
    assert_eq!(decode_current_el(0b10 << 2), 2);
    assert_eq!(decode_current_el(0b11 << 2), 3);
    assert_eq!(decode_current_el(u64::MAX), 3);
}

#[test]
fn fp_simd_access_requires_both_fpen_bits() {
    assert!(!fp_simd_enabled(0));
    assert!(!fp_simd_enabled(1 << 20));
    assert!(!fp_simd_enabled(1 << 21));
    assert!(fp_simd_enabled(CPACR_EL1_FPEN_MASK));
    assert!(fp_simd_enabled(u64::MAX));
}

#[test]
fn raw_frame_size_is_a_16_byte_multiple() {
    assert_eq!(size_of::<ExceptionFrame>(), FRAME_SIZE);
    assert_eq!(FRAME_SIZE % 16, 0);
}

#[test]
fn controlled_breakpoint_policy_is_exact() {
    let esr = (u64::from(EC_BRK64) << 26) | u64::from(CONTROLLED_BRK_IMMEDIATE);
    assert_eq!(
        controlled_resume_delta(TEST_ARMED, SOURCE_CURRENT_SP0_SYNC, esr),
        Some(4)
    );
    assert_eq!(
        controlled_resume_delta(TEST_ARMED, SOURCE_CURRENT_SPX_SYNC, esr),
        Some(4)
    );
    assert_eq!(
        controlled_resume_delta(TEST_IDLE, SOURCE_CURRENT_SPX_SYNC, esr),
        None
    );
    assert_eq!(controlled_resume_delta(TEST_ARMED, 8, esr), None);
    assert_eq!(
        controlled_resume_delta(TEST_ARMED, SOURCE_CURRENT_SPX_SYNC, esr ^ 1),
        None
    );
    assert_eq!(
        controlled_resume_delta(TEST_ARMED, SOURCE_CURRENT_SPX_SYNC, esr ^ (1 << 26)),
        None
    );
}

fn syndrome(ec: u8, fsc: u64, write: bool) -> u64 {
    (u64::from(ec) << 26) | ESR_INSTRUCTION_LENGTH | fsc | if write { ISS_WRITE_NOT_READ } else { 0 }
}

#[test]
fn page_fault_policy_matches_exact_syndrome_and_addresses() {
    let far = 0x4000_u64;
    let elr = 0x8000_u64;
    for (expected, esr) in [
        (ExpectedPageFault::NullRead, syndrome(EC_DATA_ABORT_CURRENT_EL, 0x4, false)),
        (ExpectedPageFault::GuardRead, syndrome(EC_DATA_ABORT_CURRENT_EL, 0x7, false)),
        (ExpectedPageFault::TextWrite, syndrome(EC_DATA_ABORT_CURRENT_EL, 0xf, true)),
        (ExpectedPageFault::DataExecute, syndrome(EC_INSTRUCTION_ABORT_CURRENT_EL, 0xd, false)),
    ] {
        assert!(page_fault_syndrome_matches(expected, SOURCE_CURRENT_SPX_SYNC, esr, far, elr, far, elr));
        assert!(!page_fault_syndrome_matches(expected, SOURCE_CURRENT_SP0_SYNC, esr, far, elr, far, elr));
        for forbidden_bit in [ISS_FAR_NOT_VALID, ISS_STAGE_ONE_PAGE_TABLE_WALK] {
            assert!(!page_fault_syndrome_matches(
                expected,
                SOURCE_CURRENT_SPX_SYNC,
                esr | forbidden_bit,
                far,
                elr,
                far,
                elr,
            ));
        }
        assert!(!page_fault_syndrome_matches(
            expected,
            SOURCE_CURRENT_SPX_SYNC,
            esr & !ESR_INSTRUCTION_LENGTH,
            far,
            elr,
            far,
            elr,
        ));
        assert!(!page_fault_syndrome_matches(expected, SOURCE_CURRENT_SPX_SYNC, esr, far + 1, elr, far, elr));
        assert!(!page_fault_syndrome_matches(expected, SOURCE_CURRENT_SPX_SYNC, esr, far, elr + 4, far, elr));
        assert!(!page_fault_syndrome_matches(
            expected,
            SOURCE_CURRENT_SPX_SYNC,
            esr ^ ISS_WRITE_NOT_READ,
            far,
            elr,
            far,
            elr,
        ));
    }
}

#[test]
fn page_fault_policy_rejects_wrong_exception_and_fsc_classes() {
    let far = 0x1000_u64;
    let elr = 0x2000_u64;
    let data_translation = (u64::from(EC_DATA_ABORT_CURRENT_EL) << 26) | ESR_INSTRUCTION_LENGTH | 0x4;
    let data_permission = (u64::from(EC_DATA_ABORT_CURRENT_EL) << 26) | ESR_INSTRUCTION_LENGTH | 0xc;
    let instruction_permission =
        (u64::from(EC_INSTRUCTION_ABORT_CURRENT_EL) << 26) | ESR_INSTRUCTION_LENGTH | 0xc;
    assert!(!page_fault_syndrome_matches(
        ExpectedPageFault::TextWrite,
        SOURCE_CURRENT_SPX_SYNC,
        data_translation | ISS_WRITE_NOT_READ,
        far,
        elr,
        far,
        elr,
    ));
    assert!(!page_fault_syndrome_matches(
        ExpectedPageFault::GuardRead,
        SOURCE_CURRENT_SPX_SYNC,
        data_permission,
        far,
        elr,
        far,
        elr,
    ));
    assert!(!page_fault_syndrome_matches(
        ExpectedPageFault::DataExecute,
        SOURCE_CURRENT_SPX_SYNC,
        data_permission,
        far,
        elr,
        far,
        elr,
    ));
    assert!(page_fault_syndrome_matches(
        ExpectedPageFault::DataExecute,
        SOURCE_CURRENT_SPX_SYNC,
        instruction_permission,
        far,
        elr,
        far,
        elr,
    ));
}

#[test]
fn initialization_rejects_each_precondition() {
    let el1 = 1u64 << 2;
    assert_eq!(initialization_check(el1, CPACR_EL1_FPEN_MASK, 0x8_0000), Ok(()));
    assert_eq!(
        initialization_check(2 << 2, CPACR_EL1_FPEN_MASK, 0x8_0000),
        Err(InitializationError::UnsupportedExceptionLevel(2))
    );
    assert_eq!(
        initialization_check(el1, CPACR_EL1_FPEN_MASK, 0x8_0400),
        Err(InitializationError::MisalignedVectorBase)
    );
    assert_eq!(
        initialization_check(el1, 0, 0x8_0000),
        Err(InitializationError::FpSimdUnavailable)
    );
}

#[test]
fn page_fault_monitor_resumes_only_the_armed_fault() {
    let probes = PageFaultProbes {
        low_guard: 0x7000,
        text_target: 0x9000,
        data_target: 0xa000,
        null_read_fault: 0x1000,
        null_read_resume: 0x1004,
        guard_read_fault: 0x2000,
        guard_read_resume: 0x2004,
        text_write_fault: 0x3000,
        text_write_resume: 0x3004,
        data_execute_resume: 0x4000,
    };
    let null_esr = syndrome(EC_DATA_ABORT_CURRENT_EL, 0x4, false);
    let mut monitor = PageFaultMonitor::new();
    assert_eq!(
        monitor.handle_page_fault(probes, SOURCE_CURRENT_SPX_SYNC, null_esr, 0, 0x1000),
        PageFaultDecision::NotExpected
    );
    assert!(monitor.arm_page_fault(PageFaultTestState::NullArmed));
    assert!(!monitor.arm_page_fault(PageFaultTestState::GuardArmed));
    assert_eq!(
        monitor.handle_page_fault(probes, SOURCE_CURRENT_SPX_SYNC, null_esr, 8, 0x1000),
        PageFaultDecision::NotExpected
    );
    assert_eq!(
        monitor.handle_page_fault(probes, SOURCE_CURRENT_SPX_SYNC, null_esr, 0, 0x1000),
        PageFaultDecision::Resume(0x1004)
    );
    assert_eq!(monitor.state, PageFaultTestState::NullObserved);
    assert!(monitor.observe_page_fault(PageFaultTestState::NullObserved));
    assert!(monitor.arm_page_fault(PageFaultTestState::GuardArmed));
    assert!(!monitor.observe_page_fault(PageFaultTestState::GuardObserved));
    assert_eq!(monitor.state, PageFaultTestState::Idle);
}

#[test]
fn page_fault_without_resume_address_is_a_state_error() {
    let probes = PageFaultProbes {
        low_guard: 0x7000,
        text_target: 0x9000,
        data_target: 0xa000,
        null_read_fault: 0x1000,
        null_read_resume: 0,
        guard_read_fault: 0x2000,
        guard_read_resume: 0x2004,
        text_write_fault: 0x3000,
        text_write_resume: 0x3004,
        data_execute_resume: 0x4000,
    };
    let mut monitor = PageFaultMonitor::new();
    assert!(monitor.arm_page_fault(PageFaultTestState::NullArmed));
    assert_eq!(
        monitor.handle_page_fault(
            probes,
            SOURCE_CURRENT_SPX_SYNC,
            syndrome(EC_DATA_ABORT_CURRENT_EL, 0x4, false),
            0,
            0x1000
        ),
        PageFaultDecision::StateError
    );
    assert_eq!(monitor.state, PageFaultTestState::NullArmed);
}
