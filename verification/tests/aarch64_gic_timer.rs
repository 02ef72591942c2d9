use lib::aarch64::gic::{
    classify_acknowledge, interrupt_lines, irq_is_masked, register_offset_valid,
    AcknowledgeClass, GicMonitor, IrqDisposition, INTERFACE_SIZE, SPECIAL_INTERRUPT_ID_START,
    SPURIOUS_INTERRUPT_ID, TEST_SGI_ID,
};
use lib::aarch64::timer::{
    calculate_interval, frequency_window_valid, spin_wait_milliseconds, TimerError, TimerState,
};

#[test]
fn register_offsets_are_aligned_and_bounded() {
    assert!(register_offset_valid(0));
    assert!(register_offset_valid(INTERFACE_SIZE - 4));
    assert!(!register_offset_valid(2));
    assert!(!register_offset_valid(INTERFACE_SIZE));
}

#[test]
fn acknowledge_policy_is_fail_closed() {
    assert_eq!(classify_acknowledge(TEST_SGI_ID, true), AcknowledgeClass::ExpectedSgi);
    assert_eq!(
        classify_acknowledge(TEST_SGI_ID, false),
        AcknowledgeClass::Unexpected(TEST_SGI_ID)
    );
    assert_eq!(classify_acknowledge(33, true), AcknowledgeClass::Unexpected(33));
}

#[test]
fn special_ids_never_enter_normal_eoi_path() {
    for id in SPECIAL_INTERRUPT_ID_START..=SPURIOUS_INTERRUPT_ID {
        assert_eq!(classify_acknowledge(id, true), AcknowledgeClass::Special(id));
    }
}

#[test]
fn self_sgi_rejects_a_non_bsp_source_cpu() {
    assert_eq!(
        classify_acknowledge((0b101 << 10) | TEST_SGI_ID, true),
        AcknowledgeClass::Unexpected(TEST_SGI_ID)
    );
}

#[test]
fn typer_line_count_is_thirty_two_per_group() {
    assert_eq!(interrupt_lines(0), Ok(32));
    assert_eq!(interrupt_lines(0x1f), Ok(1024));
    assert_eq!(interrupt_lines(0xffff_ffe2), Ok(96));
}

#[test]
fn irq_mask_is_daif_bit_seven() {
    assert!(irq_is_masked(0x80));
    assert!(irq_is_masked(0x3c0));
    assert!(!irq_is_masked(0x340));
}

#[test]
fn monitor_handles_only_the_armed_sgi() {
    let mut monitor = GicMonitor::new();
    assert!(!monitor.arm_test(true));
    let out = monitor.handle_irq(true, TEST_SGI_ID, 0, 0);
    assert_eq!(out.disposition, IrqDisposition::ControllerNotReady);
    assert!(!out.end_of_interrupt);
    monitor.ready = true;
    assert!(!monitor.arm_test(false));
    assert!(monitor.arm_test(true));
    assert_eq!(monitor.handle_irq(false, TEST_SGI_ID, 0, 0).disposition, IrqDisposition::ContextFault);
    let spurious = monitor.handle_irq(true, SPURIOUS_INTERRUPT_ID, 0, 0);
    assert_eq!(spurious.disposition, IrqDisposition::Spurious(SPURIOUS_INTERRUPT_ID));
    assert!(!spurious.end_of_interrupt);
    assert_eq!(monitor.spurious_count(), 1);
    let handled = monitor.handle_irq(true, TEST_SGI_ID, 0xfeed, 0x3c5);
    assert_eq!(handled.disposition, IrqDisposition::Handled);
    assert!(handled.end_of_interrupt);
    assert!(monitor.test_observed());
    assert_eq!(monitor.deliveries(), 1);
    assert_eq!(monitor.eois(), 1);
    assert_eq!(monitor.frame_sentinel(), 0xfeed);
    assert_eq!(monitor.irq_spsr(), 0x3c5);
    assert_eq!(monitor.last_iar(), u64::from(TEST_SGI_ID));
    let again = monitor.handle_irq(true, TEST_SGI_ID, 0, 0);
    assert_eq!(
        again.disposition,
        IrqDisposition::Unexpected { raw_iar: TEST_SGI_ID, interrupt_id: TEST_SGI_ID }
    );
    assert!(again.end_of_interrupt);
}

#[test]
fn calculate_interval_deterministic() {
    let interval = calculate_interval(62_500_000, 100).unwrap();
    assert_eq!(interval, 625_000);
}

#[test]
fn calculate_interval_zero_rejected() {
    assert_eq!(calculate_interval(0, 100), Err(TimerError::ZeroFrequency));
    assert_eq!(calculate_interval(62_500_000, 0), Err(TimerError::ZeroFrequency));
}

#[test]
fn frequency_window_tolerance() {
    assert!(!frequency_window_valid(0));
    assert!(!frequency_window_valid(2));
    assert!(frequency_window_valid(3));
    assert!(frequency_window_valid(5));
    assert!(frequency_window_valid(7));
    assert!(!frequency_window_valid(8));
}

#[test]
fn interval_rejects_zero_and_oversized_quotients() {
    assert_eq!(calculate_interval(50, 100), Err(TimerError::IntervalOverflow));
    assert_eq!(calculate_interval(u64::MAX, 1), Err(TimerError::IntervalOverflow));
}

#[test]
fn spin_wait_target_saturates() {
    assert_eq!(spin_wait_milliseconds(0, 10, 5), None);
    assert_eq!(spin_wait_milliseconds(62_500_000, 10, 100), Some(625_100));
    assert_eq!(spin_wait_milliseconds(u64::MAX, 2, 0), Some(u64::MAX / 1000));
    assert_eq!(spin_wait_milliseconds(1000, 1, u64::MAX), Some(u64::MAX));
}

#[test]
fn timer_state_counts_ticks_after_initialization() {
    let mut timer = TimerState::new();
    assert_eq!(timer.handle_tick(), None);
    assert_eq!(timer.ticks(), 0);
    assert!(timer.context_observed());
    assert_eq!(timer.initialize(62_500_000), Ok((62_500_000, 625_000)));
    assert_eq!(timer.initialize(62_500_000), Err(TimerError::AlreadyInitialized));
    assert_eq!(timer.handle_tick(), Some(625_000));
    assert_eq!(timer.ticks(), 1);
    assert_eq!(timer.real_deliveries(), 1);
    assert_eq!(timer.uptime_milliseconds(), 10);
}
