use lib::x86_64::apic::{ApicCounters, LocalApic, LOCAL_APIC_VIRTUAL_BASE, LVT_TIMER, TIMER_DIVIDE, TIMER_INITIAL, LVT_MASKED, TIMER_DIVIDE_BY_16};
use lib::x86_64::mouse::{aux_enabled_command_byte, Ps2Mouse, STATUS_AUX_DATA};
use lib::x86_64::serial::{transmitter_ready, Serial};
use lib::x86_64::pci::{
    aligned_register, pci_address, read_config_u16, read_config_u8, write_config_u16,
    write_config_u8,
};
use lib::x86_64::pic::{
    initialization_result, masks_are_fully_masked, PicError, MASTER_OFFSET, SLAVE_OFFSET,
};
use lib::x86_64::pit::{
    count_bytes, duration_count, gate_high, gate_low, reference_expired, PitError,
};
use lib::x86_64::timer::{
    counts_per_tick, initial_count, TickAction, TimerError, TimerState,
};

#[test]
fn policy_is_remapped_and_fully_masked() {
    assert_eq!(MASTER_OFFSET, 0x20);
    assert_eq!(SLAVE_OFFSET, 0x28);
    assert!(masks_are_fully_masked(0xff, 0xff));
    assert!(!masks_are_fully_masked(0xfe, 0xff));
}

#[test]
fn pic_readback_failure_reports_both_masks() {
    assert_eq!(initialization_result(0xff, 0xff), Ok((0xff, 0xff)));
    assert_eq!(
        initialization_result(0xff, 0x7f),
        Err(PicError::ReadbackFailed { master: 0xff, slave: 0x7f })
    );
}

#[test]
fn ten_ms_is_11931_or_11932() {
    assert!((11_931..=11_932).contains(&duration_count(10).unwrap()));
}

#[test]
fn invalid_duration_is_rejected() {
    assert_eq!(duration_count(0), Err(PitError::InvalidDuration));
}

#[test]
fn count_overflow_is_rejected() {
    assert_eq!(duration_count(100), Err(PitError::CountOverflow));
}

#[test]
fn pit_count_is_exact_and_split_low_then_high() {
    assert_eq!(duration_count(10), Ok(11_931));
    assert_eq!(duration_count(u64::MAX), Err(PitError::CountOverflow));
    assert_eq!(count_bytes(11_931), (0x9b, 0x2e));
    assert_eq!(gate_low(0xff), 0xfc);
    assert_eq!(gate_high(0xfe), 0xfd);
    assert!(reference_expired(0x20));
    assert!(!reference_expired(0xdf));
}

#[test]
fn calibration_is_integer_and_deterministic() {
    assert_eq!(counts_per_tick(100_000, 10), Ok(10_000_000));
}

#[test]
fn zero_calibration_is_rejected() {
    assert_eq!(counts_per_tick(0, 10), Err(TimerError::CalibrationZero));
}

#[test]
fn initial_count_is_the_elapsed_countdown() {
    assert_eq!(initial_count(u32::MAX - 100), Ok(10_000));
    assert_eq!(initial_count(u32::MAX), Err(TimerError::CalibrationZero));
}

#[test]
fn timer_ticks_only_inside_an_entered_context() {
    let mut timer = TimerState::new();
    assert_eq!(timer.begin_initialize(), Ok(()));
    assert_eq!(timer.begin_initialize(), Err(TimerError::AlreadyInitialized));
    let mut apic = ApicCounters::new();
    assert_eq!(timer.handle_tick(false, &mut apic), TickAction::Ignore);
    assert_eq!(timer.ticks(), 0);
    assert_eq!(timer.handle_tick(true, &mut apic), TickAction::Ignore);
    assert_eq!(timer.ticks(), 1);
    assert_eq!(apic.eoi_count(), 0);
    apic.mark_ready();
    assert_eq!(timer.handle_tick(true, &mut apic), TickAction::Eoi);
    assert_eq!(timer.ticks(), 2);
    assert_eq!(apic.eoi_count(), 1);
    assert_eq!(timer.handle_tick(false, &mut apic), TickAction::Ignore);
    assert_eq!(apic.eoi_count(), 1);
    assert_eq!(timer.uptime_milliseconds(), 20);
    assert!(timer.context_observed());
    timer.handle_spurious(true);
    assert_eq!(timer.spurious_count(), 1);
    timer.abandon_initialize();
    assert!(!timer.is_initialized());
}

#[test]
fn mouse_decodes_standard_movement() {
    let mut mouse = Ps2Mouse::new();
    assert_eq!(mouse.process_byte(0x08), None);
    assert_eq!(mouse.process_byte(15), None);
    let packet = mouse.process_byte(10).unwrap();
    assert_eq!(packet.dx, 15);
    assert_eq!(packet.dy, -10);
    assert!(!packet.left_button);
}

#[test]
fn mouse_decodes_negative_deltas_and_buttons() {
    let mut mouse = Ps2Mouse::new();
    assert_eq!(mouse.process_byte(0x39), None);
    assert_eq!(mouse.process_byte(250), None);
    let packet = mouse.process_byte(246).unwrap();
    assert_eq!(packet.dx, -6);
    assert_eq!(packet.dy, 10);
    assert!(packet.left_button);
}

#[test]
fn mouse_rejects_out_of_sync_bytes() {
    let mut mouse = Ps2Mouse::new();
    assert_eq!(mouse.process_byte(0x00), None);
    assert_eq!(mouse.cycle(), 0);
}

#[test]
fn mouse_drops_overflowing_packets_and_keyboard_bytes() {
    let mut mouse = Ps2Mouse::new();
    assert_eq!(mouse.poll_byte(0, 0x08), None);
    assert_eq!(mouse.cycle(), 0);
    assert_eq!(mouse.poll_byte(STATUS_AUX_DATA, 0x48), None);
    assert_eq!(mouse.poll_byte(STATUS_AUX_DATA, 1), None);
    assert_eq!(mouse.poll_byte(STATUS_AUX_DATA, 1), None);
    assert_eq!(mouse.cycle(), 0);
}

#[test]
fn pci_configuration_access_words() {
    assert_eq!(pci_address(0, 3, 0, 0x10), 0x8000_1810);
    assert_eq!(pci_address(1, 0x3f, 0xf, 0x13), 0x8001_ff10);
    assert_eq!(read_config_u16(0x1234_5678, 0), 0x5678);
    assert_eq!(read_config_u16(0x1234_5678, 2), 0x1234);
    assert_eq!(read_config_u8(0x1234_5678, 1), 0x56);
    assert_eq!(write_config_u16(0x1234_5678, 2, 0xabcd), 0xabcd_5678);
    assert_eq!(write_config_u8(0x1234_5678, 3, 0xef), 0xef34_5678);
    assert_eq!(aligned_register(0x13), 0x10);
}

#[test]
fn aux_enable_sets_interrupt_and_clears_clock_disable() {
    assert_eq!(aux_enabled_command_byte(0x20), 0x02);
    assert_eq!(aux_enabled_command_byte(0x45), 0x47);
    assert_eq!(aux_enabled_command_byte(0xff), 0xdf);
}

#[test]
fn com1_is_programmed_for_115200_8n1() {
    let serial = Serial;
    assert_eq!(
        serial.init(),
        vec![(0x3f9, 0), (0x3fb, 0x80), (0x3f8, 1), (0x3f9, 0), (0x3fb, 3), (0x3fa, 0xc7), (0x3fc, 3)]
    );
    assert_eq!(serial.encode(b"ok\nx"), b"ok\r\nx".to_vec());
    assert!(transmitter_ready(0x60));
    assert!(!transmitter_ready(0x40));
}

#[test]
fn timer_initialization_calibrates_or_releases_its_claim() {
    let apic = LocalApic::new(0xfee0_0000, LOCAL_APIC_VIRTUAL_BASE, 7);
    let base = LOCAL_APIC_VIRTUAL_BASE;
    let mut timer = TimerState::new();
    assert_eq!(
        timer.start_calibration(apic),
        Ok([
            (base + LVT_TIMER as u64, LVT_MASKED),
            (base + TIMER_DIVIDE as u64, TIMER_DIVIDE_BY_16),
            (base + TIMER_INITIAL as u64, u32::MAX),
        ])
    );
    assert!(timer.is_initialized());
    assert_eq!(timer.start_calibration(apic), Err(TimerError::AlreadyInitialized));
    let current = u32::MAX - 100_000;
    assert_eq!(
        timer.complete_initialize(apic, Ok(11_931), Ok(current)),
        Ok((
            (11_931, 10_000_000),
            [
                (base + TIMER_DIVIDE as u64, TIMER_DIVIDE_BY_16),
                (base + LVT_TIMER as u64, 0x3_0040),
                (base + TIMER_INITIAL as u64, 10_000_000),
                (base + LVT_TIMER as u64, 0x2_0040),
            ]
        ))
    );
    assert!(timer.is_initialized());

    let mut failed = TimerState::new();
    failed.start_calibration(apic).unwrap();
    assert_eq!(
        failed.complete_initialize(apic, Err(PitError::Timeout), Ok(0)),
        Err(TimerError::Pit(PitError::Timeout))
    );
    assert!(!failed.is_initialized());
    failed.start_calibration(apic).unwrap();
    assert_eq!(
        failed.complete_initialize(apic, Ok(11_931), Ok(u32::MAX)),
        Err(TimerError::CalibrationZero)
    );
    assert!(!failed.is_initialized());
}
