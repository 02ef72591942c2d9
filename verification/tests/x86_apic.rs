use lib::x86_64::apic::{
    begin_initialize, configure_local_apic, enable_readback_ok, finish_local_apic, map_local_apic,
    ERROR_STATUS, SPURIOUS,
    decode_base, lvt_count_from_version, lvt_registers_to_mask, spurious_readback_ok,
    spurious_register_value, ApicCounters, ApicError, LocalApic, IN_SERVICE_BASE,
    LOCAL_APIC_VIRTUAL_BASE, LVT_ERROR, LVT_LINT0, LVT_LINT1, LVT_PERFORMANCE, LVT_THERMAL,
    LVT_TIMER, TIMER_DIVIDE, TIMER_DIVIDE_BY_16, TIMER_INITIAL, TIMER_PERIODIC, TIMER_VECTOR,
};
use lib::x86_64::paging::{
    build, is_canonical, ActiveAddressSpace, MappingPlan, PageTablePagePool, MAX_PAGE_TABLE_PAGES,
};

#[test]
fn decode_rejects_x2apic() {
    assert_eq!(decode_base(1 << 10 | 0xfee00000, 36), Err(ApicError::X2ApicActive));
}

#[test]
fn decode_preserves_enable_state() {
    assert_eq!(decode_base(1 << 11 | 0xfee00000, 36), Ok((0xfee00000, true)));
}

#[test]
fn virtual_base_is_canonical_and_separate() {
    assert!(is_canonical(LOCAL_APIC_VIRTUAL_BASE));
    assert_ne!(LOCAL_APIC_VIRTUAL_BASE, 0x0000_2000_0000_0000);
}

#[test]
fn decode_masks_to_the_physical_width_and_rejects_null() {
    assert_eq!(decode_base(0xfee00000, 36), Ok((0xfee00000, false)));
    assert_eq!(decode_base(0x0000_0010_fee0_0000, 36), Ok((0xfee00000, false)));
    assert_eq!(decode_base(0x800, 36), Err(ApicError::InvalidApicBase));
    assert_eq!(decode_base(0xfee00000, 30), Err(ApicError::InvalidApicBase));
}

#[test]
fn register_addresses_are_aligned_offsets_of_the_virtual_base() {
    let apic = LocalApic::new(0xfee00000, LOCAL_APIC_VIRTUAL_BASE, 7);
    assert_eq!(apic.register_address(0x20), Ok(LOCAL_APIC_VIRTUAL_BASE + 0x20));
    assert_eq!(apic.register_address(0x24), Err(ApicError::InvalidRegisterOffset));
    assert_eq!(apic.register_address(0x1000), Err(ApicError::InvalidRegisterOffset));
    let high = LocalApic::new(0xfee00000, u64::MAX - 8, 7);
    assert_eq!(high.register_address(0x20), Err(ApicError::InvalidRegisterOffset));
}

#[test]
fn timer_programming_keeps_the_timer_masked_until_the_count() {
    let apic = LocalApic::new(0xfee00000, LOCAL_APIC_VIRTUAL_BASE, 7);
    assert_eq!(
        apic.program_timer(1234),
        Ok([
            (TIMER_DIVIDE, TIMER_DIVIDE_BY_16),
            (LVT_TIMER, 0x3_0040),
            (TIMER_INITIAL, 1234),
            (LVT_TIMER, 0x2_0040),
        ])
    );
    assert!(apic.program_timer(0).is_err());
}

#[test]
fn in_service_bit_location() {
    assert_eq!(LocalApic::in_service_location(0x40), (IN_SERVICE_BASE + 2 * 16, 1));
    assert_eq!(LocalApic::in_service_location(0xff), (IN_SERVICE_BASE + 7 * 16, 1 << 31));
    assert!(LocalApic::is_in_service(0x41, 0b10));
    assert!(!LocalApic::is_in_service(0x41, 0b01));
}

#[test]
fn lvt_count_and_mask_list_follow_the_version() {
    assert_eq!(lvt_count_from_version(0x0005_0014), Ok(6));
    assert_eq!(lvt_count_from_version(0x00ff_0014), Ok(255));
    assert_eq!(lvt_count_from_version(0x0005_0000), Err(ApicError::InvalidVersion));
    assert_eq!(lvt_registers_to_mask(4), vec![LVT_TIMER, LVT_LINT0, LVT_LINT1]);
    assert_eq!(
        lvt_registers_to_mask(7),
        vec![LVT_TIMER, LVT_LINT0, LVT_LINT1, LVT_THERMAL, LVT_PERFORMANCE, LVT_ERROR]
    );
}

#[test]
fn spurious_register_round_trip() {
    assert_eq!(spurious_register_value(), 0x1ff);
    assert!(spurious_readback_ok(0x1ff));
    assert!(!spurious_readback_ok(0x0ff));
    assert!(!spurious_readback_ok(0x1fe));
}

#[test]
fn eoi_is_sent_only_when_ready() {
    let mut counters = ApicCounters::new();
    assert!(!counters.timer_eoi());
    assert_eq!(counters.eoi_count(), 0);
    counters.mark_ready();
    assert!(counters.is_ready());
    assert!(counters.timer_eoi());
    assert_eq!(counters.eoi_count(), 1);
    assert_eq!(counters.spurious_eoi_count(), 0);
}

fn apic_space() -> ActiveAddressSpace {
    let pages: Vec<u64> = (0..MAX_PAGE_TABLE_PAGES as u64).map(|i| 0x10_0000 + i * 0x1000).collect();
    build(&MappingPlan::new(), PageTablePagePool::reserve(&pages).unwrap(), 48).unwrap()
}

#[test]
fn bring_up_needs_an_advertised_apic() {
    assert_eq!(begin_initialize(0, 0xfee0_0800, 36), Err(ApicError::ApicUnsupported));
    assert_eq!(begin_initialize(1 << 9, 0xfee0_0c00, 36), Err(ApicError::X2ApicActive));
}

#[test]
fn bring_up_enables_a_disabled_apic_through_the_msr() {
    assert_eq!(begin_initialize(1 << 9, 0xfee0_0800, 36), Ok((0xfee0_0000, None)));
    assert_eq!(begin_initialize(1 << 9, 0xfee0_0000, 36), Ok((0xfee0_0000, Some(0xfee0_0800))));
}

#[test]
fn bring_up_checks_the_enable_readback() {
    assert_eq!(enable_readback_ok(0xfee0_0800), Ok(()));
    assert_eq!(enable_readback_ok(0xfee0_0000), Err(ApicError::SoftwareEnableFailed));
}

#[test]
fn apic_page_is_mapped_uncached_at_the_fixed_base() {
    let mut space = apic_space();
    let apic = map_local_apic(&mut space, 0xfee0_0000, 48).unwrap();
    assert_eq!(apic, LocalApic::new(0xfee0_0000, LOCAL_APIC_VIRTUAL_BASE, 0));
    let t = space.translate(LOCAL_APIC_VIRTUAL_BASE + 0x30).unwrap().unwrap();
    assert_eq!(t.physical_address, 0xfee0_0030);
    assert!(t.effective_writable && !t.effective_executable && !t.effective_user);
    assert!(t.cache_disable && t.write_through);
}

#[test]
fn misaligned_apic_base_is_an_invalid_base() {
    let mut space = apic_space();
    assert_eq!(map_local_apic(&mut space, 0xfee0_0010, 48), Err(ApicError::InvalidApicBase));
    assert_eq!(space.translate(LOCAL_APIC_VIRTUAL_BASE).unwrap(), None);
}

#[test]
fn conflicting_apic_page_is_a_mapping_failure() {
    let mut space = apic_space();
    map_local_apic(&mut space, 0xfee0_0000, 48).unwrap();
    assert_eq!(map_local_apic(&mut space, 0xfec0_0000, 48), Err(ApicError::ApicMappingFailed));
}

#[test]
fn configuration_masks_the_reported_lvt_entries_then_enables() {
    let candidate = LocalApic::new(0xfee0_0000, LOCAL_APIC_VIRTUAL_BASE, 0);
    let (apic, writes) = configure_local_apic(candidate, 0x0005_0014).unwrap();
    assert_eq!(apic, LocalApic::new(0xfee0_0000, LOCAL_APIC_VIRTUAL_BASE, 6));
    assert_eq!(
        writes,
        vec![
            (LVT_TIMER, 0x1_0000),
            (LVT_LINT0, 0x1_0000),
            (LVT_LINT1, 0x1_0000),
            (LVT_THERMAL, 0x1_0000),
            (LVT_PERFORMANCE, 0x1_0000),
            (SPURIOUS, 0x1ff),
        ]
    );
    assert_eq!(configure_local_apic(candidate, 0x0005_0000).map(|_| ()), Err(ApicError::InvalidVersion));
}

#[test]
fn spurious_readback_decides_the_error_status_clear() {
    assert_eq!(finish_local_apic(0x1ff), Ok([(ERROR_STATUS, 0), (ERROR_STATUS, 0)]));
    assert_eq!(finish_local_apic(0x0ff), Err(ApicError::SoftwareEnableFailed));
    assert_eq!(finish_local_apic(0x1fe), Err(ApicError::SoftwareEnableFailed));
}
