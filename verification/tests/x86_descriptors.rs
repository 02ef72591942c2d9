use lib::x86_64::gdt::{
    encode_descriptor, kernel_code_descriptor, kernel_data_descriptor, selector,
    tss_descriptor_high, tss_descriptor_low,
};
use lib::x86_64::idt::{IdtEntry, InterruptDescriptorTable, IDT_INTERRUPT_GATE, IDT_TRAP_GATE};
use lib::x86_64::tss::{double_fault_stack_align, double_fault_stack_size, TSS, TSS_SIZE};

#[test]
fn null_descriptor_is_zero() {
    assert_eq!(encode_descriptor(0, 0, 0, 0), 0);
}

#[test]
fn kernel_code_has_expected_access_and_flags() {
    let descriptor = kernel_code_descriptor();
    let access = (descriptor >> 40) as u8;
    let flags = (descriptor >> 52) as u8 & 0xf;
    assert_eq!(access, 0x9a);
    assert_eq!(flags, 0xa);
}

#[test]
fn kernel_data_has_expected_access() {
    let descriptor = kernel_data_descriptor();
    let access = (descriptor >> 40) as u8;
    assert_eq!(access, 0x92);
}

#[test]
fn tss_low_access_byte_is_available_tss() {
    let descriptor = tss_descriptor_low(0x1234_5678_9abc_def0, 0x1_ffff);
    let access = (descriptor >> 40) as u8;
    assert_eq!(access, 0x89);
}

#[test]
fn tss_high_carries_upper_base() {
    let base = 0x0000_1234_5678_9abc_u64;
    let high = tss_descriptor_high(base);
    assert_eq!(high, 0x0000_1234);

    let base2 = 0xffff_ffff_0000_0000_u64;
    let high2 = tss_descriptor_high(base2);
    assert_eq!(high2, 0xffff_ffff);
}

#[test]
fn selector_encoding() {
    assert_eq!(selector(1, 0), 0x08);
    assert_eq!(selector(2, 0), 0x10);
    assert_eq!(selector(3, 0), 0x18);
    assert_eq!(selector(1, 3), 0x0b);
}

#[test]
fn tss_descriptor_round_trips_base_and_limit() {
    let base = 0x1234_5678_9abc_def0_u64;
    let limit = 0x000f_ffff_u32;
    let low = tss_descriptor_low(base, limit);
    let high = tss_descriptor_high(base);

    let decoded_limit = (low & 0xffff) as u32 | (((low >> 48) & 0xf) as u32) << 16;
    let decoded_base = ((low >> 16) & 0x00ff_ffff) | (((low >> 56) & 0xff) << 24) | (high << 32);

    assert_eq!(decoded_limit, limit);
    assert_eq!(decoded_base, base);
}

#[test]
fn descriptor_fields_land_in_their_bit_ranges() {
    let d = encode_descriptor(0x1234_5678, 0x000a_bcde, 0x9a, 0xc);
    assert_eq!(d & 0xffff, 0xbcde);
    assert_eq!((d >> 16) & 0xff_ffff, 0x34_5678);
    assert_eq!((d >> 40) & 0xff, 0x9a);
    assert_eq!((d >> 48) & 0xf, 0xa);
    assert_eq!((d >> 52) & 0xf, 0xc);
    assert_eq!(d >> 56, 0x12);
}

#[test]
fn empty_entry_is_not_present() {
    let entry = IdtEntry::empty();
    assert_eq!(entry.type_attr(), 0);
    assert_eq!(entry.offset(), 0);
}

#[test]
fn offset_round_trips() {
    let mut entry = IdtEntry::empty();
    entry.set(0x1234_5678_9abc_def0, 1, IDT_INTERRUPT_GATE);
    assert_eq!(entry.offset(), 0x1234_5678_9abc_def0);
    assert_eq!(entry.ist(), 1);
    assert_eq!(entry.type_attr(), IDT_INTERRUPT_GATE | 0x80);
}

#[test]
fn ist_is_masked() {
    let mut entry = IdtEntry::empty();
    entry.set(0, 0xff, IDT_TRAP_GATE);
    assert_eq!(entry.ist(), 7);
}

#[test]
fn ist_index_round_trips() {
    let mut entry = IdtEntry::empty();
    entry.set(0x1234, 1, IDT_INTERRUPT_GATE);
    assert_eq!(entry.ist(), 1);
    entry.set(0x1234, 0, IDT_INTERRUPT_GATE);
    assert_eq!(entry.ist(), 0);
}

#[test]
fn table_installs_present_gates_by_vector() {
    let mut table = InterruptDescriptorTable::new();
    assert_eq!(table.handler_offset(8), Some(0));
    table.set_handler(8, 0xffff_8000_0000_1000, 1, 0x0e);
    assert_eq!(table.handler_offset(8), Some(0xffff_8000_0000_1000));
    assert_eq!(table.handler_ist(8), Some(1));
    assert_eq!(table.handler_offset(9), Some(0));
    assert_eq!(table.handler_offset(256), None);
    table.set_handler(300, 0x1000, 0, 0x0e);
    assert_eq!(table.handler_ist(300), None);
}

#[test]
fn tss_size_is_at_least_104_bytes() {
    assert!(core::mem::size_of::<TSS>() >= 104);
}

#[test]
fn ist_entry_round_trips() {
    let mut tss = TSS::new();
    tss.set_ist(0, 0x1234_5678_9abc_def0);
    assert_eq!(tss.ist[0].low, 0x9abc_def0);
    assert_eq!(tss.ist[0].high, 0x1234_5678);
}

#[test]
fn rsp0_round_trips() {
    let mut tss = TSS::new();
    tss.set_rsp0(0xfedc_ba98_7654_3210);
    assert_eq!(tss.rsp0_low, 0x7654_3210);
    assert_eq!(tss.rsp0_high, 0xfedc_ba98);
}

#[test]
fn double_fault_stack_is_64k() {
    assert_eq!(double_fault_stack_size(), 64 * 1024);
}

#[test]
fn double_fault_stack_alignment_is_page() {
    assert_eq!(double_fault_stack_align(), 4096);
}

#[test]
fn tss_is_exactly_104_bytes() {
    assert_eq!(core::mem::size_of::<TSS>(), 104);
}

#[test]
fn tss_ist1_holds_the_double_fault_stack_top() {
    let mut tss = TSS::new();
    let top = 0xffff_8000_0012_0000_u64;
    tss.initialize(0x5000, top);
    let ist1 = (u64::from(tss.ist[0].high) << 32) | u64::from(tss.ist[0].low);
    assert_eq!(ist1, top);
    assert_eq!(tss.io_map_base(), TSS_SIZE);
}

#[test]
fn tss_limit_matches_size_minus_one() {
    assert_eq!(core::mem::size_of::<TSS>() - 1, 103);
}
