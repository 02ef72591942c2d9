use lib::boot_protocol::{BootInfo, BootInfoError, PhysicalRange, BOOT_INFO_PAGE_SIZE};
use lib::boot_validation::{check_handoff_pointer, validate_handoff};

const PAGE_ADDRESS: u64 = 0x7000_0000;

fn page_info() -> BootInfo {
    let mut info = BootInfo::empty();
    info.kernel_image = PhysicalRange { start: 0x10_0000, byte_len: 0x20_0000 };
    info.boot_info_storage = PhysicalRange { start: PAGE_ADDRESS, byte_len: BOOT_INFO_PAGE_SIZE };
    info
}

#[test]
fn copies_a_valid_page_owned_handoff() {
    let info = page_info();
    assert_eq!(check_handoff_pointer(PAGE_ADDRESS), Ok(()));
    let copy = validate_handoff(PAGE_ADDRESS, info).unwrap();
    assert_eq!(copy, info);
}

#[test]
fn rejects_null_without_reading() {
    assert_eq!(check_handoff_pointer(0), Err(BootInfoError::NullPointer));
}

#[test]
fn rejects_misalignment_without_reading() {
    assert_eq!(check_handoff_pointer(PAGE_ADDRESS + 3), Err(BootInfoError::MisalignedPointer));
}

#[test]
fn rejects_storage_that_does_not_name_the_pointer_page() {
    let mut info = page_info();
    info.boot_info_storage.start += BOOT_INFO_PAGE_SIZE;
    assert_eq!(validate_handoff(PAGE_ADDRESS, info), Err(BootInfoError::BootInfoOutsideDeclaredStorage));
}

#[test]
fn rejects_storage_that_is_not_exactly_one_page() {
    let mut info = page_info();
    info.boot_info_storage.byte_len = BOOT_INFO_PAGE_SIZE * 2;
    assert_eq!(validate_handoff(PAGE_ADDRESS, info), Err(BootInfoError::InvalidBootInfoStorage));
}

#[test]
fn handoff_must_itself_be_valid() {
    let mut info = page_info();
    info.magic = 0;
    assert_eq!(validate_handoff(PAGE_ADDRESS, info), Err(BootInfoError::BadMagic));
}
