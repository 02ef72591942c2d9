//! Kernel-side checks of the firmware handoff: where the boot-information
//! structure may live, and that the copy read from there is valid.
use vstd::prelude::*;
use crate::boot_protocol::{
    validate, validation_result, BootInfo, BootInfoError, BOOT_INFO_PAGE_SIZE,
    BOOT_INFO_STRUCTURE_SIZE,
};

verus! {

/// Alignment the boot-information structure needs.
pub const BOOT_INFO_ALIGN: u64 = 8;

/// Why the structure may not be read at `address`, if it may not.
pub open spec fn pointer_error(address: u64) -> Option<BootInfoError> {
    if address == 0 {
        Some(BootInfoError::NullPointer)
    } else if address % BOOT_INFO_ALIGN != 0 {
        Some(BootInfoError::MisalignedPointer)
    } else {
        None
    }
}

/// Checks the handoff address before anything is read from it.
pub fn check_handoff_pointer(address: u64) -> (result: Result<(), BootInfoError>)
    ensures
        match pointer_error(address) {
            Some(e) => result == Err::<(), BootInfoError>(e),
            None => result == Ok::<(), BootInfoError>(()),
        },
{
    if address == 0 {
        return Err(BootInfoError::NullPointer);
    }
    if address % BOOT_INFO_ALIGN != 0 {
        return Err(BootInfoError::MisalignedPointer);
    }
    Ok(())
}

/// What checking the copy `info` read from `address` gives: it must be
/// valid, and its declared storage must be exactly the page that starts
/// with the structure.
pub open spec fn handoff_result(address: u64, info: BootInfo) -> Result<BootInfo, BootInfoError> {
    match validation_result(info) {
        Err(e) => Err(e),
        Ok(()) => if info.boot_info_storage.start % BOOT_INFO_PAGE_SIZE != 0
            || info.boot_info_storage.byte_len != BOOT_INFO_PAGE_SIZE {
            Err(BootInfoError::InvalidBootInfoStorage)
        } else if address + BOOT_INFO_STRUCTURE_SIZE > u64::MAX {
            Err(BootInfoError::BootInfoOutsideDeclaredStorage)
        } else if info.boot_info_storage.start + info.boot_info_storage.byte_len > u64::MAX {
            Err(BootInfoError::InvalidBootInfoStorage)
        } else if address != info.boot_info_storage.start || address + BOOT_INFO_STRUCTURE_SIZE
            > info.boot_info_storage.start + info.boot_info_storage.byte_len {
            Err(BootInfoError::BootInfoOutsideDeclaredStorage)
        } else {
            Ok(info)
        },
    }
}

/// Validates the copy `info` read from `address` and the page that holds it.
pub fn validate_handoff(address: u64, info: BootInfo) -> (result: Result<BootInfo, BootInfoError>)
    ensures
        result == handoff_result(address, info),
{
    match validate(&info) {
        Ok(()) => {},
        Err(e) => return Err(e),
    }
    if info.boot_info_storage.start % BOOT_INFO_PAGE_SIZE != 0 || info.boot_info_storage.byte_len
        != BOOT_INFO_PAGE_SIZE {
        return Err(BootInfoError::InvalidBootInfoStorage);
    }
    let pointer_end = match address.checked_add(BOOT_INFO_STRUCTURE_SIZE as u64) {
        Some(e) => e,
        None => return Err(BootInfoError::BootInfoOutsideDeclaredStorage),
    };
    let storage_end = match info.boot_info_storage.start.checked_add(info.boot_info_storage.byte_len) {
        Some(e) => e,
        None => return Err(BootInfoError::InvalidBootInfoStorage),
    };
    if address != info.boot_info_storage.start || pointer_end > storage_end {
        return Err(BootInfoError::BootInfoOutsideDeclaredStorage);
    }
    Ok(info)
}

} // verus!
