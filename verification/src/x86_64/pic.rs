//! Legacy 8259 PIC ownership: both controllers are remapped and fully masked.
use vstd::prelude::*;

verus! {

/// Vector base of the master PIC.
pub const MASTER_OFFSET: u8 = 0x20;
/// Vector base of the slave PIC.
pub const SLAVE_OFFSET: u8 = 0x28;
/// The mask that disables every line.
pub const ALL_MASKED: u8 = 0xff;

/// PIC initialization failures.
#[derive(Clone, Copy, Debug, PartialEq, Eq, Structural)]
pub enum PicError {
    /// The read-back masks were not all ones.
    ReadbackFailed { master: u8, slave: u8 },
}

/// Whether both mask registers disable every line.
pub fn masks_are_fully_masked(master: u8, slave: u8) -> (b: bool)
    ensures
        b == (master == ALL_MASKED && slave == ALL_MASKED),
{
    master == ALL_MASKED && slave == ALL_MASKED
}

/// The result of initialization given the masks read back afterwards.
pub fn initialization_result(master: u8, slave: u8) -> (r: Result<(u8, u8), PicError>)
    ensures
        master == ALL_MASKED && slave == ALL_MASKED ==> r == Ok::<(u8, u8), PicError>((master, slave)),
        !(master == ALL_MASKED && slave == ALL_MASKED) ==> r == Err::<(u8, u8), PicError>(
            PicError::ReadbackFailed { master, slave },
        ),
{
    if !masks_are_fully_masked(master, slave) {
        return Err(PicError::ReadbackFailed { master, slave });
    }
    Ok((master, slave))
}

} // verus!
