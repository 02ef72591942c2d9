//! PIT channel-2 reference counts used during local APIC calibration.
use vstd::prelude::*;

verus! {

/// PIT input frequency.
pub const INPUT_HZ: u64 = 1_193_182;
/// Speaker-port bit: channel-2 gate.
pub const SPEAKER_GATE: u8 = 0x01;
/// Speaker-port bit: speaker data enable.
pub const SPEAKER_DATA: u8 = 0x02;
/// Speaker-port bit: channel-2 output.
pub const SPEAKER_OUTPUT: u8 = 0x20;
/// Mode byte: channel 2, low byte then high byte, mode 0, binary.
pub const CHANNEL2_ONE_SHOT: u8 = 0xb0;

/// PIT calibration failures.
#[derive(Clone, Copy, Debug, PartialEq, Eq, Structural)]
pub enum PitError {
    InvalidDuration,
    CountOverflow,
    Timeout,
}

/// The PIT count for `milliseconds`, or why there is none.
pub open spec fn count_for(milliseconds: u64) -> Result<u16, PitError> {
    if milliseconds == 0 {
        Err(PitError::InvalidDuration)
    } else if INPUT_HZ * milliseconds > u64::MAX {
        Err(PitError::CountOverflow)
    } else if (INPUT_HZ * milliseconds) / 1000 == 0 || (INPUT_HZ * milliseconds) / 1000
        > u16::MAX {
        Err(PitError::CountOverflow)
    } else {
        Ok(((INPUT_HZ * milliseconds) / 1000) as u16)
    }
}

/// Convert a duration to a valid 16-bit PIT count.
pub fn duration_count(milliseconds: u64) -> (result: Result<u16, PitError>)
    ensures
        result == count_for(milliseconds),
{
    if milliseconds == 0 {
        return Err(PitError::InvalidDuration);
    }
    let product = match INPUT_HZ.checked_mul(milliseconds) {
        Some(v) => v,
        None => return Err(PitError::CountOverflow),
    };
    let count = product / 1000;
    if count == 0 || count > u16::MAX as u64 {
        return Err(PitError::CountOverflow);
    }
    Ok(count as u16)
}

/// The speaker-control byte with the channel-2 gate low and the speaker disabled.
pub fn gate_low(current: u8) -> (v: u8)
    ensures
        v == current & !SPEAKER_DATA & !SPEAKER_GATE,
{
    current & !SPEAKER_DATA & !SPEAKER_GATE
}

/// The speaker-control byte that starts the one-shot with the speaker disabled.
pub fn gate_high(current: u8) -> (v: u8)
    ensures
        v == (current & !SPEAKER_DATA & !SPEAKER_GATE) | SPEAKER_GATE,
{
    (current & !SPEAKER_DATA & !SPEAKER_GATE) | SPEAKER_GATE
}

/// The low and high bytes written to channel 2 for `count`.
pub fn count_bytes(count: u16) -> (bytes: (u8, u8))
    ensures
        bytes.0 == count as u8,
        bytes.1 == (count >> 8u16) as u8,
        bytes.0 as int + 256 * bytes.1 as int == count as int,
{
    let low = count as u8;
    let high = (count >> 8u16) as u8;
    assert(low as int + 256 * high as int == count as int) by (bit_vector)
        requires
            low == count as u8,
            high == (count >> 8u16) as u8,
    ;
    (low, high)
}

/// Whether a speaker-port read shows the one-shot has expired.
pub fn reference_expired(speaker: u8) -> (b: bool)
    ensures
        b == (speaker & SPEAKER_OUTPUT != 0),
{
    speaker & SPEAKER_OUTPUT != 0
}

} // verus!
