//! COM1 serial output: the register writes that configure the UART and the
//! bytes sent for text.
use vstd::prelude::*;
use crate::aarch64::serial::{crlf, line};

verus! {

/// COM1 base port.
pub const COM1: u16 = 0x3f8;
/// Line-status bit: the transmit holding register is empty.
pub const TRANSMIT_EMPTY: u8 = 0x20;

/// The COM1 writer.
pub struct Serial;

/// The register writes that configure COM1 for 115200 8-N-1, in order:
/// interrupts off, divisor latch on, divisor 1, interrupts off, 8-N-1 with
/// the latch off, FIFOs on and cleared, DTR and RTS on.
pub open spec fn init_writes() -> Seq<(u16, u8)> {
    seq![
        ((COM1 + 1) as u16, 0u8),
        ((COM1 + 3) as u16, 0x80u8),
        (COM1, 1u8),
        ((COM1 + 1) as u16, 0u8),
        ((COM1 + 3) as u16, 3u8),
        ((COM1 + 2) as u16, 0xc7u8),
        ((COM1 + 4) as u16, 3u8),
    ]
}

impl Serial {
    /// The port writes that configure COM1, in the order they are made.
    pub fn init(&self) -> (writes: Vec<(u16, u8)>)
        ensures
            writes@ == init_writes(),
    {
        let writes = vec![
            (COM1 + 1, 0u8),
            (COM1 + 3, 0x80u8),
            (COM1, 1u8),
            (COM1 + 1, 0u8),
            (COM1 + 3, 3u8),
            (COM1 + 2, 0xc7u8),
            (COM1 + 4, 3u8),
        ];
        assert(writes@ =~= init_writes());
        writes
    }

    /// The bytes sent for `value`: each newline goes out as carriage return
    /// then newline, as on every FinnOS UART.
    pub fn encode(&self, value: &[u8]) -> (out: Vec<u8>)
        ensures
            out@ == crlf(value@),
    {
        line(value)
    }
}

/// Whether the UART can take another byte, from its line-status register.
pub fn transmitter_ready(line_status: u8) -> (ready: bool)
    ensures
        ready == (line_status & TRANSMIT_EMPTY != 0),
{
    line_status & TRANSMIT_EMPTY != 0
}

} // verus!
