//! Standard three-byte PS/2 mouse packet decoding.
use vstd::prelude::*;

verus! {

/// i8042 status register bit: output buffer full.
pub const STATUS_OUTPUT_FULL: u8 = 0x01;
/// i8042 status register bit: the pending byte came from the auxiliary (mouse) port.
pub const STATUS_AUX_DATA: u8 = 0x20;

/// A decoded PS/2 mouse packet with relative motion and button states.
#[derive(Clone, Copy, Debug, Default, PartialEq, Eq, Structural)]
pub struct MousePacket {
    /// Relative horizontal movement (positive = right).
    pub dx: i32,
    /// Relative vertical movement in screen space (positive = down).
    pub dy: i32,
    /// Left button state.
    pub left_button: bool,
    /// Right button state.
    pub right_button: bool,
    /// Middle button state.
    pub middle_button: bool,
}

/// Nine-bit two's-complement delta: the byte, minus 256 when the sign flag is set.
pub open spec fn signed_delta(byte: u8, negative: bool) -> int {
    if negative {
        byte - 256
    } else {
        byte as int
    }
}

/// The packet carried by header `flags` and the two movement bytes, or `None`
/// when an overflow flag is set.
pub open spec fn decoded_packet(flags: u8, x: u8, y: u8) -> Option<MousePacket> {
    if flags & 0xc0 != 0 {
        None
    } else {
        Some(
            MousePacket {
                dx: signed_delta(x, flags & 0x10 != 0) as i32,
                dy: (-signed_delta(y, flags & 0x20 != 0)) as i32,
                left_button: flags & 0x01 != 0,
                right_button: flags & 0x02 != 0,
                middle_button: flags & 0x04 != 0,
            },
        )
    }
}

/// What feeding `byte` to a decoder in state `before` does: at the first
/// position a byte without bit 3 is dropped and one with it starts a packet;
/// the second byte is stored; the third completes and decodes the packet.
pub open spec fn byte_step(before: Ps2Mouse, byte: u8, after: Ps2Mouse, packet: Option<MousePacket>) -> bool {
    &&& before.spec_cycle() == 0 ==> packet.is_none() && if byte & 0x08 == 0 {
        after.spec_cycle() == 0
    } else {
        after.spec_cycle() == 1 && after.spec_packet()[0] == byte
    }
    &&& before.spec_cycle() == 1 ==> packet.is_none() && after.spec_cycle() == 2
        && after.spec_packet()[0] == before.spec_packet()[0] && after.spec_packet()[1] == byte
    &&& before.spec_cycle() == 2 ==> after.spec_cycle() == 0 && packet == decoded_packet(
        before.spec_packet()[0],
        before.spec_packet()[1],
        byte,
    )
}

/// The i8042 command byte with the auxiliary interrupt enabled (bit 1) and
/// the auxiliary clock no longer disabled (bit 5 clear).
pub fn aux_enabled_command_byte(status: u8) -> (command: u8)
    ensures
        command == (status | 0x02) & !0x20u8,
{
    (status | 0x02) & !0x20u8
}

/// PS/2 mouse packet assembler.
pub struct Ps2Mouse {
    cycle: u8,
    packet: [u8; 3],
}

impl Ps2Mouse {
    /// Position in the current packet (0, 1 or 2).
    pub closed spec fn spec_cycle(&self) -> u8 {
        self.cycle
    }

    /// Bytes collected for the current packet.
    pub closed spec fn spec_packet(&self) -> Seq<u8> {
        self.packet@
    }

    /// Well-formedness: the cycle is a packet position.
    pub closed spec fn wf(&self) -> bool {
        self.cycle <= 2
    }

    /// A decoder waiting for a packet's first byte.
    pub fn new() -> (m: Ps2Mouse)
        ensures
            m.wf(),
            m.spec_cycle() == 0,
            m.spec_packet() == seq![0u8, 0u8, 0u8],
    {
        let m = Ps2Mouse { cycle: 0, packet: [0; 3] };
        assert(m.packet@ =~= seq![0u8, 0u8, 0u8]);
        m
    }

    /// Position in the current packet.
    pub fn cycle(&self) -> (c: u8)
        ensures
            c == self.spec_cycle(),
    {
        self.cycle
    }

    /// Feed one byte from the mouse; a decoded packet is returned when the
    /// third byte completes one. A first byte without bit 3 is dropped to
    /// resynchronize.
    pub fn process_byte(&mut self, byte: u8) -> (packet: Option<MousePacket>)
        requires
            old(self).wf(),
        ensures
            final(self).wf(),
            byte_step(*old(self), byte, *final(self), packet),
    {
        if self.cycle == 0 {
            if byte & 0x08 == 0 {
                return None;
            }
            self.packet[0] = byte;
            self.cycle = 1;
            None
        } else if self.cycle == 1 {
            self.packet[1] = byte;
            self.cycle = 2;
            None
        } else {
            self.packet[2] = byte;
            self.cycle = 0;
            let flags = self.packet[0];
            if flags & 0xc0 != 0 {
                return None;
            }
            let mut dx = self.packet[1] as i32;
            if flags & 0x10 != 0 {
                dx = dx - 256;
            }
            let mut dy = self.packet[2] as i32;
            if flags & 0x20 != 0 {
                dy = dy - 256;
            }
            let screen_dy = -dy;
            Some(
                MousePacket {
                    dx,
                    dy: screen_dy,
                    left_button: flags & 0x01 != 0,
                    right_button: flags & 0x02 != 0,
                    middle_button: flags & 0x04 != 0,
                },
            )
        }
    }

    /// Feed one polled i8042 byte with its status register: bytes from the
    /// keyboard port are ignored.
    pub fn poll_byte(&mut self, status: u8, byte: u8) -> (packet: Option<MousePacket>)
        requires
            old(self).wf(),
        ensures
            final(self).wf(),
            status & STATUS_AUX_DATA == 0 ==> packet.is_none() && final(self).spec_cycle() == old(
                self,
            ).spec_cycle() && final(self).spec_packet() == old(self).spec_packet(),
            status & STATUS_AUX_DATA != 0 ==> byte_step(*old(self), byte, *final(self), packet),
    {
        if status & STATUS_AUX_DATA == 0 {
            return None;
        }
        self.process_byte(byte)
    }
}

} // verus!
