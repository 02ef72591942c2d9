//! GICv2 acknowledge policy and register-offset checks for the QEMU `virt` GIC.
use vstd::prelude::*;

verus! {

/// Distributor MMIO base.
pub const DISTRIBUTOR_BASE: u64 = 0x0800_0000;
/// CPU interface MMIO base.
pub const CPU_INTERFACE_BASE: u64 = 0x0801_0000;
/// Size of each MMIO interface.
pub const INTERFACE_SIZE: u64 = 0x1_0000;
/// The SGI used by the controlled self-test.
pub const TEST_SGI_ID: u32 = 1;
/// The spurious interrupt identifier.
pub const SPURIOUS_INTERRUPT_ID: u32 = 1023;
/// Mask of the interrupt identifier in an IAR value.
pub const INTERRUPT_ID_MASK: u32 = 0x3ff;
/// First of the special (non-acknowledgeable) identifiers.
pub const SPECIAL_INTERRUPT_ID_START: u32 = 1020;
/// IAR bits naming the SGI source CPU.
pub const SGI_SOURCE_MASK: u32 = 0x1c00;

/// GIC initialization failures.
#[derive(Clone, Copy, Debug, PartialEq, Eq, Structural)]
pub enum InitializationError {
    IrqNotMasked,
    AlreadyInitialized,
    InvalidTyper,
    RegisterReadback,
}

/// Distributor identification gathered at initialization.
#[derive(Clone, Copy, Debug, PartialEq, Eq, Structural)]
pub struct ControllerInfo {
    pub typer: u32,
    pub iidr: u32,
    pub interrupt_lines: u32,
}

/// What the IRQ handler did with one acknowledge.
#[derive(Clone, Copy, Debug, PartialEq, Eq, Structural)]
pub enum IrqDisposition {
    Handled,
    Spurious(u32),
    Unexpected { raw_iar: u32, interrupt_id: u32 },
    ContextFault,
    ControllerNotReady,
}

/// Classification of an acknowledged interrupt.
#[derive(Clone, Copy, Debug, PartialEq, Eq, Structural)]
pub enum AcknowledgeClass {
    ExpectedSgi,
    Special(u32),
    Unexpected(u32),
}

/// Classify an IAR value: special identifiers never enter the normal EOI
/// path, and only the armed test SGI from CPU 0 is expected.
pub fn classify_acknowledge(raw_iar: u32, armed: bool) -> (c: AcknowledgeClass)
    ensures
        raw_iar & INTERRUPT_ID_MASK >= SPECIAL_INTERRUPT_ID_START ==> c == AcknowledgeClass::Special(
            raw_iar & INTERRUPT_ID_MASK,
        ),
        raw_iar & INTERRUPT_ID_MASK < SPECIAL_INTERRUPT_ID_START && raw_iar & INTERRUPT_ID_MASK
            == TEST_SGI_ID && raw_iar & SGI_SOURCE_MASK == 0 && armed ==> c
            == AcknowledgeClass::ExpectedSgi,
        raw_iar & INTERRUPT_ID_MASK < SPECIAL_INTERRUPT_ID_START && !(raw_iar & INTERRUPT_ID_MASK
            == TEST_SGI_ID && raw_iar & SGI_SOURCE_MASK == 0 && armed) ==> c
            == AcknowledgeClass::Unexpected(raw_iar & INTERRUPT_ID_MASK),
{
    let id = raw_iar & INTERRUPT_ID_MASK;
    if id >= SPECIAL_INTERRUPT_ID_START {
        AcknowledgeClass::Special(id)
    } else if id == TEST_SGI_ID && raw_iar & SGI_SOURCE_MASK == 0 && armed {
        AcknowledgeClass::ExpectedSgi
    } else {
        AcknowledgeClass::Unexpected(id)
    }
}

/// Whether `offset` is a 4-byte-aligned register inside one interface.
pub fn register_offset_valid(offset: u64) -> (b: bool)
    ensures
        b == (offset % 4 == 0 && offset <= INTERFACE_SIZE - 4),
{
    offset.is_multiple_of(4) && offset <= INTERFACE_SIZE - 4
}

/// Interrupt lines implemented according to `GICD_TYPER`.
pub fn interrupt_lines(typer: u32) -> (result: Result<u32, InitializationError>)
    ensures
        result == Ok::<u32, InitializationError>((((typer & 0x1f) + 1) * 32) as u32),
{
    assert(typer & 0x1f <= 31) by (bit_vector);
    let groups = (typer & 0x1f) + 1;
    if groups == 0 || groups > 32 {
        return Err(InitializationError::InvalidTyper);
    }
    Ok(groups * 32)
}

/// The self-test SGI state machine and delivery counters.
#[derive(Clone, Copy, Debug, PartialEq, Eq, Structural)]
pub struct GicMonitor {
    pub ready: bool,
    pub armed: bool,
    pub observed: bool,
    pub deliveries: u64,
    pub eois: u64,
    pub spurious: u64,
    pub frame_sentinel: u64,
    pub irq_spsr: u64,
    pub last_iar: u64,
}

/// What the handler must do at the CPU interface for one acknowledge.
#[derive(Clone, Copy, Debug, PartialEq, Eq, Structural)]
pub struct IrqOutcome {
    pub disposition: IrqDisposition,
    /// Whether the IAR value is written back to `GICC_EOIR`.
    pub end_of_interrupt: bool,
}

impl GicMonitor {
    /// Not ready, idle, no deliveries.
    pub fn new() -> (m: GicMonitor)
        ensures
            m == (GicMonitor {
                ready: false,
                armed: false,
                observed: false,
                deliveries: 0,
                eois: 0,
                spurious: 0,
                frame_sentinel: 0,
                irq_spsr: 0,
                last_iar: 0,
            }),
    {
        GicMonitor {
            ready: false,
            armed: false,
            observed: false,
            deliveries: 0,
            eois: 0,
            spurious: 0,
            frame_sentinel: 0,
            irq_spsr: 0,
            last_iar: 0,
        }
    }

    /// Arms the self-test SGI: only when IRQs are masked, the controller is
    /// ready, and the test is idle.
    pub fn arm_test(&mut self, irq_masked: bool) -> (armed: bool)
        ensures
            armed == (irq_masked && old(self).ready && !old(self).armed && !old(self).observed),
            armed ==> *final(self) == (GicMonitor { armed: true, ..*old(self) }),
            !armed ==> *final(self) == *old(self),
    {
        if irq_masked && self.ready && !self.armed && !self.observed {
            self.armed = true;
            true
        } else {
            false
        }
    }

    /// Whether the armed SGI has been delivered.
    pub fn test_observed(&self) -> (b: bool)
        ensures
            b == self.observed,
    {
        self.observed
    }

    /// Handles the acknowledged value `raw_iar`.
    pub fn handle_irq(&mut self, context_entered: bool, raw_iar: u32, frame_sentinel: u64, spsr: u64) -> (out:
        IrqOutcome)
        ensures
            !context_entered ==> out.disposition == IrqDisposition::ContextFault
                && !out.end_of_interrupt && *final(self) == *old(self),
            context_entered && !old(self).ready ==> out.disposition
                == IrqDisposition::ControllerNotReady && !out.end_of_interrupt && *final(self)
                == *old(self),
            context_entered && old(self).ready ==> match classify_acknowledge_spec(raw_iar, old(self).armed) {
                AcknowledgeClass::Special(id) => out.disposition == IrqDisposition::Spurious(id)
                    && !out.end_of_interrupt,
                AcknowledgeClass::ExpectedSgi => out.disposition == IrqDisposition::Handled
                    && out.end_of_interrupt && final(self).observed && !final(self).armed,
                AcknowledgeClass::Unexpected(id) => out.disposition == IrqDisposition::Unexpected {
                    raw_iar,
                    interrupt_id: id,
                } && out.end_of_interrupt,
            },
    {
        if !context_entered {
            return IrqOutcome { disposition: IrqDisposition::ContextFault, end_of_interrupt: false };
        }
        if !self.ready {
            return IrqOutcome {
                disposition: IrqDisposition::ControllerNotReady,
                end_of_interrupt: false,
            };
        }
        match classify_acknowledge(raw_iar, self.armed) {
            AcknowledgeClass::Special(id) => {
                self.spurious = self.spurious.wrapping_add(1);
                IrqOutcome { disposition: IrqDisposition::Spurious(id), end_of_interrupt: false }
            },
            AcknowledgeClass::ExpectedSgi => {
                self.frame_sentinel = frame_sentinel;
                self.irq_spsr = spsr;
                self.last_iar = raw_iar as u64;
                self.eois = self.eois.wrapping_add(1);
                self.deliveries = self.deliveries.wrapping_add(1);
                self.armed = false;
                self.observed = true;
                IrqOutcome { disposition: IrqDisposition::Handled, end_of_interrupt: true }
            },
            AcknowledgeClass::Unexpected(id) => IrqOutcome {
                disposition: IrqDisposition::Unexpected { raw_iar, interrupt_id: id },
                end_of_interrupt: true,
            },
        }
    }

    /// Delivered test SGIs.
    pub fn deliveries(&self) -> (n: u64)
        ensures
            n == self.deliveries,
    {
        self.deliveries
    }

    /// End-of-interrupt writes for delivered SGIs.
    pub fn eois(&self) -> (n: u64)
        ensures
            n == self.eois,
    {
        self.eois
    }

    /// Spurious acknowledges.
    pub fn spurious_count(&self) -> (n: u64)
        ensures
            n == self.spurious,
    {
        self.spurious
    }

    /// The last acknowledged test SGI value.
    pub fn last_iar(&self) -> (n: u64)
        ensures
            n == self.last_iar,
    {
        self.last_iar
    }

    /// The frame sentinel seen by the last delivered SGI.
    pub fn frame_sentinel(&self) -> (n: u64)
        ensures
            n == self.frame_sentinel,
    {
        self.frame_sentinel
    }

    /// The SPSR seen by the last delivered SGI.
    pub fn irq_spsr(&self) -> (n: u64)
        ensures
            n == self.irq_spsr,
    {
        self.irq_spsr
    }
}

/// The classification `classify_acknowledge` computes.
pub open spec fn classify_acknowledge_spec(raw_iar: u32, armed: bool) -> AcknowledgeClass {
    if raw_iar & INTERRUPT_ID_MASK >= SPECIAL_INTERRUPT_ID_START {
        AcknowledgeClass::Special(raw_iar & INTERRUPT_ID_MASK)
    } else if raw_iar & INTERRUPT_ID_MASK == TEST_SGI_ID && raw_iar & SGI_SOURCE_MASK == 0 && armed {
        AcknowledgeClass::ExpectedSgi
    } else {
        AcknowledgeClass::Unexpected(raw_iar & INTERRUPT_ID_MASK)
    }
}

/// Whether DAIF has the IRQ mask bit set.
pub fn irq_is_masked(daif: u64) -> (b: bool)
    ensures
        b == (daif & 0x80 != 0),
{
    daif & 0x80 != 0
}

} // verus!
