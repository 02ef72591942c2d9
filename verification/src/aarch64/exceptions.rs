//! AArch64 exception syndrome decoding and the controlled breakpoint and
//! page-fault self-test policies.
use vstd::prelude::*;

verus! {

/// Bytes in the exception frame built by the vector stubs.
pub const FRAME_SIZE: usize = 816;
/// Required alignment of VBAR_EL1.
pub const VECTOR_ALIGNMENT: usize = 2048;
/// CPACR_EL1.FPEN bits.
pub const CPACR_EL1_FPEN_MASK: u64 = 0x30_0000;
/// Vector source: current EL with SP0, synchronous.
pub const SOURCE_CURRENT_SP0_SYNC: u64 = 0;
/// Vector source: current EL with SPx, synchronous.
pub const SOURCE_CURRENT_SPX_SYNC: u64 = 4;
/// Vector source: current EL with SPx, IRQ.
pub const SOURCE_CURRENT_SPX_IRQ: u64 = 5;
/// Exception class of a BRK instruction.
pub const EC_BRK64: u8 = 0x3c;
/// Exception class of an instruction abort at the current EL.
pub const EC_INSTRUCTION_ABORT_CURRENT_EL: u8 = 0x21;
/// Exception class of a data abort at the current EL.
pub const EC_DATA_ABORT_CURRENT_EL: u8 = 0x25;
/// ISS: the access was a write.
pub const ISS_WRITE_NOT_READ: u64 = 0x40;
/// ISS: fault on a stage-1 table walk.
pub const ISS_STAGE_ONE_PAGE_TABLE_WALK: u64 = 0x80;
/// ISS: FAR is not valid.
pub const ISS_FAR_NOT_VALID: u64 = 0x400;
/// ESR: 32-bit instruction.
pub const ESR_INSTRUCTION_LENGTH: u64 = 0x200_0000;
/// Fault status code mask.
pub const FSC_MASK: u64 = 0x3f;
/// Translation fault class.
pub const FSC_TRANSLATION_FAULT: u64 = 0x4;
/// Permission fault class.
pub const FSC_PERMISSION_FAULT: u64 = 0xc;
/// Immediate of the controlled breakpoint.
pub const CONTROLLED_BRK_IMMEDIATE: u16 = 0xf100;
/// Breakpoint self-test: idle.
pub const TEST_IDLE: u8 = 0;
/// Breakpoint self-test: armed.
pub const TEST_ARMED: u8 = 1;
/// Breakpoint self-test: observed.
pub const TEST_OBSERVED: u8 = 2;

/// Exception-vector initialization failures.
#[derive(Clone, Copy, Debug, PartialEq, Eq, Structural)]
pub enum InitializationError {
    UnsupportedExceptionLevel(u8),
    MisalignedVectorBase,
    FpSimdUnavailable,
}

/// The saved state built by the vector stubs.
#[derive(Clone, Copy, Debug)]
pub struct ExceptionFrame {
    pub registers: [u64; 31],
    pub elr: u64,
    pub spsr: u64,
    pub esr: u64,
    pub far: u64,
    pub source: u64,
    pub vectors: [u128; 32],
    pub fpcr: u64,
    pub fpsr: u64,
}

/// The exception level encoded in a `CurrentEL` value.
pub fn decode_current_el(raw: u64) -> (el: u8)
    ensures
        el == ((raw >> 2u64) & 0x3) as u8,
        el <= 3,
{
    let v = (raw >> 2u64) & 0x3;
    assert(v <= 3) by (bit_vector)
        requires
            v == (raw >> 2u64) & 0x3,
    ;
    v as u8
}

/// The exception class of a syndrome.
pub open spec fn class_of(esr: u64) -> u8 {
    ((esr >> 26u64) & 0x3f) as u8
}

/// The exception class of a syndrome.
pub fn exception_class(esr: u64) -> (ec: u8)
    ensures
        ec == class_of(esr),
{
    ((esr >> 26u64) & 0x3f) as u8
}

/// The immediate of a BRK syndrome.
pub fn breakpoint_immediate(esr: u64) -> (imm: u16)
    ensures
        imm == (esr & 0xffff) as u16,
{
    (esr & 0xffff) as u16
}

/// Whether EL1 floating-point and SIMD access is enabled (both FPEN bits set).
pub fn fp_simd_enabled(cpacr_el1: u64) -> (b: bool)
    ensures
        b == (cpacr_el1 & CPACR_EL1_FPEN_MASK == CPACR_EL1_FPEN_MASK),
{
    cpacr_el1 & CPACR_EL1_FPEN_MASK == CPACR_EL1_FPEN_MASK
}

/// Checks the state read at initialization: EL1, FP/SIMD enabled, and an
/// aligned vector table.
pub fn initialization_check(current_el_raw: u64, cpacr_el1: u64, vector_base: u64) -> (result:
    Result<(), InitializationError>)
    ensures
        ((current_el_raw >> 2u64) & 0x3) as u8 != 1 ==> result == Err::<(), InitializationError>(
            InitializationError::UnsupportedExceptionLevel(((current_el_raw >> 2u64) & 0x3) as u8),
        ),
        ((current_el_raw >> 2u64) & 0x3) as u8 == 1 && cpacr_el1 & CPACR_EL1_FPEN_MASK
            != CPACR_EL1_FPEN_MASK ==> result == Err::<(), InitializationError>(
            InitializationError::FpSimdUnavailable,
        ),
        ((current_el_raw >> 2u64) & 0x3) as u8 == 1 && cpacr_el1 & CPACR_EL1_FPEN_MASK
            == CPACR_EL1_FPEN_MASK ==> result == (if vector_base % 2048 != 0 {
            Err::<(), InitializationError>(InitializationError::MisalignedVectorBase)
        } else {
            Ok::<(), InitializationError>(())
        }),
{
    let level = decode_current_el(current_el_raw);
    if level != 1 {
        return Err(InitializationError::UnsupportedExceptionLevel(level));
    }
    if !fp_simd_enabled(cpacr_el1) {
        return Err(InitializationError::FpSimdUnavailable);
    }
    if !vector_base.is_multiple_of(VECTOR_ALIGNMENT as u64) {
        return Err(InitializationError::MisalignedVectorBase);
    }
    Ok(())
}

/// The ELR advance that resumes after the controlled breakpoint, when the
/// test is armed and the syndrome is exactly that breakpoint.
pub fn controlled_resume_delta(state: u8, source: u64, esr: u64) -> (d: Option<u64>)
    ensures
        d == (if state == TEST_ARMED && (source == SOURCE_CURRENT_SP0_SYNC || source
            == SOURCE_CURRENT_SPX_SYNC) && class_of(esr) == EC_BRK64 && (esr & 0xffff) as u16
            == CONTROLLED_BRK_IMMEDIATE {
            Some(4u64)
        } else {
            None
        }),
{
    if state == TEST_ARMED && (source == SOURCE_CURRENT_SP0_SYNC || source
        == SOURCE_CURRENT_SPX_SYNC) && exception_class(esr) == EC_BRK64 && breakpoint_immediate(esr)
        == CONTROLLED_BRK_IMMEDIATE {
        Some(4)
    } else {
        None
    }
}

/// The page-fault classes the self-test provokes.
#[derive(Clone, Copy, Debug, PartialEq, Eq, Structural)]
pub enum ExpectedPageFault {
    NullRead,
    GuardRead,
    TextWrite,
    DataExecute,
}

/// Exception class, fault-status class and write flag expected for a fault.
pub open spec fn expected_syndrome(expected: ExpectedPageFault) -> (u8, u64, bool) {
    match expected {
        ExpectedPageFault::NullRead => (EC_DATA_ABORT_CURRENT_EL, FSC_TRANSLATION_FAULT, false),
        ExpectedPageFault::GuardRead => (EC_DATA_ABORT_CURRENT_EL, FSC_TRANSLATION_FAULT, false),
        ExpectedPageFault::TextWrite => (EC_DATA_ABORT_CURRENT_EL, FSC_PERMISSION_FAULT, true),
        ExpectedPageFault::DataExecute => (
            EC_INSTRUCTION_ABORT_CURRENT_EL,
            FSC_PERMISSION_FAULT,
            false,
        ),
    }
}

/// The exact-match rule of `page_fault_syndrome_matches`.
pub open spec fn matches_spec(
    expected: ExpectedPageFault,
    source: u64,
    esr: u64,
    far: u64,
    elr: u64,
    expected_far: u64,
    expected_elr: u64,
) -> bool {
    source == SOURCE_CURRENT_SPX_SYNC && far == expected_far && elr == expected_elr && class_of(esr)
        == expected_syndrome(expected).0 && (esr & FSC_MASK) & !0x3u64 == expected_syndrome(
        expected,
    ).1 && (esr & ISS_WRITE_NOT_READ != 0) == expected_syndrome(expected).2 && esr
        & ESR_INSTRUCTION_LENGTH != 0 && esr & (ISS_FAR_NOT_VALID | ISS_STAGE_ONE_PAGE_TABLE_WALK)
        == 0
}

/// Whether a fault matches the armed expectation exactly: same-EL SPx
/// synchronous source, addresses, class, fault status class, access
/// direction, a 32-bit instruction, and a valid FAR not from a table walk.
pub fn page_fault_syndrome_matches(
    expected: ExpectedPageFault,
    source: u64,
    esr: u64,
    far: u64,
    elr: u64,
    expected_far: u64,
    expected_elr: u64,
) -> (b: bool)
    ensures
        b == (source == SOURCE_CURRENT_SPX_SYNC && far == expected_far && elr == expected_elr
            && class_of(esr) == expected_syndrome(expected).0 && (esr & FSC_MASK) & !0x3u64
            == expected_syndrome(expected).1 && (esr & ISS_WRITE_NOT_READ != 0)
            == expected_syndrome(expected).2 && esr & ESR_INSTRUCTION_LENGTH != 0 && esr & (
        ISS_FAR_NOT_VALID | ISS_STAGE_ONE_PAGE_TABLE_WALK) == 0),
{
    let (expected_ec, expected_fsc, expected_write) = match expected {
        ExpectedPageFault::NullRead => (EC_DATA_ABORT_CURRENT_EL, FSC_TRANSLATION_FAULT, false),
        ExpectedPageFault::GuardRead => (EC_DATA_ABORT_CURRENT_EL, FSC_TRANSLATION_FAULT, false),
        ExpectedPageFault::TextWrite => (EC_DATA_ABORT_CURRENT_EL, FSC_PERMISSION_FAULT, true),
        ExpectedPageFault::DataExecute => (
            EC_INSTRUCTION_ABORT_CURRENT_EL,
            FSC_PERMISSION_FAULT,
            false,
        ),
    };
    source == SOURCE_CURRENT_SPX_SYNC && far == expected_far && elr == expected_elr
        && exception_class(esr) == expected_ec && (esr & FSC_MASK) & !0x3u64 == expected_fsc && (
    esr & ISS_WRITE_NOT_READ != 0) == expected_write && esr & ESR_INSTRUCTION_LENGTH != 0 && esr
        & (ISS_FAR_NOT_VALID | ISS_STAGE_ONE_PAGE_TABLE_WALK) == 0
}

/// States of the page-fault self-test.
#[derive(Clone, Copy, Debug, PartialEq, Eq, Structural)]
pub enum PageFaultTestState {
    Idle,
    NullArmed,
    NullObserved,
    GuardArmed,
    GuardObserved,
    TextWriteArmed,
    TextWriteObserved,
    DataExecuteArmed,
    DataExecuteObserved,
}

/// The expectation while a fault is armed: the fault class, faulting
/// address, faulting instruction, resume address and observed state.
#[derive(Clone, Copy, Debug, PartialEq, Eq, Structural)]
pub struct ArmedExpectation {
    pub expected: ExpectedPageFault,
    pub far: u64,
    pub elr: u64,
    pub resume: u64,
    pub observed: PageFaultTestState,
}

/// Addresses of the self-test's probe instructions and targets.
#[derive(Clone, Copy, Debug, PartialEq, Eq, Structural)]
pub struct PageFaultProbes {
    pub low_guard: u64,
    pub text_target: u64,
    pub data_target: u64,
    pub null_read_fault: u64,
    pub null_read_resume: u64,
    pub guard_read_fault: u64,
    pub guard_read_resume: u64,
    pub text_write_fault: u64,
    pub text_write_resume: u64,
    pub data_execute_resume: u64,
}

/// The expectation for an armed state; none when no fault is armed.
pub open spec fn armed_expectation(state: PageFaultTestState, probes: PageFaultProbes) -> Option<
    ArmedExpectation,
> {
    match state {
        PageFaultTestState::NullArmed => Some(
            ArmedExpectation {
                expected: ExpectedPageFault::NullRead,
                far: 0,
                elr: probes.null_read_fault,
                resume: probes.null_read_resume,
                observed: PageFaultTestState::NullObserved,
            },
        ),
        PageFaultTestState::GuardArmed => Some(
            ArmedExpectation {
                expected: ExpectedPageFault::GuardRead,
                far: probes.low_guard,
                elr: probes.guard_read_fault,
                resume: probes.guard_read_resume,
                observed: PageFaultTestState::GuardObserved,
            },
        ),
        PageFaultTestState::TextWriteArmed => Some(
            ArmedExpectation {
                expected: ExpectedPageFault::TextWrite,
                far: probes.text_target,
                elr: probes.text_write_fault,
                resume: probes.text_write_resume,
                observed: PageFaultTestState::TextWriteObserved,
            },
        ),
        PageFaultTestState::DataExecuteArmed => Some(
            ArmedExpectation {
                expected: ExpectedPageFault::DataExecute,
                far: probes.data_target,
                elr: probes.data_target,
                resume: probes.data_execute_resume,
                observed: PageFaultTestState::DataExecuteObserved,
            },
        ),
        _ => None,
    }
}

/// The expectation for an armed state; none when no fault is armed.
pub fn armed_page_fault_expectation(state: PageFaultTestState, probes: PageFaultProbes) -> (e: Option<
    ArmedExpectation,
>)
    ensures
        state == PageFaultTestState::NullArmed ==> e == Some(ArmedExpectation {
            expected: ExpectedPageFault::NullRead,
            far: 0,
            elr: probes.null_read_fault,
            resume: probes.null_read_resume,
            observed: PageFaultTestState::NullObserved,
        }),
        state == PageFaultTestState::GuardArmed ==> e == Some(ArmedExpectation {
            expected: ExpectedPageFault::GuardRead,
            far: probes.low_guard,
            elr: probes.guard_read_fault,
            resume: probes.guard_read_resume,
            observed: PageFaultTestState::GuardObserved,
        }),
        state == PageFaultTestState::TextWriteArmed ==> e == Some(ArmedExpectation {
            expected: ExpectedPageFault::TextWrite,
            far: probes.text_target,
            elr: probes.text_write_fault,
            resume: probes.text_write_resume,
            observed: PageFaultTestState::TextWriteObserved,
        }),
        state == PageFaultTestState::DataExecuteArmed ==> e == Some(ArmedExpectation {
            expected: ExpectedPageFault::DataExecute,
            far: probes.data_target,
            elr: probes.data_target,
            resume: probes.data_execute_resume,
            observed: PageFaultTestState::DataExecuteObserved,
        }),
        !(state == PageFaultTestState::NullArmed || state == PageFaultTestState::GuardArmed || state
            == PageFaultTestState::TextWriteArmed || state == PageFaultTestState::DataExecuteArmed)
            ==> e.is_none(),
        e == armed_expectation(state, probes),
{
    match state {
        PageFaultTestState::NullArmed => Some(
            ArmedExpectation {
                expected: ExpectedPageFault::NullRead,
                far: 0,
                elr: probes.null_read_fault,
                resume: probes.null_read_resume,
                observed: PageFaultTestState::NullObserved,
            },
        ),
        PageFaultTestState::GuardArmed => Some(
            ArmedExpectation {
                expected: ExpectedPageFault::GuardRead,
                far: probes.low_guard,
                elr: probes.guard_read_fault,
                resume: probes.guard_read_resume,
                observed: PageFaultTestState::GuardObserved,
            },
        ),
        PageFaultTestState::TextWriteArmed => Some(
            ArmedExpectation {
                expected: ExpectedPageFault::TextWrite,
                far: probes.text_target,
                elr: probes.text_write_fault,
                resume: probes.text_write_resume,
                observed: PageFaultTestState::TextWriteObserved,
            },
        ),
        PageFaultTestState::DataExecuteArmed => Some(
            ArmedExpectation {
                expected: ExpectedPageFault::DataExecute,
                far: probes.data_target,
                elr: probes.data_target,
                resume: probes.data_execute_resume,
                observed: PageFaultTestState::DataExecuteObserved,
            },
        ),
        _ => None,
    }
}

/// What the synchronous handler does with a fault while the page-fault
/// self-test runs.
#[derive(Clone, Copy, Debug, PartialEq, Eq, Structural)]
pub enum PageFaultDecision {
    /// The armed fault arrived exactly: resume at this address.
    Resume(u64),
    /// The armed fault arrived but the test has no resume address.
    StateError,
    /// Not the armed fault; other policies decide.
    NotExpected,
}

/// The self-test's page-fault state.
#[derive(Clone, Copy, Debug, PartialEq, Eq, Structural)]
pub struct PageFaultMonitor {
    pub state: PageFaultTestState,
}

impl PageFaultMonitor {
    /// An idle monitor.
    pub fn new() -> (m: PageFaultMonitor)
        ensures
            m.state == PageFaultTestState::Idle,
    {
        PageFaultMonitor { state: PageFaultTestState::Idle }
    }

    /// Arms a fault; only from the idle state.
    pub fn arm_page_fault(&mut self, armed: PageFaultTestState) -> (ok: bool)
        ensures
            ok == (old(self).state == PageFaultTestState::Idle),
            ok ==> final(self).state == armed,
            !ok ==> final(self).state == old(self).state,
    {
        if self.state != PageFaultTestState::Idle {
            return false;
        }
        self.state = armed;
        true
    }

    /// Returns to idle; succeeds only when the expected fault was observed.
    pub fn observe_page_fault(&mut self, observed: PageFaultTestState) -> (ok: bool)
        ensures
            ok == (old(self).state == observed),
            final(self).state == PageFaultTestState::Idle,
    {
        let previous = self.state;
        self.state = PageFaultTestState::Idle;
        previous == observed
    }

    /// Decides a synchronous fault against the armed expectation; an exact
    /// match with a resume address moves the test to its observed state.
    pub fn handle_page_fault(
        &mut self,
        probes: PageFaultProbes,
        source: u64,
        esr: u64,
        far: u64,
        elr: u64,
    ) -> (d: PageFaultDecision)
        ensures
            match armed_expectation(old(self).state, probes) {
                Some(e) => if matches_spec(e.expected, source, esr, far, elr, e.far, e.elr) {
                    if e.resume == 0 {
                        d == PageFaultDecision::StateError && *final(self) == *old(self)
                    } else {
                        d == PageFaultDecision::Resume(e.resume) && final(self).state == e.observed
                    }
                } else {
                    d == PageFaultDecision::NotExpected && *final(self) == *old(self)
                },
                None => d == PageFaultDecision::NotExpected && *final(self) == *old(self),
            },
    {
        match armed_page_fault_expectation(self.state, probes) {
            Some(e) => {
                if page_fault_syndrome_matches(e.expected, source, esr, far, elr, e.far, e.elr) {
                    if e.resume == 0 {
                        PageFaultDecision::StateError
                    } else {
                        self.state = e.observed;
                        PageFaultDecision::Resume(e.resume)
                    }
                } else {
                    PageFaultDecision::NotExpected
                }
            },
            None => PageFaultDecision::NotExpected,
        }
    }
}

} // verus!
