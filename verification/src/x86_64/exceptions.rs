//! x86-64 exception vectors, page-fault error codes, and the controlled
//! exception self-test state.
use vstd::prelude::*;

verus! {

/// Breakpoint (`int3`).
pub const VECTOR_BREAKPOINT: u8 = 3;
/// Invalid opcode (`ud2`).
pub const VECTOR_INVALID_OPCODE: u8 = 6;
/// Double fault.
pub const VECTOR_DOUBLE_FAULT: u8 = 8;
/// General protection fault.
pub const VECTOR_GENERAL_PROTECTION: u8 = 13;
/// Page fault.
pub const VECTOR_PAGE_FAULT: u8 = 14;

/// The vectors for which the CPU pushes an error code.
pub open spec fn pushes_error_code(vector: u8) -> bool {
    vector == 8 || vector == 10 || vector == 11 || vector == 12 || vector == 13 || vector == 14
        || vector == 17 || vector == 21 || vector == 29 || vector == 30
}

/// The vectors for which the CPU pushes an error code, in ascending order.
pub fn error_code_vectors() -> (v: [u8; 10])
    ensures
        v@ == seq![8u8, 10, 11, 12, 13, 14, 17, 21, 29, 30],
        forall|x: u8| #[trigger] v@.contains(x) <==> pushes_error_code(x),
{
    let v: [u8; 10] = [8, 10, 11, 12, 13, 14, 17, 21, 29, 30];
    assert(v@ == seq![8u8, 10, 11, 12, 13, 14, 17, 21, 29, 30]);
    assert forall|x: u8| #[trigger] v@.contains(x) <==> pushes_error_code(x) by {
        if pushes_error_code(x) {
            if x == 8 { assert(v@[0] == x); }
            else if x == 10 { assert(v@[1] == x); }
            else if x == 11 { assert(v@[2] == x); }
            else if x == 12 { assert(v@[3] == x); }
            else if x == 13 { assert(v@[4] == x); }
            else if x == 14 { assert(v@[5] == x); }
            else if x == 17 { assert(v@[6] == x); }
            else if x == 21 { assert(v@[7] == x); }
            else if x == 29 { assert(v@[8] == x); }
            else { assert(v@[9] == x); }
        }
    }
    v
}

/// Whether the CPU pushes an error code for `vector`.
pub fn has_error_code(vector: u8) -> (b: bool)
    ensures
        b == pushes_error_code(vector),
{
    vector == 8 || vector == 10 || vector == 11 || vector == 12 || vector == 13 || vector == 14
        || vector == 17 || vector == 21 || vector == 29 || vector == 30
}

/// A decoded page-fault error code.
#[derive(Clone, Copy, Debug, PartialEq, Eq, Structural)]
pub struct PageFaultErrorCode(pub u64);

impl PageFaultErrorCode {
    /// Wrap a raw error code.
    pub fn new(code: u64) -> (e: PageFaultErrorCode)
        ensures
            e.0 == code,
    {
        PageFaultErrorCode(code)
    }

    /// The raw error code.
    pub fn raw(self) -> (r: u64)
        ensures
            r == self.0,
    {
        self.0
    }

    /// The fault was a protection violation on a present page (bit 0).
    pub fn present(self) -> (b: bool)
        ensures
            b == (self.0 & 0x1 != 0),
    {
        self.0 & 0x1 != 0
    }

    /// The access was a write: bit 1, where an instruction fetch (bit 4)
    /// counts as a write only together with bit 6.
    pub fn write(self) -> (b: bool)
        ensures
            b == (self.0 & 0x2 != 0 && (self.0 & 0x10 == 0 || self.0 & 0x40 != 0)),
    {
        self.0 & 0x2 != 0 && (self.0 & 0x10 == 0 || self.0 & 0x40 != 0)
    }

    /// The access came from user mode (bit 2).
    pub fn user(self) -> (b: bool)
        ensures
            b == (self.0 & 0x4 != 0),
    {
        self.0 & 0x4 != 0
    }

    /// A reserved bit was set in a paging structure: bit 3 or bit 7.
    pub fn reserved_violation(self) -> (b: bool)
        ensures
            b == (self.0 & 0x8 != 0 || self.0 & 0x80 != 0),
    {
        self.0 & 0x8 != 0 || self.0 & 0x80 != 0
    }

    /// The access was an instruction fetch (bit 4).
    pub fn instruction_fetch(self) -> (b: bool)
        ensures
            b == (self.0 & 0x10 != 0),
    {
        self.0 & 0x10 != 0
    }

    /// A protection key denied the access (bit 5).
    pub fn protection_key(self) -> (b: bool)
        ensures
            b == (self.0 & 0x20 != 0),
    {
        self.0 & 0x20 != 0
    }

    /// The access was a shadow-stack access: bit 6, unless bit 7 reports a
    /// reserved-bit violation.
    pub fn shadow_stack(self) -> (b: bool)
        ensures
            b == (self.0 & 0x40 != 0 && self.0 & 0x80 == 0),
    {
        self.0 & 0x40 != 0 && self.0 & 0x80 == 0
    }

    /// The fault is SGX-specific (bit 15).
    pub fn sgx(self) -> (b: bool)
        ensures
            b == (self.0 & 0x8000 != 0),
    {
        self.0 & 0x8000 != 0
    }
}

/// The frame built by the exception entry stubs, lowest address first.
#[derive(Clone, Copy, Debug, PartialEq, Eq, Structural)]
pub struct ExceptionFrame {
    pub rax: u64,
    pub rbx: u64,
    pub rcx: u64,
    pub rdx: u64,
    pub rsi: u64,
    pub rdi: u64,
    pub rbp: u64,
    pub r8: u64,
    pub r9: u64,
    pub r10: u64,
    pub r11: u64,
    pub r12: u64,
    pub r13: u64,
    pub r14: u64,
    pub r15: u64,
    pub vector: u64,
    pub error_code: u64,
    pub rip: u64,
    pub cs: u64,
    pub rflags: u64,
}

/// Phases of the controlled breakpoint and invalid-opcode self-test.
#[derive(Clone, Copy, Debug, PartialEq, Eq, Structural)]
pub enum TestState {
    Idle,
    BreakpointExpected,
    BreakpointHandled,
    InvalidOpcodeExpected,
}

/// The exception self-test state shared by the handlers and the test driver.
#[derive(Clone, Copy, Debug, PartialEq, Eq, Structural)]
pub struct ExceptionTestMonitor {
    pub state: TestState,
}

impl ExceptionTestMonitor {
    /// A monitor in the idle state.
    pub fn new() -> (m: ExceptionTestMonitor)
        ensures
            m.state == TestState::Idle,
    {
        ExceptionTestMonitor { state: TestState::Idle }
    }

    /// Enter `state` (the test driver arms the next expected exception).
    pub fn arm(&mut self, state: TestState)
        ensures
            final(self).state == state,
    {
        self.state = state;
    }

    /// A breakpoint arrived: it is accepted, and recorded as handled, only when one was expected.
    pub fn accept_breakpoint(&mut self) -> (accepted: bool)
        ensures
            accepted == (old(self).state == TestState::BreakpointExpected),
            accepted ==> final(self).state == TestState::BreakpointHandled,
            !accepted ==> final(self).state == old(self).state,
    {
        if self.state != TestState::BreakpointExpected {
            return false;
        }
        self.state = TestState::BreakpointHandled;
        true
    }

    /// Whether an invalid opcode is the expected test outcome.
    pub fn invalid_opcode_expected(&self) -> (b: bool)
        ensures
            b == (self.state == TestState::InvalidOpcodeExpected),
    {
        self.state == TestState::InvalidOpcodeExpected
    }
}

/// What the dispatcher does for an exception vector.
#[derive(Clone, Copy, Debug, PartialEq, Eq, Structural)]
pub enum ExceptionAction {
    /// Log the breakpoint and resume (fatal in test mode when not expected).
    Breakpoint,
    /// Invalid opcode: fatal unless the self-test expects it.
    InvalidOpcode,
    /// Double fault: fatal.
    DoubleFault,
    /// General protection fault: fatal.
    GeneralProtection,
    /// Page fault: report CR2 and the decoded error code, then fatal.
    PageFault,
    /// Any other vector: fatal.
    Unhandled,
}

/// The handler chosen for the low byte of a frame's vector.
pub fn dispatch_action(vector: u64) -> (a: ExceptionAction)
    ensures
        a == (if vector as u8 == VECTOR_BREAKPOINT {
            ExceptionAction::Breakpoint
        } else if vector as u8 == VECTOR_INVALID_OPCODE {
            ExceptionAction::InvalidOpcode
        } else if vector as u8 == VECTOR_DOUBLE_FAULT {
            ExceptionAction::DoubleFault
        } else if vector as u8 == VECTOR_GENERAL_PROTECTION {
            ExceptionAction::GeneralProtection
        } else if vector as u8 == VECTOR_PAGE_FAULT {
            ExceptionAction::PageFault
        } else {
            ExceptionAction::Unhandled
        }),
{
    let v = vector as u8;
    if v == VECTOR_BREAKPOINT {
        ExceptionAction::Breakpoint
    } else if v == VECTOR_INVALID_OPCODE {
        ExceptionAction::InvalidOpcode
    } else if v == VECTOR_DOUBLE_FAULT {
        ExceptionAction::DoubleFault
    } else if v == VECTOR_GENERAL_PROTECTION {
        ExceptionAction::GeneralProtection
    } else if v == VECTOR_PAGE_FAULT {
        ExceptionAction::PageFault
    } else {
        ExceptionAction::Unhandled
    }
}

} // verus!
