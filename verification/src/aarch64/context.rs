//! Initial frames for the AAPCS64 cooperative context switch: the saved
//! stack holds x19..x28, x29 (FP) and x30 (LR) in ascending order.
use vstd::prelude::*;

verus! {

/// Saved state for the cooperative switch routine.
#[derive(Clone, Copy, Debug, PartialEq, Eq, Structural)]
pub struct TaskContext {
    /// Saved stack pointer.
    pub sp: u64,
}

/// Bytes in the initial context frame (12 words: x19..x28, FP, LR).
pub const INITIAL_FRAME_SIZE: usize = 96;

/// Errors from initial context-frame construction.
#[derive(Clone, Copy, Debug, PartialEq, Eq, Structural)]
pub enum ContextError {
    /// Stack bounds do not contain a full aligned initial frame.
    StackTooSmall,
    /// An entry point or return address is invalid.
    InvalidInstructionAddress,
}

/// The outcome of building an initial context on `stack_start..stack_end`.
pub open spec fn context_result(
    stack_start: u64,
    stack_end: u64,
    trampoline: u64,
    fatal_return: u64,
) -> Result<TaskContext, ContextError> {
    if trampoline == 0 || fatal_return == 0 || trampoline % 4 != 0 {
        Err(ContextError::InvalidInstructionAddress)
    } else if stack_end < INITIAL_FRAME_SIZE {
        Err(ContextError::StackTooSmall)
    } else if stack_end - INITIAL_FRAME_SIZE < stack_start || (stack_end - INITIAL_FRAME_SIZE)
        % 16 != 0 {
        Err(ContextError::StackTooSmall)
    } else {
        Ok(TaskContext { sp: (stack_end - INITIAL_FRAME_SIZE) as u64 })
    }
}

/// Builds an initial task context at the top of a mapped stack; the words
/// to store at `sp` are given by `initial_frame_words`.
pub fn initialize_context(stack_start: u64, stack_end: u64, trampoline: u64, fatal_return: u64) -> (result:
    Result<TaskContext, ContextError>)
    ensures
        result == context_result(stack_start, stack_end, trampoline, fatal_return),
        result matches Ok(c) ==> stack_start <= c.sp && c.sp + INITIAL_FRAME_SIZE == stack_end
            && c.sp % 16 == 0,
{
    if trampoline == 0 || fatal_return == 0 || !trampoline.is_multiple_of(4) {
        return Err(ContextError::InvalidInstructionAddress);
    }
    let frame_start = match stack_end.checked_sub(INITIAL_FRAME_SIZE as u64) {
        Some(v) => v,
        None => return Err(ContextError::StackTooSmall),
    };
    if frame_start < stack_start || !frame_start.is_multiple_of(16) {
        return Err(ContextError::StackTooSmall);
    }
    Ok(TaskContext { sp: frame_start })
}

/// The twelve words of the first-run frame, lowest address first: x19..x28
/// and FP zeroed, LR set to the trampoline.
pub fn initial_frame_words(trampoline: u64) -> (words: [u64; 12])
    ensures
        words@ == seq![0u64, 0, 0, 0, 0, 0, 0, 0, 0, 0, 0, trampoline],
{
    let words = [0, 0, 0, 0, 0, 0, 0, 0, 0, 0, 0, trampoline];
    assert(words@ == seq![0u64, 0, 0, 0, 0, 0, 0, 0, 0, 0, 0, trampoline]);
    words
}

} // verus!
