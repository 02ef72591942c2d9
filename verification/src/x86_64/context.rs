//! The narrow x86-64 cooperative context-switch ABI. The initial frame holds,
//! in ascending address order, r15, r14, r13, r12, rbx, rbp, the entry
//! trampoline (consumed by `ret`), and a fatal return sentinel.
use vstd::prelude::*;
use crate::x86_64::paging::{canonical, is_canonical};

verus! {

/// Saved state for the x86-64 cooperative switch routine.
#[derive(Clone, Copy, Debug, PartialEq, Eq, Structural)]
pub struct TaskContext {
    /// Stack pointer at the first saved `r15` value.
    pub rsp: u64,
}

/// Bytes in the synthetic first-run frame, including its fatal return sentinel.
pub const INITIAL_FRAME_SIZE: usize = 64;

/// Errors from initial context-frame construction.
#[derive(Clone, Copy, Debug, PartialEq, Eq, Structural)]
pub enum ContextError {
    /// Stack bounds do not contain a full aligned initial frame.
    StackTooSmall,
    /// A trampoline address is not canonical.
    InvalidInstructionAddress,
}

/// The outcome of building an initial context on `stack_start..stack_end`.
pub open spec fn context_result(stack_start: u64, stack_end: u64, trampoline: u64, fatal_return: u64) -> Result<
    TaskContext,
    ContextError,
> {
    if !canonical(trampoline) || !canonical(fatal_return) {
        Err(ContextError::InvalidInstructionAddress)
    } else if stack_end < INITIAL_FRAME_SIZE {
        Err(ContextError::StackTooSmall)
    } else if stack_end - INITIAL_FRAME_SIZE < stack_start || (stack_end - INITIAL_FRAME_SIZE)
        % 16 != 0 {
        Err(ContextError::StackTooSmall)
    } else {
        Ok(TaskContext { rsp: (stack_end - INITIAL_FRAME_SIZE) as u64 })
    }
}

/// Builds an initial task context at the top of a mapped stack; the frame
/// words to store at `rsp` are given by `initial_frame_words`.
pub fn initialize_context(stack_start: u64, stack_end: u64, trampoline: u64, fatal_return: u64) -> (result:
    Result<TaskContext, ContextError>)
    ensures
        result == context_result(stack_start, stack_end, trampoline, fatal_return),
        result matches Ok(c) ==> stack_start <= c.rsp && c.rsp + INITIAL_FRAME_SIZE == stack_end
            && c.rsp % 16 == 0,
{
    if !is_canonical(trampoline) || !is_canonical(fatal_return) {
        return Err(ContextError::InvalidInstructionAddress);
    }
    let frame_start = match stack_end.checked_sub(INITIAL_FRAME_SIZE as u64) {
        Some(v) => v,
        None => return Err(ContextError::StackTooSmall),
    };
    if frame_start < stack_start || !frame_start.is_multiple_of(16) {
        return Err(ContextError::StackTooSmall);
    }
    Ok(TaskContext { rsp: frame_start })
}

/// The eight words of the first-run frame, lowest address first: six zeroed
/// callee-saved registers, the trampoline, and the fatal return sentinel.
pub fn initial_frame_words(trampoline: u64, fatal_return: u64) -> (words: [u64; 8])
    ensures
        words@ == seq![0u64, 0, 0, 0, 0, 0, trampoline, fatal_return],
{
    let words = [0, 0, 0, 0, 0, 0, trampoline, fatal_return];
    assert(words@ == seq![0u64, 0, 0, 0, 0, 0, trampoline, fatal_return]);
    words
}

} // verus!
