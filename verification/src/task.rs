//! Generation-tagged task identities shared by the scheduler glue and the
//! interrupt stack-attribution table.
use vstd::prelude::*;

verus! {

/// Slots in the bounded task table (slot 0 is the bootstrap task).
pub const MAX_TASKS: usize = 8;

/// Task-policy failures.
#[derive(Clone, Copy, Debug, PartialEq, Eq, Structural)]
pub enum TaskError {
    /// The slot is outside the task table.
    InvalidSlot,
    /// Generation zero never names a live task.
    InvalidGeneration,
}

/// Lifecycle state of a task slot.
#[derive(Clone, Copy, Debug, PartialEq, Eq, Structural)]
pub enum TaskState {
    Vacant,
    Ready,
    Running,
    Blocked,
    Exited,
}

/// A slot index tagged with the generation that occupies it.
#[derive(Clone, Copy, Debug, PartialEq, Eq, Structural)]
pub struct TaskId {
    pub slot: u8,
    pub generation: u32,
}

impl TaskId {
    /// A task identity; the slot must be in the table and the generation non-zero.
    pub fn new(slot: u8, generation: u32) -> (result: Result<TaskId, TaskError>)
        ensures
            slot as usize >= MAX_TASKS ==> result == Err::<TaskId, TaskError>(TaskError::InvalidSlot),
            (slot as usize) < MAX_TASKS && generation == 0 ==> result == Err::<TaskId, TaskError>(
                TaskError::InvalidGeneration,
            ),
            (slot as usize) < MAX_TASKS && generation != 0 ==> result == Ok::<TaskId, TaskError>(
                TaskId { slot, generation },
            ),
    {
        if slot as usize >= MAX_TASKS {
            return Err(TaskError::InvalidSlot);
        }
        if generation == 0 {
            return Err(TaskError::InvalidGeneration);
        }
        Ok(TaskId { slot, generation })
    }

    /// The table slot.
    pub fn slot(self) -> (s: usize)
        ensures
            s == self.slot,
    {
        self.slot as usize
    }

    /// The generation tag.
    pub fn generation(self) -> (g: u32)
        ensures
            g == self.generation,
    {
        self.generation
    }
}

} // verus!
