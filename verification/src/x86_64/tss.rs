//! The FinnOS-owned x86-64 Task State Segment.
use vstd::prelude::*;

verus! {

/// Size of the dedicated double-fault IST stack.
pub const DOUBLE_FAULT_STACK_SIZE: usize = 64 * 1024;
/// Alignment for the dedicated double-fault IST stack.
pub const DOUBLE_FAULT_STACK_ALIGN: usize = 4096;
/// Bytes in the architectural 64-bit TSS.
pub const TSS_SIZE: u16 = 104;
/// Interrupt-stack-table slots in the TSS.
pub const IST_SLOTS: usize = 7;

/// A single Interrupt Stack Table entry, split into low and high halves.
#[derive(Clone, Copy, Debug, PartialEq, Eq, Structural)]
pub struct ISTEntry {
    /// Low 32 bits of the stack pointer.
    pub low: u32,
    /// High 32 bits of the stack pointer.
    pub high: u32,
}

/// x86-64 Task State Segment. The architectural 64-bit reserved words are kept
/// as pairs of `u32` so the structure stays naturally aligned.
pub struct TSS {
    /// Reserved.
    pub reserved0: u32,
    /// Privilege level 0 stack pointer (low half).
    pub rsp0_low: u32,
    /// Privilege level 0 stack pointer (high half).
    pub rsp0_high: u32,
    /// Privilege level 1 stack pointer (low half).
    pub rsp1_low: u32,
    /// Privilege level 1 stack pointer (high half).
    pub rsp1_high: u32,
    /// Privilege level 2 stack pointer (low half).
    pub rsp2_low: u32,
    /// Privilege level 2 stack pointer (high half).
    pub rsp2_high: u32,
    /// Reserved.
    pub reserved1_low: u32,
    /// Reserved.
    pub reserved1_high: u32,
    /// Interrupt stack table entries.
    pub ist: [ISTEntry; 7],
    /// Reserved.
    pub reserved2_low: u32,
    /// Reserved.
    pub reserved2_high: u32,
    /// Reserved.
    pub reserved3: u16,
    /// I/O map base address. Set to the size of the TSS so no bitmap is exposed.
    pub io_map_base: u16,
}

/// The 64-bit value held by a split low/high pair.
pub open spec fn joined(low: u32, high: u32) -> u64 {
    ((high as u64) << 32u64) | (low as u64)
}

impl TSS {
    /// A zero-initialized TSS.
    pub fn new() -> (t: TSS)
        ensures
            t.rsp0_low == 0 && t.rsp0_high == 0,
            t.rsp1_low == 0 && t.rsp1_high == 0,
            t.rsp2_low == 0 && t.rsp2_high == 0,
            forall|i: int| 0 <= i < IST_SLOTS ==> #[trigger] t.ist@[i] == (ISTEntry { low: 0, high: 0 }),
            t.io_map_base == 0,
            t.reserved0 == 0 && t.reserved1_low == 0 && t.reserved1_high == 0,
            t.reserved2_low == 0 && t.reserved2_high == 0 && t.reserved3 == 0,
    {
        TSS {
            reserved0: 0,
            rsp0_low: 0,
            rsp0_high: 0,
            rsp1_low: 0,
            rsp1_high: 0,
            rsp2_low: 0,
            rsp2_high: 0,
            reserved1_low: 0,
            reserved1_high: 0,
            ist: [ISTEntry { low: 0, high: 0 }; 7],
            reserved2_low: 0,
            reserved2_high: 0,
            reserved3: 0,
            io_map_base: 0,
        }
    }

    /// Set RSP0 to a 64-bit stack top.
    pub fn set_rsp0(&mut self, value: u64)
        ensures
            final(self).rsp0_low == value as u32,
            final(self).rsp0_high == (value >> 32u64) as u32,
            joined(final(self).rsp0_low, final(self).rsp0_high) == value,
            *final(self) == (TSS {
                rsp0_low: final(self).rsp0_low,
                rsp0_high: final(self).rsp0_high,
                ..*old(self)
            }),
    {
        self.rsp0_low = value as u32;
        self.rsp0_high = (value >> 32u64) as u32;
        assert(((((value >> 32u64) as u32) as u64) << 32u64) | ((value as u32) as u64) == value)
            by (bit_vector);
    }

    /// Set IST slot `index` to a 64-bit stack top.
    pub fn set_ist(&mut self, index: usize, value: u64)
        requires
            index < IST_SLOTS,
        ensures
            final(self).ist@[index as int] == (ISTEntry {
                low: value as u32,
                high: (value >> 32u64) as u32,
            }),
            joined(final(self).ist@[index as int].low, final(self).ist@[index as int].high) == value,
            forall|i: int|
                0 <= i < IST_SLOTS && i != index ==> #[trigger] final(self).ist@[i] == old(
                    self,
                ).ist@[i],
            final(self).ist@ == old(self).ist@.update(index as int, final(self).ist@[index as int]),
            *final(self) == (TSS { ist: final(self).ist, ..*old(self) }),
    {
        let entry = ISTEntry { low: value as u32, high: (value >> 32u64) as u32 };
        self.ist[index] = entry;
        assert(((((value >> 32u64) as u32) as u64) << 32u64) | ((value as u32) as u64) == value)
            by (bit_vector);
    }

    /// The I/O map base value.
    pub fn io_map_base(&self) -> (b: u16)
        ensures
            b == self.io_map_base,
    {
        self.io_map_base
    }

    /// Install RSP0, the double-fault stack top in IST slot 1, and an I/O map
    /// base that exposes no bitmap.
    pub fn initialize(&mut self, rsp0: u64, double_fault_stack_top: u64)
        ensures
            joined(final(self).rsp0_low, final(self).rsp0_high) == rsp0,
            joined(final(self).ist@[0].low, final(self).ist@[0].high) == double_fault_stack_top,
            final(self).io_map_base == TSS_SIZE,
    {
        self.set_rsp0(rsp0);
        self.set_ist(0, double_fault_stack_top);
        self.io_map_base = TSS_SIZE;
    }
}

/// Size of the dedicated double-fault IST stack.
pub fn double_fault_stack_size() -> (n: usize)
    ensures
        n == DOUBLE_FAULT_STACK_SIZE,
{
    DOUBLE_FAULT_STACK_SIZE
}

/// Alignment of the dedicated double-fault IST stack.
pub fn double_fault_stack_align() -> (n: usize)
    ensures
        n == DOUBLE_FAULT_STACK_ALIGN,
{
    DOUBLE_FAULT_STACK_ALIGN
}

} // verus!
