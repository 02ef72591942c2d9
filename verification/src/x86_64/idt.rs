//! Gate encodings of the FinnOS-owned x86-64 Interrupt Descriptor Table.
use vstd::prelude::*;
use crate::x86_64::gdt::KERNEL_CODE_SELECTOR;

verus! {

/// Number of IDT entries.
pub const IDT_ENTRIES: usize = 256;
/// Attribute byte for a present ring-0 interrupt gate.
pub const IDT_INTERRUPT_GATE: u8 = 0x8e;
/// Attribute byte for a present ring-0 trap gate.
pub const IDT_TRAP_GATE: u8 = 0x8f;
/// The present bit of a gate's attribute byte.
pub const GATE_PRESENT: u8 = 0x80;

/// x86-64 IDT gate descriptor.
#[derive(Clone, Copy, Debug)]
pub struct IdtEntry {
    offset_low: u16,
    selector: u16,
    ist: u8,
    type_attr: u8,
    offset_mid: u16,
    offset_high: u32,
    reserved: u32,
}

impl IdtEntry {
    /// Handler offset reassembled from its three fields.
    pub closed spec fn spec_offset(self) -> u64 {
        (self.offset_low as u64) | ((self.offset_mid as u64) << 16u64) | ((self.offset_high as u64)
            << 32u64)
    }

    /// Stored IST byte.
    pub closed spec fn spec_ist(self) -> u8 {
        self.ist
    }

    /// Stored attribute byte.
    pub closed spec fn spec_type_attr(self) -> u8 {
        self.type_attr
    }

    /// Stored code selector.
    pub closed spec fn spec_selector(self) -> u16 {
        self.selector
    }

    /// Stored reserved word.
    pub closed spec fn spec_reserved(self) -> u32 {
        self.reserved
    }

    /// An empty, non-present IDT entry.
    pub fn empty() -> (e: IdtEntry)
        ensures
            e.spec_offset() == 0,
            e.spec_ist() == 0,
            e.spec_type_attr() == 0,
            e.spec_selector() == 0,
            e.spec_reserved() == 0,
    {
        let e = IdtEntry {
            offset_low: 0,
            selector: 0,
            ist: 0,
            type_attr: 0,
            offset_mid: 0,
            offset_high: 0,
            reserved: 0,
        };
        assert(e.spec_offset() == 0) by {
            assert((0u16 as u64) | ((0u16 as u64) << 16u64) | ((0u32 as u64) << 32u64) == 0)
                by (bit_vector);
        }
        e
    }

    /// Encode a gate from a handler address, IST index, and attribute byte.
    pub fn set(&mut self, handler: u64, ist: u8, type_attr: u8)
        ensures
            final(self).spec_offset() == handler,
            final(self).spec_ist() == ist & 0x7,
            final(self).spec_type_attr() == type_attr,
            final(self).spec_selector() == KERNEL_CODE_SELECTOR,
            final(self).spec_reserved() == old(self).spec_reserved(),
    {
        let low = (handler & 0xffff) as u16;
        let mid = ((handler >> 16u64) & 0xffff) as u16;
        let high = ((handler >> 32u64) & 0xffff_ffff) as u32;
        assert((low as u64) | ((mid as u64) << 16u64) | ((high as u64) << 32u64) == handler)
            by (bit_vector)
            requires
                low == (handler & 0xffff) as u16,
                mid == ((handler >> 16u64) & 0xffff) as u16,
                high == ((handler >> 32u64) & 0xffff_ffff) as u32,
        ;
        self.offset_low = low;
        self.offset_mid = mid;
        self.offset_high = high;
        self.selector = KERNEL_CODE_SELECTOR;
        self.ist = ist & 0x7;
        self.type_attr = type_attr;
    }

    /// The reconstructed 64-bit handler offset.
    pub fn offset(&self) -> (o: u64)
        ensures
            o == self.spec_offset(),
    {
        (self.offset_low as u64) | ((self.offset_mid as u64) << 16u64) | ((self.offset_high as u64)
            << 32u64)
    }

    /// The IST index.
    pub fn ist(&self) -> (i: u8)
        ensures
            i == self.spec_ist() & 0x7,
    {
        self.ist & 0x7
    }

    /// The type and attribute byte.
    pub fn type_attr(&self) -> (t: u8)
        ensures
            t == self.spec_type_attr(),
    {
        self.type_attr
    }

    /// The code selector.
    pub fn selector(&self) -> (s: u16)
        ensures
            s == self.spec_selector(),
    {
        self.selector
    }
}

/// The 256-gate descriptor table owned by the kernel.
pub struct InterruptDescriptorTable {
    entries: Vec<IdtEntry>,
}

impl InterruptDescriptorTable {
    /// The gates, by vector.
    pub closed spec fn gates(&self) -> Seq<IdtEntry> {
        self.entries@
    }

    /// A table of 256 empty gates.
    pub fn new() -> (t: InterruptDescriptorTable)
        ensures
            t.gates().len() == IDT_ENTRIES,
            forall|i: int| 0 <= i < IDT_ENTRIES ==> (#[trigger] t.gates()[i]).spec_offset() == 0
                && t.gates()[i].spec_type_attr() == 0,
    {
        let mut entries: Vec<IdtEntry> = Vec::new();
        let mut i: usize = 0;
        while i < IDT_ENTRIES
            invariant
                i <= IDT_ENTRIES,
                entries@.len() == i,
                forall|j: int| 0 <= j < i ==> (#[trigger] entries@[j]).spec_offset() == 0
                    && entries@[j].spec_type_attr() == 0,
            decreases IDT_ENTRIES - i,
        {
            entries.push(IdtEntry::empty());
            i += 1;
        }
        InterruptDescriptorTable { entries }
    }

    /// Installs a present gate for `vector`; vectors outside the table are ignored.
    pub fn set_handler(&mut self, vector: usize, handler: u64, ist: u8, gate_type: u8)
        requires
            old(self).gates().len() == IDT_ENTRIES,
        ensures
            final(self).gates().len() == IDT_ENTRIES,
            vector >= IDT_ENTRIES ==> final(self).gates() == old(self).gates(),
            vector < IDT_ENTRIES ==> {
                &&& final(self).gates()[vector as int].spec_offset() == handler
                &&& final(self).gates()[vector as int].spec_ist() == ist & 0x7
                &&& final(self).gates()[vector as int].spec_type_attr() == gate_type | GATE_PRESENT
                &&& forall|i: int|
                    0 <= i < IDT_ENTRIES && i != vector ==> #[trigger] final(self).gates()[i]
                        == old(self).gates()[i]
            },
    {
        if vector >= IDT_ENTRIES {
            return ;
        }
        let mut entry = self.entries[vector];
        entry.set(handler, ist, gate_type | GATE_PRESENT);
        self.entries.set(vector, entry);
    }

    /// The handler offset installed for `vector`.
    pub fn handler_offset(&self, vector: usize) -> (o: Option<u64>)
        requires
            self.gates().len() == IDT_ENTRIES,
        ensures
            vector >= IDT_ENTRIES ==> o.is_none(),
            vector < IDT_ENTRIES ==> o == Some(self.gates()[vector as int].spec_offset()),
    {
        if vector >= IDT_ENTRIES {
            return None;
        }
        Some(self.entries[vector].offset())
    }

    /// The IST index installed for `vector`.
    pub fn handler_ist(&self, vector: usize) -> (i: Option<u8>)
        requires
            self.gates().len() == IDT_ENTRIES,
        ensures
            vector >= IDT_ENTRIES ==> i.is_none(),
            vector < IDT_ENTRIES ==> i == Some(self.gates()[vector as int].spec_ist() & 0x7),
    {
        if vector >= IDT_ENTRIES {
            return None;
        }
        Some(self.entries[vector].ist())
    }
}

} // verus!
