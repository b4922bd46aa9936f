//! The interrupt descriptor table: 16-byte gate descriptors, a fixed table
//! of 64 entries, and the 10-byte register value used to load it.

use vstd::prelude::*;

verus! {

/// Number of entries in the table.
pub const ENTRY_COUNT: usize = 64;

/// Size in bytes of one packed descriptor.
pub const ENTRY_BYTES: usize = 16;

/// Present bit of the descriptor's attribute byte.
pub const GATE_PRESENT: u8 = 0x80;

/// Gate-type nibble of an interrupt gate.
pub const GATE_INTERRUPT: u8 = 0x0E;

/// Gate-type nibble of a trap gate: as the interrupt gate, but without
/// automatically masking interrupts.
pub const GATE_TRAP: u8 = 0x0F;

/// Selector of the kernel code segment.
pub const KERNEL_CODE_SELECTOR: u16 = 0x08;

/// One 16-byte packed gate descriptor, field for field in hardware order.
#[derive(Clone, Copy, PartialEq, Eq, Structural, Debug)]
pub struct Entry {
    pub offset_1: u16,
    pub selector: u16,
    pub ist: u8,
    pub type_attr: u8,
    pub offset_2: u16,
    pub offset_3: u32,
    pub zero: u32,
}

/// The descriptor that binds `handler` with attribute byte `flags`: the
/// handler address split over the three offset fields, the kernel code
/// selector, no interrupt-stack-table entry.
pub open spec fn spec_entry(handler: u64, flags: u8) -> Entry {
    Entry {
        offset_1: (handler & 0xFFFF) as u16,
        selector: KERNEL_CODE_SELECTOR,
        ist: 0,
        type_attr: flags,
        offset_2: ((handler >> 16) & 0xFFFF) as u16,
        offset_3: ((handler >> 32) & 0xFFFF_FFFF) as u32,
        zero: 0,
    }
}

/// True when the present bit of the entry is set.
pub open spec fn spec_present(e: Entry) -> bool {
    e.type_attr & GATE_PRESENT == GATE_PRESENT
}

impl Entry {
    pub fn new(handler: u64, flags: u8) -> (r: Entry)
        ensures
            r == spec_entry(handler, flags),
    {
        proof {
            assert((handler & 0xFFFF) <= 0xFFFF && ((handler >> 16) & 0xFFFF) <= 0xFFFF && ((
            handler >> 32) & 0xFFFF_FFFF) <= 0xFFFF_FFFF) by (bit_vector);
        }
        Entry {
            offset_1: (handler & 0xFFFF) as u16,
            selector: KERNEL_CODE_SELECTOR,
            ist: 0,
            type_attr: flags,
            offset_2: ((handler >> 16) & 0xFFFF) as u16,
            offset_3: ((handler >> 32) & 0xFFFF_FFFF) as u32,
            zero: 0,
        }
    }

    pub fn empty() -> (r: Entry)
        ensures
            r == spec_entry(0, 0),
            !spec_present(r),
    {
        proof {
            assert(0u64 & 0xFFFF == 0 && (0u64 >> 16) & 0xFFFF == 0 && (0u64 >> 32) & 0xFFFF_FFFF
                == 0) by (bit_vector);
            assert(0u8 & 0x80 != 0x80) by (bit_vector);
        }
        Entry::new(0, 0)
    }

    /// Whether the present bit is set.
    pub fn is_present(&self) -> (r: bool)
        ensures
            r == spec_present(*self),
    {
        (self.type_attr & GATE_PRESENT) == GATE_PRESENT
    }
}

/// The offset fields of a descriptor reassemble to exactly the handler
/// address it was built from.
pub proof fn lemma_entry_encodes_handler(handler: u64, flags: u8)
    ensures
        (spec_entry(handler, flags).offset_1 as u64) | ((spec_entry(handler, flags).offset_2
            as u64) << 16) | ((spec_entry(handler, flags).offset_3 as u64) << 32) == handler,
{
    assert((((handler & 0xFFFF) as u16) as u64) | (((((handler >> 16) & 0xFFFF) as u16) as u64)
        << 16) | (((((handler >> 32) & 0xFFFF_FFFF) as u32) as u64) << 32) == handler)
        by (bit_vector);
}

/// An entry that carries the present bit in its attribute byte is present.
pub proof fn lemma_present_flags(handler: u64)
    ensures
        spec_present(spec_entry(handler, GATE_PRESENT | GATE_INTERRUPT)),
        spec_entry(handler, GATE_PRESENT | GATE_INTERRUPT).type_attr == 0x8E,
{
    assert((0x80u8 | 0x0Eu8) == 0x8Eu8 && 0x8Eu8 & 0x80u8 == 0x80u8) by (bit_vector);
}

/// The 10-byte value loaded into the IDT register: the table's limit (its
/// size in bytes minus one) and its base address.
#[derive(Clone, Copy, PartialEq, Eq, Structural, Debug)]
pub struct IDTDescriptor {
    pub limit: u16,
    pub base: u64,
}

/// The interrupt descriptor table: 64 gate descriptors.
pub struct IDT {
    pub entries: Vec<Entry>,
}

impl IDT {
    /// All 64 entries exist.
    pub open spec fn wf(self) -> bool {
        self.entries@.len() == ENTRY_COUNT
    }

    /// Creates a table of 64 absent entries.
    pub fn new() -> (r: IDT)
        ensures
            r.wf(),
            forall|v: int| 0 <= v < ENTRY_COUNT ==> (#[trigger] r.entries@[v]) == spec_entry(0, 0),
    {
        let mut entries: Vec<Entry> = Vec::new();
        let mut i: usize = 0;
        while i < ENTRY_COUNT
            invariant
                0 <= i <= ENTRY_COUNT,
                entries@.len() == i,
                forall|v: int| 0 <= v < i ==> (#[trigger] entries@[v]) == spec_entry(0, 0),
            decreases ENTRY_COUNT - i,
        {
            entries.push(Entry::empty());
            i += 1;
        }
        IDT { entries }
    }

    /// Binds vector `n` to `handler` with attribute byte `flags`.
    pub fn set_handler(&mut self, n: u8, handler: u64, flags: u8)
        requires
            old(self).wf(),
            (n as int) < ENTRY_COUNT,
        ensures
            final(self).wf(),
            final(self).entries@ == old(self).entries@.update(n as int, spec_entry(handler, flags)),
    {
        let e = Entry::new(handler, flags);
        self.entries.set(n as usize, e);
    }

    /// The register value that loads this table: limit is the table size in
    /// bytes minus one.
    pub fn descriptor(&self, base: u64) -> (r: IDTDescriptor)
        ensures
            r.limit == ENTRY_COUNT * ENTRY_BYTES - 1,
            r.base == base,
    {
        IDTDescriptor { limit: (ENTRY_COUNT * ENTRY_BYTES - 1) as u16, base }
    }
}

} // verus!
