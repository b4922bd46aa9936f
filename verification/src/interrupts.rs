//! Interrupt bootstrap: builds the 64-entry IDT, loads it, remaps the two
//! legacy interrupt controllers so IRQ 0-15 arrive on vectors 32-47, masks
//! every line, and enables interrupts.
//!
//! The trampolines themselves are link-time addresses handed in by the
//! caller: one per architectural exception, a shared one for the unused
//! exception vectors, and a shared one for all IRQs.

use vstd::prelude::*;

use crate::idt::{
    spec_entry, spec_present, IDTDescriptor, ENTRY_BYTES, ENTRY_COUNT, GATE_INTERRUPT,
    GATE_PRESENT, IDT,
};
use crate::machine::{
    Machine, Pic, PicState, PIC1_COMMAND, PIC1_DATA, PIC2_COMMAND, PIC2_DATA, PIC_INIT,
};

verus! {

/// The addresses of the interrupt service trampolines, as the linker laid
/// them out.
#[derive(Clone, Copy, PartialEq, Eq, Structural, Debug)]
pub struct HandlerAddresses {
    pub divide_by_zero: u64,
    pub debug: u64,
    pub nmi: u64,
    pub breakpoint: u64,
    pub overflow: u64,
    pub bound_range_exceeded: u64,
    pub invalid_opcode: u64,
    pub device_not_available: u64,
    pub double_fault: u64,
    pub invalid_tss: u64,
    pub segment_not_present: u64,
    pub stack_segment: u64,
    pub gpf: u64,
    pub pf: u64,
    pub fp: u64,
    pub alignment_check: u64,
    pub machine_check: u64,
    pub simd_fp: u64,
    pub virtualization: u64,
    pub unknown: u64,
    pub irq: u64,
}

/// Which trampoline vector `v` is bound to: one per architectural
/// exception, the shared unknown handler on the unused vectors 9, 15 and
/// 21-31, and the shared IRQ handler on 32-47.
pub open spec fn spec_vector_handler(h: HandlerAddresses, v: int) -> u64 {
    if v == 0 {
        h.divide_by_zero
    } else if v == 1 {
        h.debug
    } else if v == 2 {
        h.nmi
    } else if v == 3 {
        h.breakpoint
    } else if v == 4 {
        h.overflow
    } else if v == 5 {
        h.bound_range_exceeded
    } else if v == 6 {
        h.invalid_opcode
    } else if v == 7 {
        h.device_not_available
    } else if v == 8 {
        h.double_fault
    } else if v == 10 {
        h.invalid_tss
    } else if v == 11 {
        h.segment_not_present
    } else if v == 12 {
        h.stack_segment
    } else if v == 13 {
        h.gpf
    } else if v == 14 {
        h.pf
    } else if v == 16 {
        h.fp
    } else if v == 17 {
        h.alignment_check
    } else if v == 18 {
        h.machine_check
    } else if v == 19 {
        h.simd_fp
    } else if v == 20 {
        h.virtualization
    } else if 32 <= v < 48 {
        h.irq
    } else {
        h.unknown
    }
}

/// The master controller as the remap leaves it: base vector 32, the slave
/// cascaded on line 2, 8086 mode, all lines masked.
pub open spec fn spec_master_after_init() -> Pic {
    Pic { state: PicState::Ready, vector_base: 0x20, wiring: 0x04, mode: 0x01, mask: 0xFF }
}

/// The slave controller as the remap leaves it: base vector 40, cascade
/// identity 2, 8086 mode, all lines masked.
pub open spec fn spec_slave_after_init() -> Pic {
    Pic { state: PicState::Ready, vector_base: 0x28, wiring: 0x02, mode: 0x01, mask: 0xFF }
}

/// Installs the IDT, remaps the legacy interrupt controllers, masks all 16
/// IRQ lines and enables interrupts. After it: the IDT register holds the
/// table with limit `64 * 16 - 1`; vectors 0-47 are present interrupt
/// gates bound as `spec_vector_handler` says; vectors 48-63 are absent;
/// the master controller delivers at vector 32, the slave at 40, and every
/// line is masked.
#[verifier::rlimit(100)]
pub fn init(machine: &mut Machine, handlers: &HandlerAddresses)
    ensures
        final(machine).interrupts_enabled,
        final(machine).idtr == Some(
            IDTDescriptor { limit: (ENTRY_COUNT * ENTRY_BYTES - 1) as u16, base: 0 },
        ),
        final(machine).idt matches Some(t) && {
            &&& t.wf()
            &&& forall|v: int|
                0 <= v < 48 ==> (#[trigger] t.entries@[v]) == spec_entry(
                    spec_vector_handler(*handlers, v),
                    GATE_PRESENT | GATE_INTERRUPT,
                )
            &&& forall|v: int| 0 <= v < 48 ==> spec_present(#[trigger] t.entries@[v])
            &&& forall|v: int|
                48 <= v < ENTRY_COUNT ==> (#[trigger] t.entries@[v]) == spec_entry(0, 0)
            &&& forall|v: int| 48 <= v < ENTRY_COUNT ==> !spec_present(#[trigger] t.entries@[v])
        },
        final(machine).master == spec_master_after_init(),
        final(machine).slave == spec_slave_after_init(),
{
    let exc_flags: u8 = GATE_PRESENT | GATE_INTERRUPT;

    let mut idt = IDT::new();
    idt.set_handler(0, handlers.divide_by_zero, exc_flags);
    idt.set_handler(1, handlers.debug, exc_flags);
    idt.set_handler(2, handlers.nmi, exc_flags);
    idt.set_handler(3, handlers.breakpoint, exc_flags);
    idt.set_handler(4, handlers.overflow, exc_flags);
    idt.set_handler(5, handlers.bound_range_exceeded, exc_flags);
    idt.set_handler(6, handlers.invalid_opcode, exc_flags);
    idt.set_handler(7, handlers.device_not_available, exc_flags);
    idt.set_handler(8, handlers.double_fault, exc_flags);
    idt.set_handler(9, handlers.unknown, exc_flags);
    idt.set_handler(10, handlers.invalid_tss, exc_flags);
    idt.set_handler(11, handlers.segment_not_present, exc_flags);
    idt.set_handler(12, handlers.stack_segment, exc_flags);
    idt.set_handler(13, handlers.gpf, exc_flags);
    idt.set_handler(14, handlers.pf, exc_flags);
    idt.set_handler(15, handlers.unknown, exc_flags);
    idt.set_handler(16, handlers.fp, exc_flags);
    idt.set_handler(17, handlers.alignment_check, exc_flags);
    idt.set_handler(18, handlers.machine_check, exc_flags);
    idt.set_handler(19, handlers.simd_fp, exc_flags);
    idt.set_handler(20, handlers.virtualization, exc_flags);
    idt.set_handler(21, handlers.unknown, exc_flags);
    idt.set_handler(22, handlers.unknown, exc_flags);
    idt.set_handler(23, handlers.unknown, exc_flags);
    idt.set_handler(24, handlers.unknown, exc_flags);
    idt.set_handler(25, handlers.unknown, exc_flags);
    idt.set_handler(26, handlers.unknown, exc_flags);
    idt.set_handler(27, handlers.unknown, exc_flags);
    idt.set_handler(28, handlers.unknown, exc_flags);
    idt.set_handler(29, handlers.unknown, exc_flags);
    idt.set_handler(30, handlers.unknown, exc_flags);
    idt.set_handler(31, handlers.unknown, exc_flags);
    let ghost after_exceptions = idt.entries@;
    proof {
        assert forall|v: int| 0 <= v < 32 implies (#[trigger] after_exceptions[v]) == spec_entry(
            spec_vector_handler(*handlers, v),
            GATE_PRESENT | GATE_INTERRUPT,
        ) by {}
    }

    let mut i: u8 = 32;
    while i < 48
        invariant
            32 <= i <= 48,
            exc_flags == GATE_PRESENT | GATE_INTERRUPT,
            idt.wf(),
            idt.entries@.len() == ENTRY_COUNT,
            forall|v: int|
                0 <= v < 32 ==> (#[trigger] idt.entries@[v]) == spec_entry(
                    spec_vector_handler(*handlers, v),
                    GATE_PRESENT | GATE_INTERRUPT,
                ),
            forall|v: int|
                32 <= v < i ==> (#[trigger] idt.entries@[v]) == spec_entry(
                    handlers.irq,
                    GATE_PRESENT | GATE_INTERRUPT,
                ),
            forall|v: int|
                i <= v < ENTRY_COUNT ==> (#[trigger] idt.entries@[v]) == spec_entry(0, 0),
        decreases 48 - i,
    {
        idt.set_handler(i, handlers.irq, exc_flags);
        i = i + 1;
    }
    proof {
        crate::idt::lemma_present_flags(0);
        assert forall|v: int| 0 <= v < 48 implies spec_present(#[trigger] idt.entries@[v]) by {
            crate::idt::lemma_present_flags(spec_vector_handler(*handlers, v));
        }
        assert forall|v: int| 48 <= v < ENTRY_COUNT implies !spec_present(
            #[trigger] idt.entries@[v],
        ) by {
            assert(0u8 & 0x80 != 0x80) by (bit_vector);
        }
    }

    let descriptor = idt.descriptor(0);
    machine.lidt(idt, descriptor);

    // Remap the controllers: start init, set the base vectors 32 and 40,
    // wire the slave on line 2, select 8086 mode, then mask every line.
    machine.write_port8(PIC1_COMMAND, PIC_INIT);
    machine.write_port8(PIC2_COMMAND, PIC_INIT);
    machine.write_port8(PIC1_DATA, 0x20);
    machine.write_port8(PIC2_DATA, 0x28);
    machine.write_port8(PIC1_DATA, 0x04);
    machine.write_port8(PIC2_DATA, 0x02);
    machine.write_port8(PIC1_DATA, 0x01);
    machine.write_port8(PIC2_DATA, 0x01);
    machine.write_port8(PIC1_DATA, 0xFF);
    machine.write_port8(PIC2_DATA, 0xFF);

    crate::machine::enable_ints(machine);
}

} // verus!
