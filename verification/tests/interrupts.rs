use kernel_core::idt::{Entry, IDT};
use kernel_core::interrupts::{init, HandlerAddresses};
use kernel_core::machine::{Machine, PicState};

fn handlers() -> HandlerAddresses {
    HandlerAddresses {
        divide_by_zero: 0x1000,
        debug: 0x1010,
        nmi: 0x1020,
        breakpoint: 0x1030,
        overflow: 0x1040,
        bound_range_exceeded: 0x1050,
        invalid_opcode: 0x1060,
        device_not_available: 0x1070,
        double_fault: 0x1080,
        invalid_tss: 0x1090,
        segment_not_present: 0x10A0,
        stack_segment: 0x10B0,
        gpf: 0x10C0,
        pf: 0x10D0,
        fp: 0x10E0,
        alignment_check: 0x10F0,
        machine_check: 0x1100,
        simd_fp: 0x1110,
        virtualization: 0x1120,
        unknown: 0x1130,
        irq: 0x1140,
    }
}

#[test]
fn idtr_limit_and_vector_population() {
    let mut machine = Machine::new();
    assert!(!machine.interrupts_enabled);
    init(&mut machine, &handlers());
    assert!(machine.interrupts_enabled);
    let idtr = machine.idtr.unwrap();
    assert_eq!(idtr.limit, 64 * 16 - 1);
    assert_eq!(idtr.limit, 0x3FF);
    let idt = machine.idt.as_ref().unwrap();
    assert_eq!(idt.entries.len(), 64);
    for v in 0..48 {
        assert!(idt.entries[v].is_present());
        assert_eq!(idt.entries[v].selector, 0x08);
        assert_eq!(idt.entries[v].type_attr, 0x8E);
        assert_eq!(idt.entries[v].ist, 0);
        assert_eq!(idt.entries[v].zero, 0);
    }
    for v in 48..64 {
        assert!(!idt.entries[v].is_present());
    }
}

#[test]
fn vectors_bind_the_right_trampolines() {
    let mut machine = Machine::new();
    let h = handlers();
    init(&mut machine, &h);
    let idt = machine.idt.as_ref().unwrap();
    assert_eq!(idt.entries[0].offset_1 as u64, h.divide_by_zero);
    assert_eq!(idt.entries[14].offset_1 as u64, h.pf);
    assert_eq!(idt.entries[9].offset_1 as u64, h.unknown);
    assert_eq!(idt.entries[15].offset_1 as u64, h.unknown);
    for v in 21..32 {
        assert_eq!(idt.entries[v].offset_1 as u64, h.unknown);
    }
    for v in 32..48 {
        assert_eq!(idt.entries[v].offset_1 as u64, h.irq);
    }
}

#[test]
fn pic_remap_reads_back_through_the_mock_ports() {
    let mut machine = Machine::new();
    init(&mut machine, &handlers());
    assert_eq!(machine.master.state, PicState::Ready);
    assert_eq!(machine.slave.state, PicState::Ready);
    assert_eq!(machine.master.vector_base, 32);
    assert_eq!(machine.slave.vector_base, 40);
    assert_eq!(machine.master.wiring, 0x04);
    assert_eq!(machine.slave.wiring, 0x02);
    assert_eq!(machine.master.mode, 0x01);
    assert_eq!(machine.slave.mode, 0x01);
    assert_eq!(machine.master.mask, 0xFF);
    assert_eq!(machine.slave.mask, 0xFF);
}

#[test]
fn entry_splits_the_handler_address() {
    let e = Entry::new(0x1234_5678_9ABC_DEF0, 0x8E);
    assert_eq!(e.offset_1, 0xDEF0);
    assert_eq!(e.offset_2, 0x9ABC);
    assert_eq!(e.offset_3, 0x1234_5678);
    assert_eq!(e.selector, 0x08);
    assert_eq!(e.type_attr, 0x8E);
    let reassembled =
        (e.offset_1 as u64) | ((e.offset_2 as u64) << 16) | ((e.offset_3 as u64) << 32);
    assert_eq!(reassembled, 0x1234_5678_9ABC_DEF0);
}

#[test]
fn fresh_table_is_fully_absent() {
    let mut idt = IDT::new();
    for v in 0..64 {
        assert!(!idt.entries[v].is_present());
    }
    idt.set_handler(3, 0x2000, 0x8E);
    assert!(idt.entries[3].is_present());
    assert!(!idt.entries[2].is_present());
    let d = idt.descriptor(0);
    assert_eq!(d.limit, 0x3FF);
}
