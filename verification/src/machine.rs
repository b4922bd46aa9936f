//! Model of the hardware that the interrupt bootstrap touches: the two
//! legacy 8259 interrupt controllers behind their I/O ports, the IDT
//! register, and the interrupt-enable flag. Writing a port steps the
//! controller's initialization state machine, so a test can read back what
//! the bootstrap programmed.

use vstd::prelude::*;

use crate::idt::{IDTDescriptor, IDT};

verus! {

/// Command port of the master controller.
pub const PIC1_COMMAND: u16 = 0x20;

/// Data port of the master controller.
pub const PIC1_DATA: u16 = 0x21;

/// Command port of the slave controller.
pub const PIC2_COMMAND: u16 = 0xA0;

/// Data port of the slave controller.
pub const PIC2_DATA: u16 = 0xA1;

/// Command byte that starts the four-step initialization sequence.
pub const PIC_INIT: u8 = 0x11;

/// Where one 8259 controller stands in its initialization sequence.
#[derive(Clone, Copy, PartialEq, Eq, Structural, Debug)]
pub enum PicState {
    /// Operating; data-port writes set the interrupt mask.
    Ready,
    /// Init started; the next data byte is the base vector.
    AwaitVector,
    /// The next data byte is the cascade wiring.
    AwaitWiring,
    /// The next data byte is the operating mode.
    AwaitMode,
}

/// One 8259 interrupt controller.
#[derive(Clone, Copy, PartialEq, Eq, Structural, Debug)]
pub struct Pic {
    pub state: PicState,
    pub vector_base: u8,
    pub wiring: u8,
    pub mode: u8,
    pub mask: u8,
}

/// The controller after a byte written to its command port: `PIC_INIT`
/// begins the init sequence, any other command leaves the model unchanged.
pub open spec fn spec_pic_command(p: Pic, value: u8) -> Pic {
    if value == PIC_INIT {
        Pic { state: PicState::AwaitVector, ..p }
    } else {
        p
    }
}

/// The controller after a byte written to its data port, stepping the init
/// sequence or, once ready, setting the mask.
pub open spec fn spec_pic_data(p: Pic, value: u8) -> Pic {
    match p.state {
        PicState::AwaitVector => Pic { vector_base: value, state: PicState::AwaitWiring, ..p },
        PicState::AwaitWiring => Pic { wiring: value, state: PicState::AwaitMode, ..p },
        PicState::AwaitMode => Pic { mode: value, state: PicState::Ready, ..p },
        PicState::Ready => Pic { mask: value, ..p },
    }
}

impl Pic {
    /// A controller as it comes out of reset in this model.
    pub fn new() -> (r: Pic)
        ensures
            r == (Pic {
                state: PicState::Ready,
                vector_base: 0,
                wiring: 0,
                mode: 0,
                mask: 0,
            }),
    {
        Pic { state: PicState::Ready, vector_base: 0, wiring: 0, mode: 0, mask: 0 }
    }
}

/// The machine state touched by interrupt bootstrap: the mock port bank of
/// the two controllers, the loaded IDT, its register, and the CPU's
/// interrupt-enable flag.
pub struct Machine {
    pub master: Pic,
    pub slave: Pic,
    pub idt: Option<IDT>,
    pub idtr: Option<IDTDescriptor>,
    pub interrupts_enabled: bool,
}

impl Machine {
    /// A machine before bootstrap: nothing loaded, interrupts off.
    pub fn new() -> (r: Machine)
        ensures
            r.master == Pic::new_spec(),
            r.slave == Pic::new_spec(),
            r.idt is None,
            r.idtr is None,
            !r.interrupts_enabled,
    {
        Machine {
            master: Pic::new(),
            slave: Pic::new(),
            idt: None,
            idtr: None,
            interrupts_enabled: false,
        }
    }

    /// Writes one byte to an I/O port of the interrupt controllers.
    pub fn write_port8(&mut self, port: u16, value: u8)
        requires
            port == PIC1_COMMAND || port == PIC1_DATA || port == PIC2_COMMAND || port == PIC2_DATA,
        ensures
            final(self).idt == old(self).idt,
            final(self).idtr == old(self).idtr,
            final(self).interrupts_enabled == old(self).interrupts_enabled,
            port == PIC1_COMMAND ==> final(self).master == spec_pic_command(
                old(self).master,
                value,
            ) && final(self).slave == old(self).slave,
            port == PIC1_DATA ==> final(self).master == spec_pic_data(old(self).master, value)
                && final(self).slave == old(self).slave,
            port == PIC2_COMMAND ==> final(self).slave == spec_pic_command(old(self).slave, value)
                && final(self).master == old(self).master,
            port == PIC2_DATA ==> final(self).slave == spec_pic_data(old(self).slave, value)
                && final(self).master == old(self).master,
    {
        if port == PIC1_COMMAND {
            if value == PIC_INIT {
                self.master.state = PicState::AwaitVector;
            }
        } else if port == PIC1_DATA {
            match self.master.state {
                PicState::AwaitVector => {
                    self.master.vector_base = value;
                    self.master.state = PicState::AwaitWiring;
                },
                PicState::AwaitWiring => {
                    self.master.wiring = value;
                    self.master.state = PicState::AwaitMode;
                },
                PicState::AwaitMode => {
                    self.master.mode = value;
                    self.master.state = PicState::Ready;
                },
                PicState::Ready => {
                    self.master.mask = value;
                },
            }
        } else if port == PIC2_COMMAND {
            if value == PIC_INIT {
                self.slave.state = PicState::AwaitVector;
            }
        } else {
            match self.slave.state {
                PicState::AwaitVector => {
                    self.slave.vector_base = value;
                    self.slave.state = PicState::AwaitWiring;
                },
                PicState::AwaitWiring => {
                    self.slave.wiring = value;
                    self.slave.state = PicState::AwaitMode;
                },
                PicState::AwaitMode => {
                    self.slave.mode = value;
                    self.slave.state = PicState::Ready;
                },
                PicState::Ready => {
                    self.slave.mask = value;
                },
            }
        }
    }

    /// Loads the IDT: the table moves into the machine and its register
    /// takes the table's limit (architecturally, the `lidt` instruction).
    pub fn lidt(&mut self, idt: IDT, descriptor: IDTDescriptor)
        ensures
            final(self).idt == Some(idt),
            final(self).idtr == Some(descriptor),
            final(self).master == old(self).master,
            final(self).slave == old(self).slave,
            final(self).interrupts_enabled == old(self).interrupts_enabled,
    {
        self.idt = Some(idt);
        self.idtr = Some(descriptor);
    }
}

impl Pic {
    /// The reset state, for contracts.
    pub open spec fn new_spec() -> Pic {
        Pic { state: PicState::Ready, vector_base: 0, wiring: 0, mode: 0, mask: 0 }
    }
}

/// Sets the CPU's interrupt-enable flag (the `sti` instruction).
pub fn enable_ints(machine: &mut Machine)
    ensures
        final(machine).interrupts_enabled,
        final(machine).master == old(machine).master,
        final(machine).slave == old(machine).slave,
        final(machine).idt == old(machine).idt,
        final(machine).idtr == old(machine).idtr,
{
    machine.interrupts_enabled = true;
}

/// Clears the CPU's interrupt-enable flag (the `cli` instruction).
pub fn disable_ints(machine: &mut Machine)
    ensures
        !final(machine).interrupts_enabled,
        final(machine).master == old(machine).master,
        final(machine).slave == old(machine).slave,
        final(machine).idt == old(machine).idt,
        final(machine).idtr == old(machine).idtr,
{
    machine.interrupts_enabled = false;
}

} // verus!
