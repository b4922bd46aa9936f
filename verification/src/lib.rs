//! Core of a small x86_64 kernel, modelled as verified state machines:
//! interrupt-table and PIC bootstrap, a virtual-memory-area allocator over an
//! ordered interval set, and a synchronous scheme IPC channel.

pub mod addr;
pub mod idt;
pub mod interrupts;
pub mod machine;
pub mod mapper;
pub mod scheme;
pub mod vma;
pub mod vma_allocator;
