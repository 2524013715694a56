//! A user-mode emulator core for 64-bit RISC-V integer programs.
//!
//! The crate holds the guest address space, the instruction decoder and
//! executor, and the loader that turns an ELF image into an initial machine
//! state. Every executable function carries a contract over a mathematical
//! model of the machine.

pub mod alu;
pub mod bits;
pub mod cpu;
pub mod decode;
pub mod image;
pub mod laws;
pub mod loader;
pub mod mm;
