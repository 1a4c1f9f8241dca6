//! A verified RISC-V (RV64IMAC subset) emulator core: bus, decoder, and
//! interpreter, together with the riscv-tests harness, a Linux user-mode
//! environment, and a Spike commit-log comparator.
//!
//! Every public function states what it computes over a mathematical model
//! of its data: the machine state is a [`cpu::Machine`], memory a sequence
//! of bytes, text a sequence of characters.

pub mod exception;
pub mod bytes;
pub mod bus;
pub mod inst;
pub mod expand;
pub mod alu;
pub mod loader;
pub mod cpu;
pub mod harness;
pub mod linux;
pub mod text;
pub mod difftest;
pub mod display;
