//! A verified CHIP-8 instruction interpreter.
//!
//! The machine owns 4096 bytes of memory, sixteen 8-bit registers, a
//! sixteen-level call stack, a 64 by 32 monochrome framebuffer, a sixteen-key
//! input matrix and two countdown timers.  `cpu::Cpu` advances this state one
//! instruction at a time; every opcode's effect is pinned down by the
//! mathematical transition function in `model`, and the general laws of the
//! machine are proved in `laws`.

pub mod cpu;
pub mod font;
pub mod laws;
pub mod model;
