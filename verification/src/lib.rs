//! A virtual machine for a fixed, historical 8-bit instruction set: a
//! verified decoder and execution engine over a 4096-cell memory, a 16-slot
//! call stack, 16 registers and a monochrome pixel buffer, driven by a
//! real-time scheduling loop that interleaves instruction execution with a
//! fixed-rate timer tick and display/input servicing through a capability
//! interface.

pub mod chip8;
pub mod clock;
pub mod graphics;
pub mod instructions;
pub mod laws;
pub mod machine;

pub use chip8::{Chip8, Registers};
pub use graphics::{Drawable, ScriptedGraphics};
pub use instructions::Inst;
pub use machine::Chip8Error;
