//! A CHIP-8 interpreter core: memory, registers, call stack, timers, keypad
//! and a monochrome framebuffer, driven one instruction at a time.
pub mod emu;
pub mod laws;
pub mod machine;

pub use emu::Emu;
pub use machine::{EmuError, SCREEN_HEIGHT, SCREEN_WIDTH};
