//! A CHIP-8 style byte-code interpreter with a toroidal monochrome framebuffer.
//!
//! [`model`] states what the interpreter does over plain values; [`Cpu`],
//! [`Display`] and [`KeyboardFirm`] are proved to do exactly that, and
//! [`laws`] proves properties that follow for every state.
use vstd::prelude::*;

pub mod cpu;
pub mod display;
pub mod keyboard;
pub mod laws;
pub mod model;

pub use cpu::Cpu;
pub use display::Display;
pub use keyboard::KeyboardFirm;
pub use model::CpuError;
