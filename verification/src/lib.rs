//! Software timing controller for the reMarkable 2 e-paper panel.
//!
//! The library drives the panel through a ring of framebuffer slots: [`wbf`] and
//! [`waveform`] turn a waveform file into phase tables, [`swtcon`] turns images into
//! update messages, [`generator`] encodes them into slots phase by phase, and
//! [`vsync`] pans through the slots. [`system`] and [`progress`] state what holds of
//! all of them together. The library does no I/O: the sides are step machines, and
//! the caller performs what a step asks for.
pub mod bytes;
pub mod constants;
pub mod fb;
pub mod generator;
pub mod progress;
pub mod runtime;
pub mod sensor;
pub mod slots;
pub mod strip_encoder;
pub mod swtcon;
pub mod system;
pub mod text;
pub mod update;
pub mod vsync;
pub mod waveform;
pub mod wbf;

pub use crate::swtcon::{Error, Mode, Rect, Swtcon};
