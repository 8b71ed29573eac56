//! A small network stack, shell and scheduler core with verified packet logic.
pub mod net;
pub mod shell;
pub mod task;
pub mod text;
pub mod timer;
pub mod vgadriver;
