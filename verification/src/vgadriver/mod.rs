pub mod keymap;
pub mod writer;
