//! From text to key presses.

pub mod keycode;
