//! Keyboard layers as fixed-size grids of keys, with the rules that keep
//! mirrored key pairs in step while a layout search rearranges them.

pub mod keyboard;
pub mod optimizer;
pub mod random;
pub mod text;
pub mod text_processor;
