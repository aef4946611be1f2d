//! The keyboard: keys, layers of keys, and layouts of layers.

use vstd::prelude::*;

pub mod error;
pub mod grid;
pub mod key;
pub mod layer;
pub mod layer_text;
pub mod layout;
pub mod layout_presets;
pub mod mutation;
pub mod randomize;
pub mod round_trip;

verus! {

/// Address of one key: which layer, and which row and column inside it.
#[derive(Debug, Clone, Copy, PartialEq, Eq, Structural)]
pub struct LayoutPosition {
    pub layer_index: usize,
    pub row_index: usize,
    pub col_index: usize,
}

impl LayoutPosition {
    /// A position on the base layer.
    pub fn for_layer(row_index: usize, col_index: usize) -> (p: LayoutPosition)
        ensures
            p == (LayoutPosition { layer_index: 0, row_index, col_index }),
    {
        LayoutPosition { layer_index: 0, row_index, col_index }
    }
}

} // verus!
