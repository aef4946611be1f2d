//! The keyboards that come with ready-made layouts.

use vstd::prelude::*;

verus! {

/// A keyboard size for which a preset layout exists.
#[derive(Debug, PartialOrd, Ord, PartialEq, Eq, Hash, Clone, Copy)]
pub enum LayoutSizePresets {
    FourByTen,
    FourByTwelve,
}

/// Every preset size, in declaration order.
pub fn get_all_layout_size_presets() -> (presets: Vec<LayoutSizePresets>)
    ensures
        presets@ == seq![LayoutSizePresets::FourByTen, LayoutSizePresets::FourByTwelve],
{
    let mut presets: Vec<LayoutSizePresets> = Vec::new();
    presets.push(LayoutSizePresets::FourByTen);
    presets.push(LayoutSizePresets::FourByTwelve);
    assert(presets@ =~= seq![LayoutSizePresets::FourByTen, LayoutSizePresets::FourByTwelve]);
    presets
}

/// The preset layout of a keyboard of four rows and twelve columns.
pub const FOUR_BY_TWELVE_LAYOUT: &'static str = "\n\
\t\t___Layer 0___\n\
\t\t\t\t0       1       2       3       4       5       6       7       8       9      10      11 \n\
\t\t0| __10  __10    __10    __10    __10    __10    __10    __10    __10    __10    __10    __10 \n\
\t\t1| __10  __10    __10    __10    __10    __10    __10    __10    __10    __10    __10  __10\n\
\t\t2| SFT_11    __10    __10    __10    __10    __10    __10    __10    __10    __10    __10    SFT_11 \n\
\t\t3|   __10    __10    __10    __10    LS1_10  SPC_00  BSPC_00  LS2_10    __10    __10    __10    __10 \n\
\n\
\t\t___Layer 1___\n\
\t\t\t\t0       1       2       3       4       5       6       7       8       9      10      11 \n\
\t\t0|   __10    __10    __10    __10    __10    __10    __10    __10    __10    __10    __10    __10 \n\
\t\t1|   __10    __10    __10    __10    __10    __10    __10    __10    __10    __10    __10    __10 \n\
\t\t2|   __10    __10    __10    __10    __10    __10    __10    __10    __10    __10    __10    __10 \n\
\t\t3|   __10    __10    __10    __10    __10    __10    __10    __10    __10    __10    __10    __10 \n\
\n\
\t\t___Layer 2___\n\
\t\t\t\t0       1       2       3       4       5       6       7       8       9      10      11 \n\
\t\t0|   __10    __10    __10    __10    __10    __10    __10    __10    __10    __10    __10    __10 \n\
\t\t1|   __10    __10    __10    __10    __10    __10    __10    __10    __10    __10    __10    __10 \n\
\t\t2|   __10    __10    __10    __10    __10    __10    __10    __10    __10    __10    __10    __10 \n\
\t\t3|   __10    __10    __10    __10    __10    __10    __10    __10    __10    __10    __10    __10 \n\
\t\t";

/// The effort of reaching each key of a keyboard of four rows and twelve columns.
pub const FOUR_BY_TWELVE_EFFORT: &'static str = "\n\
\t\t12 7 2 2 2 7 7 2 2 2 7 12\n\
\t\t6 3 1 1 1 3 3 1 1 1 3 6\n\
\t\t13 5 3 3 3 8 8 3 3 3 5 13\n\
\t\t14 10 7 4 2 1 1 2 4 7 10 14\n\
\t\t";

/// The hand and finger for each key of a keyboard of four rows and twelve columns.
pub const FOUR_BY_TWELVE_PHALANX: &'static str = "\n\
\t\tL:P L:P L:R L:M L:I L:I R:I R:I R:M R:R R:P R:P\n\
\t\tL:P L:P L:R L:M L:I L:I R:I R:I R:M R:R R:P R:P\n\
\t\tL:P L:P L:R L:M L:I L:I R:I R:I R:M R:R R:P R:P\n\
\t\tL:J L:P L:R L:T L:T L:T R:T R:T R:T R:R R:P R:J\n\
\t\t";

/// The preset layout of a keyboard of four rows and ten columns.
pub const FOUR_BY_TEN_LAYOUT: &'static str = "\n\
\t\t___Layer 0___\n\
\t\t__10 __10 __10 __10   __10   __10    __10   __10 __10 __10 \n\
\t\t__10 __10 LS3_10 __10 __10   __10    __10 __10 __10 __10 \n\
\t\tSFT_11 __10 __10 __10   __10   __10    __10   __10 __10 SFT_11\n\
\t\t__00 __00 __00 LS1_00 SPC_00 BSPC_00 LS2_00 __00 __00 __00 \n\
\t\t___Layer 1___\n\
\t\t__10 __10 __10 __10 __10 __10 __10 __10 __10 __10 \n\
\t\t__10 LCBR_00 LBRC_00 LPRN_00 __10 __10 RPRN_00 RBRC_00 RCBR_00 __10 \n\
\t\t__10 __10 __10 __10 __10 __10 __10 __10 __10 __10 \n\
\t\t__00 __00 __00 __10 __10 __10 __10 __00 __00 __00 \n\
\t\t___Layer 2___\n\
\t\t1_00 2_00 3_00 4_00 5_00 __10 __10 __10 __10 __10 \n\
\t\t6_00 7_00 8_00 9_00 ZERO_00 __10 LEFT_00 DOWN_00 UP_00 RGHT_00 \n\
\t\t__10 __10 __10 __10 __10 __10 HOME_00 PGDN_00 PGUP_00 END_00 \n\
\t\t__00 __00 __00 __10 __10 __10 __10 __00 __00 __00 \n\
\t\t___Layer 3___\n\
\t\t__10 __10 __10 __10 __10 __10 __10 __10 __10 __10 \n\
\t\t__10 __10 __10 __10 __10 __10 __10 __10 __10 __10 \n\
\t\t__10 __10 __10 __10 __10 __10 __10 __10 __10 __10 \n\
\t\t__00 __00 __00 __10 __10 __10 __10 __00 __00 __00 \n\
\t\t";

/// The effort of reaching each key of a keyboard of four rows and ten columns.
pub const FOUR_BY_TEN_EFFORT: &'static str = "\n\
\t\t7  2  2  2  7  7  2  2  2  7\n\
\t\t3  1  1  1  3  3  1  1  1  3\n\
\t\t5  3  3  3  8  8  3  3  3  5\n\
\t\t10 7  4  2  1  1  2  4  7  10\n\
\t\t";

/// The hand and finger for each key of a keyboard of four rows and ten columns.
pub const FOUR_BY_TEN_PHALANX: &'static str = "\n\
\t\tL:P L:R L:M L:I L:I R:I R:I R:M R:R R:P\n\
\t\tL:P L:R L:M L:I L:I R:I R:I R:M R:R R:P\n\
\t\tL:P L:R L:M L:I L:I R:I R:I R:M R:R R:P\n\
\t\tL:P L:R L:T L:T L:T R:T R:T R:T R:R R:P\n\
\t\t";

/// A keyboard for which a preset layout exists.
#[derive(Debug, PartialOrd, Ord, PartialEq, Eq, Hash, Clone, Copy)]
pub enum LayoutPreset {
    FerrisSweep,
}

impl LayoutPreset {
    /// The name of the preset, as a configuration file writes it.
    pub open spec fn spec_name(self) -> Seq<char> {
        match self {
            LayoutPreset::FerrisSweep => "FerrisSweep"@,
        }
    }

    /// The name of the preset, as a configuration file writes it.
    pub fn name(&self) -> (name: &'static str)
        ensures
            name@ == self.spec_name(),
    {
        match self {
            LayoutPreset::FerrisSweep => "FerrisSweep",
        }
    }

    /// Every preset, in declaration order.
    pub fn all() -> (presets: Vec<LayoutPreset>)
        ensures
            presets@ == seq![LayoutPreset::FerrisSweep],
    {
        let mut presets: Vec<LayoutPreset> = Vec::new();
        presets.push(LayoutPreset::FerrisSweep);
        assert(presets@ =~= seq![LayoutPreset::FerrisSweep]);
        presets
    }
}

/// The names of all presets, in declaration order.
pub open spec fn preset_names() -> Seq<Seq<char>> {
    seq![LayoutPreset::FerrisSweep.spec_name()]
}

} // verus!
