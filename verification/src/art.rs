//! The art at hand: the water surface, the bubble growth stages and one
//! small fish in both facings. Raw strings keep every backslash as drawn.

use vstd::prelude::*;

verus! {

/// The four tiling segments of the water surface, top to bottom.
pub const WATER_SEGMENTS: [&'static str; 4] = [
    "~~~~~~~~~~~~~~~~~~~~~~~~~~~~~~~~~",
    "^^^^ ^^^  ^^^   ^^^    ^^^^      ",
    "^^^^      ^^^^     ^^^    ^^     ",
    "^^      ^^^^      ^^^    ^^^^^^  ",
];

/// Bubble growth frames, smallest to largest (rises then pops at the surface).
pub const BUBBLE: [&'static str; 5] = [".", "o", "O", "O", "O"];

/// A small fish, facing right. Fields index into the color mask:
/// 1 body, 2 dorsal fin, 3 flippers, 4 eye, 5 mouth, 6 tailfin, 7 gills.
pub const FISH_R_SHAPE: &'static str = r"
   \
  / \
>=_('>
  \_/
   /
";

pub const FISH_R_MASK: &'static str = r"
   2
  1 1
661745
  111
   3
";

/// The same fish, facing left.
pub const FISH_L_SHAPE: &'static str = r"
  /
 / \
<')_=<
 \_/
  \
";

pub const FISH_L_MASK: &'static str = r"
  2
 1 1
547166
 111
  3
";

} // verus!
