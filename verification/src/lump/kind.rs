//! The bytes by which a WAD entry names the kind of its lump.

use vstd::prelude::*;

verus! {

/// A palette: 256 colors of three bytes each.
pub const PALETTE: u8 = 0x40;

/// A flat picture, as the status bar uses them.
pub const SBAR: u8 = 0x42;

/// A texture with its smaller copies.
pub const MIPTEX: u8 = 0x44;

/// Bytes without a header.
pub const FLAT: u8 = 0x45;

} // verus!
