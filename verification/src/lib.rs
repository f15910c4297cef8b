//! Reading and writing of Quake source maps, and of the binary containers
//! (BSP levels, WAD texture archives and their lumps) of the same engine
//! family.
//!
//! Every function works on bytes held in memory. Bringing the bytes in from
//! a file and sending them out again is left to the caller.

use vstd::prelude::*;

pub mod bsp;
pub mod common;
pub mod error;
pub mod lump;
pub mod qmap;
pub mod text;
pub mod wad;

pub use common::{slice_to_cstring, ByteReader, Junk, Palette};
pub use error::BinParse as BinParseError;
pub use error::TextParse as TextParseError;
pub use error::Write as WriteError;
pub use text::Text;

verus! {

pub type BinParseResult<T> = Result<T, BinParseError>;

pub type TextParseResult<T> = Result<T, TextParseError>;

pub type WriteAttempt = Result<(), WriteError>;

} // verus!
