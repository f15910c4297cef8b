//! BSP levels: the header with its directory of lumps, and the lump that
//! holds the entities of the level as map text.

pub mod parser;
pub mod repr;

pub use parser::Parser;
pub use repr::{Entry, EntryOffset, Head, BSP2_VERSION, BSP_VERSION};
