//! WAD archives: the header, the directory of entries, and the lumps that
//! the entries point to.

pub mod parser;
pub mod repr;

pub use parser::Parser;
pub use repr::{Entry, EntryConfig, Head};
