//! Quake source maps: their tokens, their grammar, the document that a map's
//! text stands for, and the way back from a document to text.

pub mod check;
pub mod fidelity;
pub mod lexer;
pub mod number;
pub mod parser;
pub mod repr;
pub mod write;

pub use check::CheckWritable;
pub use lexer::{lex, LexerState, Token, TokenIterator};
pub use number::Number;
pub use parser::{parse, TokenPeekable};
pub use repr::{
    Alignment, Brush, Edict, Entity, EntityKind, HalfSpace, Point, QuakeMap, Surface,
    ValidationResult, Vec2, Vec3,
};
