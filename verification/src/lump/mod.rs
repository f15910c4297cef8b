//! Data lumps, as a WAD archive holds them or as loose files.

pub mod kind;
pub mod parse;
pub mod repr;

pub use parse::{parse_image, parse_mip_texture, parse_palette, read_raw};
pub use repr::{Image, Lump, MipTexture, MipTextureHead};
