//! Glyph caching in a texture atlas and preparation of per-glyph vertices.
pub mod cache_key;
pub mod clip;
pub mod packer;
pub mod atlas;
pub mod vertex;
pub mod buffer;
pub mod text_render2;
