//! Identities of cached glyph bitmaps.
use vstd::prelude::*;

verus! {

/// A discrete bucket for a sub-pixel offset of a glyph's position.
#[derive(Clone, Copy, Debug, PartialEq, Eq, Hash, Structural)]
pub enum SubpixelBin {
    Zero,
    One,
    Two,
    Three,
}

/// Identity of a glyph produced by the shaping engine.
#[derive(Clone, Copy, Debug, PartialEq, Eq, Hash, Structural)]
pub struct TextCacheKey {
    pub font_id: u64,
    pub glyph_id: u16,
    pub font_size_bits: u32,
    pub x_bin: SubpixelBin,
    pub y_bin: SubpixelBin,
    pub flags: u32,
}

/// Identity of a glyph supplied by the caller rather than by a font.
#[derive(Clone, Copy, Debug, PartialEq, Eq, Hash, Structural)]
pub struct CustomGlyphCacheKey {
    pub glyph_id: u16,
    pub width: u16,
    pub height: u16,
    pub x_bin: SubpixelBin,
    pub y_bin: SubpixelBin,
}

/// Identity of one renderable glyph instance; equality is exact on every field.
#[derive(Clone, Copy, Debug, PartialEq, Eq, Hash, Structural)]
pub enum GlyphonCacheKey {
    Text(TextCacheKey),
    Custom(CustomGlyphCacheKey),
}

} // verus!
