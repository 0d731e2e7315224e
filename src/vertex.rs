//! Per-glyph vertices, their flattening into one stream and their byte layout.
use vstd::prelude::*;
use crate::clip::TextBounds;

verus! {

/// One glyph to draw: a quad on screen, sampled from an atlas.
#[derive(Clone, Copy, Debug, PartialEq, Eq, Structural)]
pub struct GlyphToRender {
    pub pos_x: i32,
    pub pos_y: i32,
    pub dim_x: u16,
    pub dim_y: u16,
    pub uv_x: u16,
    pub uv_y: u16,
    pub color: u32,
    /// `0` for a color glyph, `1` for a mask glyph.
    pub content_type: u16,
    /// `1` when the shader converts the glyph's color to linear space, else `0`.
    pub color_conversion: u16,
    /// Bits of the `f32` depth of the glyph.
    pub depth_bits: u32,
}

/// Size in bytes of one encoded vertex.
pub const VERTEX_SIZE: usize = 28;

pub open spec fn le16(v: u16) -> Seq<u8> {
    seq![(v & 0xff) as u8, ((v >> 8u16) & 0xff) as u8]
}

pub open spec fn le32(v: u32) -> Seq<u8> {
    seq![
        (v & 0xff) as u8,
        ((v >> 8u32) & 0xff) as u8,
        ((v >> 16u32) & 0xff) as u8,
        ((v >> 24u32) & 0xff) as u8,
    ]
}

/// The layout of one vertex: every field little-endian, in declaration order,
/// without padding.
pub open spec fn vertex_bytes(v: GlyphToRender) -> Seq<u8> {
    le32(v.pos_x as u32) + le32(v.pos_y as u32) + le16(v.dim_x) + le16(v.dim_y) + le16(v.uv_x)
        + le16(v.uv_y) + le32(v.color) + le16(v.content_type) + le16(v.color_conversion) + le32(
        v.depth_bits,
    )
}

/// The layout of a vertex stream: its vertices one after another.
pub open spec fn stream_bytes(vs: Seq<GlyphToRender>) -> Seq<u8>
    decreases vs.len(),
{
    if vs.len() == 0 {
        Seq::empty()
    } else {
        stream_bytes(vs.drop_last()) + vertex_bytes(vs.last())
    }
}

fn push_u16(out: &mut Vec<u8>, v: u16)
    ensures
        final(out)@ == old(out)@ + le16(v),
{
    out.push((v & 0xff) as u8);
    out.push(((v >> 8u16) & 0xff) as u8);
    assert(final(out)@ =~= old(out)@ + le16(v));
}

fn push_u32(out: &mut Vec<u8>, v: u32)
    ensures
        final(out)@ == old(out)@ + le32(v),
{
    out.push((v & 0xff) as u8);
    out.push(((v >> 8u32) & 0xff) as u8);
    out.push(((v >> 16u32) & 0xff) as u8);
    out.push(((v >> 24u32) & 0xff) as u8);
    assert(final(out)@ =~= old(out)@ + le32(v));
}

/// Appends the bytes of one vertex.
pub fn write_vertex(out: &mut Vec<u8>, v: &GlyphToRender)
    ensures
        final(out)@ == old(out)@ + vertex_bytes(*v),
{
    let ghost o = out@;
    push_u32(out, v.pos_x as u32);
    push_u32(out, v.pos_y as u32);
    push_u16(out, v.dim_x);
    push_u16(out, v.dim_y);
    push_u16(out, v.uv_x);
    push_u16(out, v.uv_y);
    push_u32(out, v.color);
    push_u16(out, v.content_type);
    push_u16(out, v.color_conversion);
    push_u32(out, v.depth_bits);
    assert(out@ =~= o + vertex_bytes(*v));
}

proof fn lemma_stream_len(vs: Seq<GlyphToRender>)
    ensures
        stream_bytes(vs).len() == VERTEX_SIZE * vs.len(),
    decreases vs.len(),
{
    if vs.len() > 0 {
        lemma_stream_len(vs.drop_last());
    }
}

/// Encodes a vertex stream for upload.
pub fn vertices_to_bytes(vs: &Vec<GlyphToRender>) -> (r: Vec<u8>)
    requires
        vs@.len() * VERTEX_SIZE <= usize::MAX,
    ensures
        r@ == stream_bytes(vs@),
        r@.len() == VERTEX_SIZE * vs@.len(),
{
    let mut out: Vec<u8> = Vec::new();
    let mut i: usize = 0;
    while i < vs.len()
        invariant
            i <= vs@.len(),
            out@ == stream_bytes(vs@.take(i as int)),
        decreases vs@.len() - i,
    {
        write_vertex(&mut out, &vs[i]);
        proof {
            assert(vs@.take(i + 1).drop_last() =~= vs@.take(i as int));
        }
        i = i + 1;
    }
    proof {
        assert(vs@.take(vs@.len() as int) =~= vs@);
        lemma_stream_len(vs@);
    }
    out
}

/// The prepared vertices of one line of a text area, with the line's bounds.
#[derive(Clone, Debug)]
pub struct LayoutGlyphs {
    pub bounds: TextBounds,
    pub glyphs: Vec<GlyphToRender>,
}

/// The prepared vertices of one text area.
#[derive(Clone, Debug)]
pub struct RenderableTextArea {
    pub layout_glyphs: Vec<LayoutGlyphs>,
    pub custom_glyphs: Vec<GlyphToRender>,
}

/// The vertices of the lines, in order.
pub open spec fn lines_vertices(ls: Seq<LayoutGlyphs>) -> Seq<GlyphToRender>
    decreases ls.len(),
{
    if ls.len() == 0 {
        Seq::empty()
    } else {
        lines_vertices(ls.drop_last()) + ls.last().glyphs@
    }
}

/// The vertices of a text area: those of its lines, then its custom glyphs.
pub open spec fn area_vertices(a: RenderableTextArea) -> Seq<GlyphToRender> {
    lines_vertices(a.layout_glyphs@) + a.custom_glyphs@
}

/// The vertices of all text areas, in order.
pub open spec fn all_vertices(areas: Seq<RenderableTextArea>) -> Seq<GlyphToRender>
    decreases areas.len(),
{
    if areas.len() == 0 {
        Seq::empty()
    } else {
        all_vertices(areas.drop_last()) + area_vertices(areas.last())
    }
}

fn append_vertices(out: &mut Vec<GlyphToRender>, src: &Vec<GlyphToRender>)
    ensures
        final(out)@ == old(out)@ + src@,
{
    let ghost o = out@;
    let mut i: usize = 0;
    while i < src.len()
        invariant
            i <= src@.len(),
            out@ == o + src@.take(i as int),
        decreases src@.len() - i,
    {
        out.push(src[i]);
        proof {
            assert(src@.take(i + 1) =~= src@.take(i as int).push(src@[i as int]));
        }
        i = i + 1;
    }
    assert(src@.take(src@.len() as int) =~= src@);
}

/// Flattens the vertices of text areas into one stream: per text area, the
/// vertices of each line in order, then its custom glyphs.
pub fn flatten_vertices(areas: &Vec<RenderableTextArea>) -> (r: Vec<GlyphToRender>)
    ensures
        r@ == all_vertices(areas@),
{
    let mut out: Vec<GlyphToRender> = Vec::new();
    let mut i: usize = 0;
    while i < areas.len()
        invariant
            i <= areas@.len(),
            out@ == all_vertices(areas@.take(i as int)),
        decreases areas@.len() - i,
    {
        let area = &areas[i];
        let ghost before = out@;
        let mut j: usize = 0;
        while j < area.layout_glyphs.len()
            invariant
                j <= area.layout_glyphs@.len(),
                out@ == before + lines_vertices(area.layout_glyphs@.take(j as int)),
            decreases area.layout_glyphs@.len() - j,
        {
            append_vertices(&mut out, &area.layout_glyphs[j].glyphs);
            proof {
                assert(area.layout_glyphs@.take(j + 1).drop_last() =~= area.layout_glyphs@.take(j as int));
            }
            j = j + 1;
        }
        append_vertices(&mut out, &area.custom_glyphs);
        proof {
            assert(area.layout_glyphs@.take(area.layout_glyphs@.len() as int) =~= area.layout_glyphs@);
            assert(areas@.take(i + 1).drop_last() =~= areas@.take(i as int));
            assert(out@ =~= all_vertices(areas@.take(i as int)) + area_vertices(areas@[i as int]));
        }
        i = i + 1;
    }
    assert(areas@.take(areas@.len() as int) =~= areas@);
    out
}

} // verus!
