use glyphon::buffer::{next_copy_buffer_size, BufferWrite};
use glyphon::clip::{clamp_bounds, clip_glyph, ClipBounds, ClippedGlyph, TextBounds};
use glyphon::packer::{Rect, ShelfPacker};
use glyphon::text_render2::{PositionMapping, TextRenderer2};
use glyphon::vertex::{vertices_to_bytes, GlyphToRender, LayoutGlyphs, RenderableTextArea};

fn bounds() -> ClipBounds {
    ClipBounds { min_x: 10, min_y: 20, max_x: 110, max_y: 220 }
}

#[test]
fn clip_inside_is_unchanged() {
    let c = clip_glyph(30, 40, 8, 9, 100, 200, &bounds()).unwrap();
    assert_eq!(c, ClippedGlyph { x: 30, y: 40, width: 8, height: 9, atlas_x: 100, atlas_y: 200 });
}

#[test]
fn clip_left_edge_shifts_atlas_origin() {
    let c = clip_glyph(6, 40, 8, 9, 100, 200, &bounds()).unwrap();
    assert_eq!(c, ClippedGlyph { x: 10, y: 40, width: 4, height: 9, atlas_x: 104, atlas_y: 200 });
}

#[test]
fn clip_right_edge_keeps_atlas_origin() {
    let c = clip_glyph(105, 40, 8, 9, 100, 200, &bounds()).unwrap();
    assert_eq!(c, ClippedGlyph { x: 105, y: 40, width: 5, height: 9, atlas_x: 100, atlas_y: 200 });
}

#[test]
fn clip_top_and_bottom_edges() {
    let top = clip_glyph(30, 15, 8, 9, 100, 200, &bounds()).unwrap();
    assert_eq!(top, ClippedGlyph { x: 30, y: 20, width: 8, height: 4, atlas_x: 100, atlas_y: 205 });
    let bottom = clip_glyph(30, 215, 8, 9, 100, 200, &bounds()).unwrap();
    assert_eq!(bottom, ClippedGlyph { x: 30, y: 215, width: 8, height: 5, atlas_x: 100, atlas_y: 200 });
}

#[test]
fn clip_two_edges() {
    let c = clip_glyph(5, 216, 8, 9, 100, 200, &bounds()).unwrap();
    assert_eq!(c, ClippedGlyph { x: 10, y: 216, width: 3, height: 4, atlas_x: 105, atlas_y: 200 });
}

#[test]
fn clip_outside_is_none() {
    assert_eq!(clip_glyph(200, 40, 8, 9, 0, 0, &bounds()), None);
    assert_eq!(clip_glyph(0, 40, 8, 9, 0, 0, &bounds()), None);
    assert_eq!(clip_glyph(30, 300, 8, 9, 0, 0, &bounds()), None);
    // touching an edge leaves nothing visible
    assert_eq!(clip_glyph(110, 40, 8, 9, 0, 0, &bounds()), None);
    assert_eq!(clip_glyph(2, 40, 8, 9, 0, 0, &bounds()), None);
    // zero-sized footprint
    assert_eq!(clip_glyph(30, 40, 0, 9, 0, 0, &bounds()), None);
}

#[test]
fn clamp_to_viewport() {
    let b = clamp_bounds(&TextBounds { left: -5, top: 3, right: 900, bottom: 100 }, 800, 600);
    assert_eq!(b, ClipBounds { min_x: 0, min_y: 3, max_x: 800, max_y: 100 });
}

fn overlap(a: &Rect, b: &Rect) -> bool {
    a.x < b.x + b.width && b.x < a.x + a.width && a.y < b.y + b.height && b.y < a.y + a.height
}

#[test]
fn random_allocations_are_disjoint() {
    let mut packer = ShelfPacker::new(256);
    let mut seed: u32 = 12345;
    let mut rects = Vec::new();
    for _ in 0..300 {
        seed = seed.wrapping_mul(1_103_515_245).wrapping_add(12345);
        let w = 1 + (seed >> 16) % 24;
        seed = seed.wrapping_mul(1_103_515_245).wrapping_add(12345);
        let h = 1 + (seed >> 16) % 24;
        if let Some(r) = packer.try_allocate(w, h) {
            assert!(r.x + r.width <= 256 && r.y + r.height <= 256);
            rects.push(r);
        }
    }
    assert!(rects.len() > 20);
    for i in 0..rects.len() {
        for j in 0..rects.len() {
            if i != j {
                assert!(!overlap(&rects[i], &rects[j]), "{:?} {:?}", rects[i], rects[j]);
            }
        }
    }
}

#[test]
fn packer_fails_then_grows() {
    let mut packer = ShelfPacker::new(16);
    assert_eq!(packer.try_allocate(16, 16), Some(Rect { x: 0, y: 0, width: 16, height: 16 }));
    assert_eq!(packer.try_allocate(1, 1), None);
    packer.grow(32);
    assert_eq!(packer.try_allocate(16, 16), Some(Rect { x: 16, y: 0, width: 16, height: 16 }));
    assert_eq!(packer.try_allocate(20, 4), Some(Rect { x: 0, y: 16, width: 20, height: 4 }));
}

#[test]
fn copy_buffer_sizes() {
    assert_eq!(next_copy_buffer_size(0), 4);
    assert_eq!(next_copy_buffer_size(1), 4);
    assert_eq!(next_copy_buffer_size(3), 4);
    assert_eq!(next_copy_buffer_size(5), 8);
    assert_eq!(next_copy_buffer_size(4096), 4096);
    assert_eq!(next_copy_buffer_size(4097), 8192);
}

fn vertex(i: i32) -> GlyphToRender {
    GlyphToRender {
        pos_x: i,
        pos_y: -i,
        dim_x: 1,
        dim_y: 2,
        uv_x: 3,
        uv_y: 4,
        color: 0xaabbccdd,
        content_type: 1,
        color_conversion: 0,
        depth_bits: 0,
    }
}

#[test]
fn vertex_layout_is_little_endian_in_field_order() {
    let bytes = vertices_to_bytes(&vec![vertex(-2)]);
    let mut expected = Vec::new();
    expected.extend_from_slice(&(-2i32).to_le_bytes());
    expected.extend_from_slice(&2i32.to_le_bytes());
    expected.extend_from_slice(&1u16.to_le_bytes());
    expected.extend_from_slice(&2u16.to_le_bytes());
    expected.extend_from_slice(&3u16.to_le_bytes());
    expected.extend_from_slice(&4u16.to_le_bytes());
    expected.extend_from_slice(&0xaabbccddu32.to_le_bytes());
    expected.extend_from_slice(&1u16.to_le_bytes());
    expected.extend_from_slice(&0u16.to_le_bytes());
    expected.extend_from_slice(&0u32.to_le_bytes());
    assert_eq!(bytes, expected);
}

fn frame(n: usize) -> Vec<RenderableTextArea> {
    vec![RenderableTextArea {
        layout_glyphs: vec![LayoutGlyphs {
            bounds: TextBounds { left: 0, top: 0, right: 10, bottom: 10 },
            glyphs: (0..n as i32).map(vertex).collect(),
        }],
        custom_glyphs: Vec::new(),
    }]
}

#[test]
fn vertex_buffer_never_shrinks() {
    let mut renderer = TextRenderer2::new(PositionMapping::Subpixel);
    assert_eq!(renderer.vertex_buffer_size(), 4096);
    let mut cap = renderer.vertex_buffer_size();
    for n in [10usize, 100, 200, 400] {
        let up = renderer.prepare_renderable_text_areas(&frame(n));
        assert_eq!(up.bytes.len(), n * 28);
        assert!(renderer.vertex_buffer_size() >= cap);
        assert!(renderer.vertex_buffer_size() >= (n * 28) as u64);
        cap = renderer.vertex_buffer_size();
    }
    assert_eq!(cap, 16384);
    let up = renderer.prepare_renderable_text_areas(&frame(3));
    assert_eq!(up.write, BufferWrite::InPlace);
    assert_eq!(up.bytes.len(), 3 * 28);
    assert_eq!(renderer.vertex_buffer_size(), cap);
    assert_eq!(renderer.glyph_vertices_len(), 3);
}

#[test]
fn overflowing_stream_recreates_buffer() {
    let mut renderer = TextRenderer2::new(PositionMapping::Subpixel);
    let up = renderer.prepare_renderable_text_areas(&frame(200));
    assert_eq!(up.write, BufferWrite::Recreate { size: 8192 });
    assert_eq!(renderer.vertex_buffer_size(), 8192);
}
