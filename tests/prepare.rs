use glyphon::atlas::{ColorMode, ContentType, GpuCacheStatus, TextAtlas};
use glyphon::cache_key::{CustomGlyphCacheKey, GlyphonCacheKey, SubpixelBin, TextCacheKey};
use glyphon::clip::TextBounds;
use glyphon::text_render2::{
    custom_image, place_image, prepare_glyph, prepare_glyphs, GlyphImage, LayoutRun, PlacedGlyph, PositionMapping, PrepareError,
    RasterizeGlyph, TextArea, TextRenderer2,
};
use glyphon::clip::ClipBounds;

/// Rasterizes every text glyph as a `size` x `size` bitmap with fixed bearings,
/// counting the calls.
struct Boxes {
    size: u16,
    top: i16,
    left: i16,
    content_type: ContentType,
    calls: usize,
    empty: bool,
}

impl RasterizeGlyph for Boxes {
    fn rasterize(&mut self, _key: &GlyphonCacheKey, _scale_bits: u32) -> Option<GlyphImage> {
        self.calls += 1;
        if self.empty {
            return None;
        }
        let channels = if self.content_type == ContentType::Color { 4 } else { 1 };
        Some(GlyphImage {
            content_type: self.content_type,
            top: self.top,
            left: self.left,
            width: self.size,
            height: self.size,
            data: vec![255u8; self.size as usize * self.size as usize * channels],
        })
    }
}

fn boxes(size: u16) -> Boxes {
    Boxes { size, top: 8, left: 1, content_type: ContentType::Mask, calls: 0, empty: false }
}

fn text_key(glyph_id: u16) -> GlyphonCacheKey {
    GlyphonCacheKey::Text(TextCacheKey {
        font_id: 1,
        glyph_id,
        font_size_bits: 16.0f32.to_bits(),
        x_bin: SubpixelBin::Zero,
        y_bin: SubpixelBin::Zero,
        flags: 0,
    })
}

fn full_bounds() -> ClipBounds {
    ClipBounds { min_x: 0, min_y: 0, max_x: 800, max_y: 600 }
}

const BLACK: u32 = 0xff00_0000;

#[test]
fn same_key_twice_uploads_once() {
    let mut atlas = TextAtlas::new(ColorMode::Web, 256, 1024);
    let mut r = boxes(10);
    let b = full_bounds();
    let first = prepare_glyph(5, 20, 0, BLACK, 0, text_key(3), &mut atlas, 0, &b, &mut r).unwrap();
    let d1 = atlas.get(&text_key(3)).unwrap();
    let second = prepare_glyph(5, 20, 0, BLACK, 0, text_key(3), &mut atlas, 0, &b, &mut r).unwrap();
    let d2 = atlas.get(&text_key(3)).unwrap();
    assert_eq!(d1, d2);
    assert_eq!(first, second);
    assert!(first.is_some());
    assert_eq!(r.calls, 1);
    assert_eq!(atlas.take_uploads().len(), 1);
}

#[test]
fn empty_glyph_is_cached_as_skip() {
    let mut atlas = TextAtlas::new(ColorMode::Web, 256, 1024);
    let mut r = boxes(10);
    r.empty = true;
    let b = full_bounds();
    let first = prepare_glyph(5, 20, 0, BLACK, 0, text_key(7), &mut atlas, 0, &b, &mut r).unwrap();
    assert_eq!(first, None);
    assert_eq!(atlas.get(&text_key(7)).unwrap().gpu_cache, GpuCacheStatus::SkipRasterization);
    let second = prepare_glyph(5, 20, 0, BLACK, 0, text_key(7), &mut atlas, 0, &b, &mut r).unwrap();
    assert_eq!(second, None);
    assert_eq!(r.calls, 1);
    assert_eq!(atlas.take_uploads().len(), 0);
}

#[test]
fn zero_sized_bitmap_is_cached_as_skip() {
    let mut atlas = TextAtlas::new(ColorMode::Web, 256, 1024);
    let mut r = boxes(0);
    let b = full_bounds();
    assert_eq!(prepare_glyph(0, 0, 0, BLACK, 0, text_key(2), &mut atlas, 0, &b, &mut r).unwrap(), None);
    assert_eq!(atlas.get(&text_key(2)).unwrap().gpu_cache, GpuCacheStatus::SkipRasterization);
    assert_eq!(prepare_glyph(0, 0, 0, BLACK, 0, text_key(2), &mut atlas, 0, &b, &mut r).unwrap(), None);
    assert_eq!(r.calls, 1);
}

#[test]
fn zero_sized_custom_glyph_is_not_rasterized() {
    let mut atlas = TextAtlas::new(ColorMode::Web, 256, 1024);
    let mut r = boxes(10);
    let key = GlyphonCacheKey::Custom(CustomGlyphCacheKey {
        glyph_id: 1,
        width: 0,
        height: 12,
        x_bin: SubpixelBin::Zero,
        y_bin: SubpixelBin::Zero,
    });
    let b = full_bounds();
    assert_eq!(prepare_glyph(0, 0, 0, BLACK, 0, key, &mut atlas, 0, &b, &mut r).unwrap(), None);
    assert_eq!(r.calls, 0);
    assert_eq!(atlas.get(&key).unwrap().gpu_cache, GpuCacheStatus::SkipRasterization);
}

#[test]
fn custom_glyph_takes_size_from_its_key() {
    let mut atlas = TextAtlas::new(ColorMode::Accurate, 256, 1024);
    let mut r = boxes(3);
    r.content_type = ContentType::Color;
    let key = GlyphonCacheKey::Custom(CustomGlyphCacheKey {
        glyph_id: 9,
        width: 16,
        height: 12,
        x_bin: SubpixelBin::One,
        y_bin: SubpixelBin::Zero,
    });
    let b = full_bounds();
    let v = prepare_glyph(10, 20, 0, 0x1234_5678, 0, key, &mut atlas, 0, &b, &mut r).unwrap().unwrap();
    assert_eq!((v.pos_x, v.pos_y, v.dim_x, v.dim_y), (10, 20, 16, 12));
    assert_eq!(v.color, 0x1234_5678);
    assert_eq!(v.content_type, 0);
    assert_eq!(v.color_conversion, 1);
}

#[test]
fn conversion_flag_only_for_accurate_color_glyphs() {
    let b = full_bounds();
    let mut atlas = TextAtlas::new(ColorMode::Accurate, 256, 1024);
    let mut mask = boxes(4);
    let v = prepare_glyph(0, 20, 0, BLACK, 0, text_key(1), &mut atlas, 0, &b, &mut mask).unwrap().unwrap();
    assert_eq!((v.content_type, v.color_conversion), (1, 0));
    let mut web = TextAtlas::new(ColorMode::Web, 256, 1024);
    let mut color = boxes(4);
    color.content_type = ContentType::Color;
    let v = prepare_glyph(0, 20, 0, BLACK, 0, text_key(1), &mut web, 0, &b, &mut color).unwrap().unwrap();
    assert_eq!((v.content_type, v.color_conversion), (0, 0));
}

fn one_line_area(bounds: TextBounds) -> TextArea {
    let glyphs = (0..3)
        .map(|i| PlacedGlyph {
            cache_key: text_key(10 + i as u16),
            x: 10 + 12 * i,
            y: 0,
            color: None,
            metadata: 0,
        })
        .collect();
    TextArea {
        bounds,
        default_color: BLACK,
        scale_bits: 1.0f32.to_bits(),
        custom_glyphs: Vec::new(),
        runs: vec![LayoutRun {
            line_y: 20,
            bounds: TextBounds { left: 0, top: 0, right: 36, bottom: 24 },
            glyphs,
        }],
    }
}

#[test]
fn three_glyphs_in_run_order() {
    let mut renderer = TextRenderer2::new(PositionMapping::Subpixel);
    let mut atlas = TextAtlas::new(ColorMode::Web, 256, 1024);
    let mut r = boxes(10);
    let area = one_line_area(TextBounds { left: 0, top: 0, right: 800, bottom: 600 });
    let areas = renderer.prepare_text_areas(&mut atlas, 800, 600, &vec![area], &mut r).unwrap();
    let upload = renderer.prepare_renderable_text_areas(&areas);
    assert_eq!(renderer.glyph_vertices_len(), 3);
    assert_eq!(upload.bytes.len(), 3 * 28);
    let vs = &areas[0].layout_glyphs[0].glyphs;
    assert_eq!(vs.len(), 3);
    for (i, v) in vs.iter().enumerate() {
        let d = atlas.get(&text_key(10 + i as u16)).unwrap();
        let (ax, ay) = match d.gpu_cache {
            GpuCacheStatus::InAtlas { x, y, .. } => (x, y),
            GpuCacheStatus::SkipRasterization => panic!("glyph should be resident"),
        };
        // offset + bearing: left bearing 1, baseline 20 minus top bearing 8
        assert_eq!(v.pos_x, 10 + 12 * i as i32 + 1);
        assert_eq!(v.pos_y, 12);
        assert_eq!((v.dim_x, v.dim_y), (10, 10));
        assert_eq!((v.uv_x, v.uv_y), (ax, ay));
        assert_eq!(v.color, BLACK);
    }
}

#[test]
fn right_bound_clips_third_glyph() {
    let mut renderer = TextRenderer2::new(PositionMapping::Subpixel);
    let mut atlas = TextAtlas::new(ColorMode::Web, 256, 1024);
    let mut r = boxes(10);
    // third glyph spans [35, 45); the bound cuts it in half
    let area = one_line_area(TextBounds { left: 0, top: 0, right: 40, bottom: 600 });
    let areas = renderer.prepare_text_areas(&mut atlas, 800, 600, &vec![area], &mut r).unwrap();
    let vs = &areas[0].layout_glyphs[0].glyphs;
    assert_eq!(vs.len(), 3);
    let third = vs[2];
    let d = atlas.get(&text_key(12)).unwrap();
    let ay = match d.gpu_cache {
        GpuCacheStatus::InAtlas { y, .. } => y,
        GpuCacheStatus::SkipRasterization => panic!("glyph should be resident"),
    };
    assert_eq!(third.pos_x, 35);
    assert_eq!(third.dim_x as i32, 40 - 35);
    assert_eq!(third.dim_y, 10);
    assert_eq!(third.pos_y, 12);
    assert_eq!(third.uv_y, ay);
    assert_eq!((vs[0].dim_x, vs[1].dim_x), (10, 10));
}

#[test]
fn atlas_full_after_ceiling() {
    // 32 x 32 bitmaps in an atlas of side 32 that may grow to 64: four fit.
    let mut atlas = TextAtlas::new(ColorMode::Web, 32, 64);
    let mut r = boxes(32);
    let b = full_bounds();
    for id in 0..4u16 {
        assert!(prepare_glyph(0, 40, 0, BLACK, 0, text_key(id), &mut atlas, 0, &b, &mut r).is_ok());
    }
    assert_eq!(atlas.size(ContentType::Mask), 64);
    let before: Vec<_> = (0..4u16).map(|id| atlas.get(&text_key(id)).unwrap()).collect();
    let fifth = prepare_glyph(0, 40, 0, BLACK, 0, text_key(4), &mut atlas, 0, &b, &mut r);
    assert_eq!(fifth, Err(PrepareError::AtlasFull));
    assert!(atlas.get(&text_key(4)).is_none());
    for id in 0..4u16 {
        assert_eq!(atlas.get(&text_key(id)).unwrap(), before[id as usize]);
    }
    assert_eq!(atlas.take_uploads().len(), 4);
}

#[test]
fn custom_glyphs_follow_lines() {
    let mut renderer = TextRenderer2::new(PositionMapping::Pixel);
    let mut atlas = TextAtlas::new(ColorMode::Web, 256, 1024);
    let mut r = boxes(10);
    let mut area = one_line_area(TextBounds { left: 0, top: 0, right: 800, bottom: 600 });
    area.custom_glyphs.push(PlacedGlyph {
        cache_key: GlyphonCacheKey::Custom(CustomGlyphCacheKey {
            glyph_id: 1,
            width: 8,
            height: 8,
            x_bin: SubpixelBin::Zero,
            y_bin: SubpixelBin::Zero,
        }),
        x: 100,
        y: 100,
        color: Some(0xff),
        metadata: 0,
    });
    let areas = renderer.prepare_text_areas(&mut atlas, 800, 600, &vec![area.clone(), area], &mut r).unwrap();
    let upload = renderer.prepare_renderable_text_areas(&areas);
    assert_eq!(renderer.glyph_vertices_len(), 8);
    assert_eq!(upload.bytes.len(), 8 * 28);
    // the fourth vertex is the first area's custom glyph
    assert_eq!(&upload.bytes[3 * 28..3 * 28 + 4], &100i32.to_le_bytes());
    assert_eq!(&upload.bytes[3 * 28 + 16..3 * 28 + 20], &0xffu32.to_le_bytes());
}

/// Rasterizes glyph `id` as a bitmap of `1 + id % 13` by `1 + id % 7` texels.
struct Varied;

impl RasterizeGlyph for Varied {
    fn rasterize(&mut self, key: &GlyphonCacheKey, _scale_bits: u32) -> Option<GlyphImage> {
        let id = match key {
            GlyphonCacheKey::Text(k) => k.glyph_id,
            GlyphonCacheKey::Custom(k) => k.glyph_id,
        };
        let (w, h) = (1 + id % 13, 1 + id % 7);
        Some(GlyphImage {
            content_type: ContentType::Mask,
            top: 0,
            left: 0,
            width: w,
            height: h,
            data: vec![1u8; w as usize * h as usize],
        })
    }
}

#[test]
fn resident_glyphs_never_overlap() {
    let mut atlas = TextAtlas::new(ColorMode::Web, 16, 128);
    let b = full_bounds();
    let mut rects = Vec::new();
    for id in 0..200u16 {
        prepare_glyph(0, 0, 0, BLACK, 0, text_key(id), &mut atlas, 0, &b, &mut Varied).unwrap();
    }
    assert!(atlas.size(ContentType::Mask) > 16);
    for id in 0..200u16 {
        let d = atlas.get(&text_key(id)).unwrap();
        match d.gpu_cache {
            GpuCacheStatus::InAtlas { x, y, .. } => {
                let (x, y, w, h) = (x as u32, y as u32, d.width as u32, d.height as u32);
                assert!(x + w <= 128 && y + h <= 128);
                rects.push((x, y, w, h));
            }
            GpuCacheStatus::SkipRasterization => panic!("glyph should be resident"),
        }
    }
    for i in 0..rects.len() {
        for j in (i + 1)..rects.len() {
            let (a, c) = (rects[i], rects[j]);
            let overlap = a.0 < c.0 + c.2 && c.0 < a.0 + a.2 && a.1 < c.1 + c.3 && c.1 < a.1 + a.3;
            assert!(!overlap, "{:?} {:?}", a, c);
        }
    }
}

fn image(content_type: ContentType, width: u16, height: u16, top: i16, left: i16) -> GlyphImage {
    let channels = glyphon::atlas::num_channels(content_type) as usize;
    GlyphImage {
        content_type,
        top,
        left,
        width,
        height,
        data: (0..width as usize * height as usize * channels).map(|i| i as u8).collect(),
    }
}

#[test]
fn place_image_caches_nothing_as_skip() {
    let mut atlas = TextAtlas::new(ColorMode::Web, 64, 64);
    let d = place_image(&mut atlas, text_key(1), None).unwrap();
    assert_eq!(d.gpu_cache, GpuCacheStatus::SkipRasterization);
    assert_eq!((d.width, d.height, d.top, d.left), (0, 0, 0, 0));
    assert_eq!(atlas.get(&text_key(1)), Some(d));
    assert!(atlas.take_uploads().is_empty());
}

#[test]
fn place_image_keeps_size_and_bearings_of_empty_bitmap() {
    let mut atlas = TextAtlas::new(ColorMode::Web, 64, 64);
    let d = place_image(&mut atlas, text_key(2), Some(image(ContentType::Mask, 0, 7, 5, -2))).unwrap();
    assert_eq!(d.gpu_cache, GpuCacheStatus::SkipRasterization);
    assert_eq!((d.width, d.height, d.top, d.left), (0, 7, 5, -2));
    assert!(atlas.take_uploads().is_empty());
}

#[test]
fn place_image_places_bitmap_with_its_bytes() {
    let mut atlas = TextAtlas::new(ColorMode::Web, 64, 64);
    let img = image(ContentType::Color, 3, 2, 9, 1);
    let bytes = img.data.clone();
    let d = place_image(&mut atlas, text_key(3), Some(img)).unwrap();
    assert_eq!((d.width, d.height, d.top, d.left), (3, 2, 9, 1));
    let (x, y) = match d.gpu_cache {
        GpuCacheStatus::InAtlas { x, y, content_type } => {
            assert_eq!(content_type, ContentType::Color);
            (x, y)
        }
        GpuCacheStatus::SkipRasterization => panic!("bitmap should be resident"),
    };
    let uploads = atlas.take_uploads();
    assert_eq!(uploads.len(), 1);
    assert_eq!((uploads[0].x, uploads[0].y, uploads[0].width, uploads[0].height), (x, y, 3, 2));
    assert_eq!(uploads[0].content_type, ContentType::Color);
    assert_eq!(uploads[0].data, bytes);
}

#[test]
fn place_image_fails_only_when_its_atlas_is_full() {
    let mut atlas = TextAtlas::new(ColorMode::Web, 16, 32);
    assert!(place_image(&mut atlas, text_key(1), Some(image(ContentType::Mask, 32, 32, 0, 0))).is_ok());
    assert_eq!(atlas.size(ContentType::Mask), 32);
    // the color atlas is untouched and still has room
    assert!(place_image(&mut atlas, text_key(2), Some(image(ContentType::Color, 8, 8, 0, 0))).is_ok());
    let full = place_image(&mut atlas, text_key(3), Some(image(ContentType::Mask, 1, 1, 0, 0)));
    assert_eq!(full, Err(PrepareError::AtlasFull));
    assert!(atlas.get(&text_key(3)).is_none());
    assert!(atlas.get(&text_key(1)).is_some());
}

#[test]
fn custom_image_takes_key_size() {
    let ck = CustomGlyphCacheKey { glyph_id: 4, width: 5, height: 6, x_bin: SubpixelBin::Two, y_bin: SubpixelBin::Zero };
    let out = image(ContentType::Color, 1, 1, 3, 3);
    let bytes = out.data.clone();
    let img = custom_image(&ck, Some(out)).unwrap();
    assert_eq!((img.width, img.height, img.top, img.left), (5, 6, 0, 0));
    assert_eq!(img.content_type, ContentType::Color);
    assert_eq!(img.data, bytes);
    assert!(custom_image(&ck, None).is_none());
}

#[test]
fn failing_glyph_stops_the_batch() {
    // the second glyph does not fit; the third is never rasterized
    let mut atlas = TextAtlas::new(ColorMode::Web, 32, 32);
    let mut r = boxes(32);
    let glyphs: Vec<PlacedGlyph> = (0..3u16)
        .map(|id| PlacedGlyph { cache_key: text_key(id), x: 0, y: 40, color: None, metadata: 0 })
        .collect();
    let res = prepare_glyphs(&glyphs, 0, BLACK, 0, &full_bounds(), &mut atlas, &mut r);
    assert_eq!(res, Err(PrepareError::AtlasFull));
    assert_eq!(r.calls, 2);
    assert!(atlas.get(&text_key(0)).is_some());
    assert!(atlas.get(&text_key(1)).is_none());
    assert!(atlas.get(&text_key(2)).is_none());
    assert_eq!(atlas.take_uploads().len(), 1);
}

#[test]
fn repeated_key_in_one_batch_uploads_once() {
    let mut atlas = TextAtlas::new(ColorMode::Web, 64, 64);
    let mut r = boxes(4);
    let glyphs: Vec<PlacedGlyph> = (0..3)
        .map(|i| PlacedGlyph { cache_key: text_key(9), x: 10 * i, y: 40, color: None, metadata: 0 })
        .collect();
    let vs = prepare_glyphs(&glyphs, 0, BLACK, 0, &full_bounds(), &mut atlas, &mut r).unwrap();
    assert_eq!(vs.len(), 3);
    assert_eq!(r.calls, 1);
    assert_eq!(atlas.take_uploads().len(), 1);
}
