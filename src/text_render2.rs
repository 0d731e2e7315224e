//! Preparation of glyph vertices from positioned glyphs, and the renderer state.
use vstd::prelude::*;
use crate::atlas::{
    is_resident, resident_inside, ColorMode, ContentType, GlyphDetails, GpuCacheStatus, TextAtlas, Upload,
};
use crate::buffer::{buffer_write, next_capacity, next_copy_buffer_size, plan_buffer_write, BufferWrite};
use crate::cache_key::{CustomGlyphCacheKey, GlyphonCacheKey};
use crate::clip::{clamp_bounds, clamped_bounds, clip_glyph, clip_glyph_spec, ClipBounds, TextBounds};
use crate::packer::MAX_ATLAS_SIZE;
use crate::vertex::{
    all_vertices, flatten_vertices, stream_bytes, vertices_to_bytes, GlyphToRender, LayoutGlyphs,
    RenderableTextArea, VERTEX_SIZE,
};

verus! {

/// How glyph positions from the layout are turned into device pixels.
#[derive(Clone, Copy, Debug, PartialEq, Eq, Structural)]
pub enum PositionMapping {
    /// Sub-pixel offsets are bucketed into bins that are part of the cache key.
    Subpixel,
    /// Positions are rounded to whole pixels; every bin is zero.
    Pixel,
}

/// Why a preparation call failed.
#[derive(Clone, Copy, Debug, PartialEq, Eq, Structural)]
pub enum PrepareError {
    /// The atlas reached its largest size and still has no room for a new bitmap.
    AtlasFull,
}

/// A rasterized bitmap with its bearings.
#[derive(Clone, Debug)]
pub struct GlyphImage {
    pub content_type: ContentType,
    pub top: i16,
    pub left: i16,
    pub width: u16,
    pub height: u16,
    pub data: Vec<u8>,
}

/// Produces bitmaps for glyphs that are not cached yet.
pub trait RasterizeGlyph {
    /// The bitmap of a glyph at the scale whose `f32` bits are `scale_bits`, or
    /// `None` when the glyph has nothing to draw. For a custom glyph only the
    /// content type and the bytes are used; its size is the one of its key.
    fn rasterize(&mut self, key: &GlyphonCacheKey, scale_bits: u32) -> Option<GlyphImage>;
}

/// Index of a content type in the vertex format.
pub open spec fn content_type_id(ct: ContentType) -> u16 {
    match ct {
        ContentType::Color => 0,
        ContentType::Mask => 1,
    }
}

/// Color glyphs are converted to linear space in accurate mode; nothing else is.
pub open spec fn conversion_flag(ct: ContentType, mode: ColorMode) -> u16 {
    if ct == ContentType::Color && mode == ColorMode::Accurate { 1 } else { 0 }
}

/// The vertex of a glyph with cached details `d`, at pen position `(x, y)` on the
/// line whose baseline is at `line_y`, clipped against `b`; `None` when it has
/// nothing to draw or lies wholly outside the bounds.
pub open spec fn glyph_vertex(
    d: GlyphDetails,
    x: i32,
    y: i32,
    line_y: i32,
    color: u32,
    depth_bits: u32,
    b: ClipBounds,
    mode: ColorMode,
) -> Option<GlyphToRender> {
    match d.gpu_cache {
        GpuCacheStatus::SkipRasterization => None,
        GpuCacheStatus::InAtlas { x: ax, y: ay, content_type } => {
            match clip_glyph_spec(
                x + d.left,
                line_y + y - d.top,
                d.width as int,
                d.height as int,
                ax as int,
                ay as int,
                b,
            ) {
                Some(c) => Some(
                    GlyphToRender {
                        pos_x: c.x,
                        pos_y: c.y,
                        dim_x: c.width,
                        dim_y: c.height,
                        uv_x: c.atlas_x,
                        uv_y: c.atlas_y,
                        color,
                        content_type: content_type_id(content_type),
                        color_conversion: conversion_flag(content_type, mode),
                        depth_bits,
                    },
                ),
                None => None,
            }
        },
    }
}

/// Computes the vertex of a glyph from its cached details, see `glyph_vertex`.
pub fn glyph_to_render(
    d: &GlyphDetails,
    x: i32,
    y: i32,
    line_y: i32,
    color: u32,
    depth_bits: u32,
    b: &ClipBounds,
    mode: ColorMode,
) -> (r: Option<GlyphToRender>)
    requires
        resident_inside(*d, MAX_ATLAS_SIZE as int),
    ensures
        r == glyph_vertex(*d, x, y, line_y, color, depth_bits, *b, mode),
{
    match d.gpu_cache {
        GpuCacheStatus::SkipRasterization => None,
        GpuCacheStatus::InAtlas { x: ax, y: ay, content_type } => {
            let gx: i64 = x as i64 + d.left as i64;
            let gy: i64 = line_y as i64 + y as i64 - d.top as i64;
            match clip_glyph(gx, gy, d.width, d.height, ax, ay, b) {
                Some(c) => {
                    let ct_id: u16 = match content_type {
                        ContentType::Color => 0,
                        ContentType::Mask => 1,
                    };
                    let conv: u16 = match (content_type, mode) {
                        (ContentType::Color, ColorMode::Accurate) => 1,
                        _ => 0,
                    };
                    Some(
                        GlyphToRender {
                            pos_x: c.x,
                            pos_y: c.y,
                            dim_x: c.width,
                            dim_y: c.height,
                            uv_x: c.atlas_x,
                            uv_y: c.atlas_y,
                            color,
                            content_type: ct_id,
                            color_conversion: conv,
                            depth_bits,
                        },
                    )
                },
                None => None,
            }
        },
    }
}

/// A rasterization result that has nothing to place: none, or an empty bitmap.
pub open spec fn image_empty(image: Option<GlyphImage>) -> bool {
    match image {
        None => true,
        Some(i) => i.width == 0 || i.height == 0,
    }
}

/// The details cached for a glyph whose rasterization has nothing to place.
pub open spec fn skip_details(image: Option<GlyphImage>) -> GlyphDetails {
    match image {
        None => GlyphDetails {
            width: 0,
            height: 0,
            gpu_cache: GpuCacheStatus::SkipRasterization,
            atlas_id: None,
            top: 0,
            left: 0,
        },
        Some(i) => GlyphDetails {
            width: i.width,
            height: i.height,
            gpu_cache: GpuCacheStatus::SkipRasterization,
            atlas_id: None,
            top: i.top,
            left: i.left,
        },
    }
}

/// The bitmap of a custom glyph: the content type and bytes the callback gave, the
/// size of the key, no bearings.
pub fn custom_image(ck: &CustomGlyphCacheKey, out: Option<GlyphImage>) -> (r: Option<GlyphImage>)
    ensures
        out is None ==> r is None,
        out matches Some(o) ==> r matches Some(i) && {
            &&& i.content_type == o.content_type
            &&& i.top == 0
            &&& i.left == 0
            &&& i.width == ck.width
            &&& i.height == ck.height
            &&& i.data@ == o.data@
        },
{
    match out {
        Some(o) => Some(
            GlyphImage { content_type: o.content_type, top: 0, left: 0, width: ck.width, height: ck.height, data: o.data },
        ),
        None => None,
    }
}

/// Caches a freshly rasterized glyph. Nothing to place (no bitmap, or an empty one)
/// is cached as skipped with the bitmap's size and bearings. A bitmap is placed in
/// the atlas of its content type, growing it as needed, with its size and bearings,
/// and its bytes are queued for upload at the place found. It fails exactly when
/// that atlas is at its largest size and has no room for the bitmap; no entry and
/// no upload is added then.
pub fn place_image(atlas: &mut TextAtlas, cache_key: GlyphonCacheKey, image: Option<GlyphImage>) -> (r: Result<GlyphDetails, PrepareError>)
    requires
        old(atlas).wf(),
        old(atlas).cached(cache_key).is_none(),
    ensures
        final(atlas).wf(),
        final(atlas).color_mode_spec() == old(atlas).color_mode_spec(),
        forall|c: ContentType| #[trigger] final(atlas).inner(c).max_size_spec() == old(atlas).inner(c).max_size_spec(),
        r matches Ok(d) ==> {
            &&& final(atlas).cached(cache_key) == Some(d)
            &&& forall|k: GlyphonCacheKey| k != cache_key ==> #[trigger] final(atlas).cached(k) == old(atlas).cached(k)
        },
        r is Err ==> {
            &&& r == Err::<GlyphDetails, PrepareError>(PrepareError::AtlasFull)
            &&& forall|k: GlyphonCacheKey| #[trigger] final(atlas).cached(k) == old(atlas).cached(k)
            &&& final(atlas).pending_uploads() == old(atlas).pending_uploads()
        },
        image_empty(image) ==> {
            &&& r == Ok::<GlyphDetails, PrepareError>(skip_details(image))
            &&& final(atlas).pending_uploads() == old(atlas).pending_uploads()
        },
        !image_empty(image) ==> {
            let img = image.unwrap();
            let ct = img.content_type;
            &&& old(atlas).inner(ct).fits(img.width as int, img.height as int) ==> r is Ok
            &&& (old(atlas).inner(ct).size_spec() == old(atlas).inner(ct).max_size_spec()
                && !old(atlas).inner(ct).fits(img.width as int, img.height as int)) ==> r is Err
            &&& r is Err ==> {
                &&& final(atlas).inner(ct).size_spec() == final(atlas).inner(ct).max_size_spec()
                &&& !final(atlas).inner(ct).fits(img.width as int, img.height as int)
            }
            &&& r matches Ok(d) ==> {
                &&& d.width == img.width
                &&& d.height == img.height
                &&& d.top == img.top
                &&& d.left == img.left
                &&& d.gpu_cache matches GpuCacheStatus::InAtlas { x, y, content_type } && {
                    let u = final(atlas).pending_uploads().last();
                    &&& content_type == ct
                    &&& final(atlas).pending_uploads().len() == old(atlas).pending_uploads().len() + 1
                    &&& final(atlas).pending_uploads().drop_last() == old(atlas).pending_uploads()
                    &&& u.content_type == ct
                    &&& u.x == x
                    &&& u.y == y
                    &&& u.width == img.width
                    &&& u.height == img.height
                    &&& u.data@ == img.data@
                }
            }
        },
{
    match image {
        None => {
            let d = GlyphDetails {
                width: 0,
                height: 0,
                gpu_cache: GpuCacheStatus::SkipRasterization,
                atlas_id: None,
                top: 0,
                left: 0,
            };
            atlas.insert(ContentType::Color, cache_key, d);
            Ok(d)
        },
        Some(img) => {
            if img.width > 0 && img.height > 0 {
                let ct = img.content_type;
                let ghost full_at_start = old(atlas).inner(ct).size_spec() == old(atlas).inner(ct).max_size_spec()
                    && !old(atlas).inner(ct).fits(img.width as int, img.height as int);
                let mut alloc = atlas.try_allocate(ct, img.width, img.height);
                proof {
                    atlas.lemma_sizes();
                }
                while alloc.is_none()
                    invariant
                        atlas.wf(),
                        image == Some(img),
                        img.width > 0,
                        img.height > 0,
                        old(atlas).cached(cache_key).is_none(),
                        0 < atlas.inner(ct).size_spec() <= atlas.inner(ct).max_size_spec(),
                        atlas.color_mode_spec() == old(atlas).color_mode_spec(),
                        atlas.pending_uploads() == old(atlas).pending_uploads(),
                        forall|k: GlyphonCacheKey| #[trigger] atlas.cached(k) == old(atlas).cached(k),
                        forall|c: ContentType| #[trigger] atlas.inner(c).max_size_spec() == old(atlas).inner(c).max_size_spec(),
                        alloc is None ==> !atlas.inner(ct).fits(img.width as int, img.height as int),
                        alloc is None && full_at_start ==> *atlas == *old(atlas),
                        full_at_start ==> alloc is None,
                        full_at_start == (old(atlas).inner(ct).size_spec() == old(atlas).inner(ct).max_size_spec()
                            && !old(atlas).inner(ct).fits(img.width as int, img.height as int)),
                        ct == img.content_type,
                        old(atlas).inner(ct).fits(img.width as int, img.height as int) ==> alloc is Some,
                        alloc matches Some(rect) ==> {
                            &&& atlas.inner(ct).last_unused()
                            &&& atlas.inner(ct).allocations().len() > 0
                            &&& atlas.inner(ct).allocations().last() == rect
                            &&& rect.width == img.width
                            &&& rect.height == img.height
                            &&& rect.x + rect.width <= atlas.inner(ct).size_spec()
                            &&& rect.y + rect.height <= atlas.inner(ct).size_spec()
                            &&& rect.x + rect.width <= MAX_ATLAS_SIZE
                            &&& rect.y + rect.height <= MAX_ATLAS_SIZE
                        },
                    decreases atlas.inner(ct).max_size_spec() - atlas.inner(ct).size_spec(),
                {
                    let ghost before = *atlas;
                    let grown = atlas.grow(ct);
                    proof {
                        assert forall|c: ContentType| #[trigger] atlas.inner(c).max_size_spec() == old(atlas).inner(c).max_size_spec() by {
                            assert(before.inner(c).max_size_spec() == old(atlas).inner(c).max_size_spec());
                            if c != ct {
                                assert(atlas.inner(c) == before.inner(c));
                            }
                        }
                        assert forall|k: GlyphonCacheKey| #[trigger] atlas.cached(k) == old(atlas).cached(k) by {
                            assert(before.cached(k) == old(atlas).cached(k));
                        }
                        atlas.lemma_sizes();
                    }
                    if !grown {
                        return Err(PrepareError::AtlasFull);
                    }
                    proof {
                        assert(atlas.inner(ct).size_spec() > before.inner(ct).size_spec());
                    }
                    let ghost before2 = *atlas;
                    alloc = atlas.try_allocate(ct, img.width, img.height);
                    proof {
                        assert forall|c: ContentType| #[trigger] atlas.inner(c).max_size_spec() == old(atlas).inner(c).max_size_spec() by {
                            assert(before2.inner(c).max_size_spec() == old(atlas).inner(c).max_size_spec());
                            if c != ct {
                                assert(atlas.inner(c) == before2.inner(c));
                            }
                        }
                        assert forall|k: GlyphonCacheKey| #[trigger] atlas.cached(k) == old(atlas).cached(k) by {
                            assert(before2.cached(k) == old(atlas).cached(k));
                        }
                    }
                }
                let rect = alloc.unwrap();
                proof {
                    atlas.lemma_sizes();
                    assert(atlas.cached(cache_key) == old(atlas).cached(cache_key));
                }
                let d = GlyphDetails {
                    width: img.width,
                    height: img.height,
                    gpu_cache: GpuCacheStatus::InAtlas { x: rect.x as u16, y: rect.y as u16, content_type: ct },
                    atlas_id: Some(atlas.allocation_count(ct) - 1),
                    top: img.top,
                    left: img.left,
                };
                let ghost data = img.data@;
                let upload = Upload {
                    content_type: ct,
                    x: rect.x as u16,
                    y: rect.y as u16,
                    width: img.width,
                    height: img.height,
                    data: img.data,
                };
                let ghost pre_push = *atlas;
                atlas.push_upload(upload);
                let ghost pre = *atlas;
                proof {
                    assert(pre.cached(cache_key) == pre_push.cached(cache_key));
                    assert(pre.inner(ct) == pre_push.inner(ct));
                }
                atlas.insert(ct, cache_key, d);
                proof {
                    assert forall|k: GlyphonCacheKey| k != cache_key implies #[trigger] atlas.cached(k) == old(atlas).cached(k) by {
                        assert(pre.cached(k) == pre_push.cached(k));
                        assert(pre_push.cached(k) == old(atlas).cached(k));
                    }
                    assert forall|c: ContentType| #[trigger] atlas.inner(c).max_size_spec() == old(atlas).inner(c).max_size_spec() by {
                        assert(pre.inner(c) == pre_push.inner(c));
                        assert(pre_push.inner(c).max_size_spec() == old(atlas).inner(c).max_size_spec());
                    }
                    assert(atlas.pending_uploads().drop_last() =~= old(atlas).pending_uploads());
                }
                Ok(d)
            } else {
                let d = GlyphDetails {
                    width: img.width,
                    height: img.height,
                    gpu_cache: GpuCacheStatus::SkipRasterization,
                    atlas_id: None,
                    top: img.top,
                    left: img.left,
                };
                atlas.insert(ContentType::Color, cache_key, d);
                Ok(d)
            }
        },
    }
}

/// Prepares one glyph: resolves its cache entry, rasterizing and placing its bitmap
/// on a miss (see `place_image`), and computes its clipped vertex.
///
/// A cached glyph changes nothing: neither the atlas nor the rasterizer is touched,
/// and the vertex comes from the cached details. A glyph seen for the first time is
/// cached and the vertex comes from its new details; a custom glyph of zero size is
/// cached as skipped without calling the rasterizer. The call fails only when the
/// atlas of the bitmap's content type is at its largest size without room for it;
/// the atlas then gains no entry and no upload.
pub fn prepare_glyph<R: RasterizeGlyph>(
    x: i32,
    y: i32,
    line_y: i32,
    color: u32,
    depth_bits: u32,
    cache_key: GlyphonCacheKey,
    atlas: &mut TextAtlas,
    scale_bits: u32,
    bounds: &ClipBounds,
    rasterizer: &mut R,
) -> (r: Result<Option<GlyphToRender>, PrepareError>)
    requires
        old(atlas).wf(),
    ensures
        final(atlas).wf(),
        final(atlas).color_mode_spec() == old(atlas).color_mode_spec(),
        forall|k: GlyphonCacheKey|
            (#[trigger] old(atlas).cached(k)).is_some() ==> final(atlas).cached(k) == old(
                atlas,
            ).cached(k),
        forall|c: ContentType| #[trigger] final(atlas).inner(c).max_size_spec() == old(atlas).inner(c).max_size_spec(),
        old(atlas).cached(cache_key) matches Some(d) ==> {
            &&& r == Ok::<Option<GlyphToRender>, PrepareError>(
                glyph_vertex(d, x, y, line_y, color, depth_bits, *bounds, old(atlas).color_mode_spec()),
            )
            &&& *final(atlas) == *old(atlas)
            &&& *final(rasterizer) == *old(rasterizer)
        },
        old(atlas).cached(cache_key).is_none() ==> match r {
            Ok(v) => {
                &&& final(atlas).cached(cache_key) is Some
                &&& v == glyph_vertex(
                    final(atlas).cached(cache_key).unwrap(),
                    x,
                    y,
                    line_y,
                    color,
                    depth_bits,
                    *bounds,
                    old(atlas).color_mode_spec(),
                )
                &&& forall|k: GlyphonCacheKey|
                    k != cache_key ==> #[trigger] final(atlas).cached(k) == old(atlas).cached(k)
                &&& match final(atlas).cached(cache_key).unwrap().gpu_cache {
                    GpuCacheStatus::SkipRasterization => final(atlas).pending_uploads()
                        == old(atlas).pending_uploads(),
                    GpuCacheStatus::InAtlas { x: ax, y: ay, content_type } => {
                        &&& final(atlas).pending_uploads().len() == old(atlas).pending_uploads().len() + 1
                        &&& final(atlas).pending_uploads().drop_last() == old(atlas).pending_uploads()
                        &&& final(atlas).pending_uploads().last().x == ax
                        &&& final(atlas).pending_uploads().last().y == ay
                        &&& final(atlas).pending_uploads().last().width == final(atlas).cached(cache_key).unwrap().width
                        &&& final(atlas).pending_uploads().last().height == final(atlas).cached(cache_key).unwrap().height
                        &&& final(atlas).pending_uploads().last().content_type == content_type
                        &&& final(atlas).cached(cache_key).unwrap().width > 0
                        &&& final(atlas).cached(cache_key).unwrap().height > 0
                    },
                }
                &&& cache_key matches GlyphonCacheKey::Custom(ck) ==> {
                    let d = final(atlas).cached(cache_key).unwrap();
                    &&& d.top == 0
                    &&& d.left == 0
                    &&& (ck.width == 0 || ck.height == 0) ==> {
                        &&& d == skip_details(None)
                        &&& *final(rasterizer) == *old(rasterizer)
                    }
                    &&& (ck.width > 0 && ck.height > 0) ==> {
                        ||| d == skip_details(None)
                        ||| (is_resident(d) && d.width == ck.width && d.height == ck.height)
                    }
                }
            },
            Err(e) => {
                &&& e == PrepareError::AtlasFull
                &&& forall|k: GlyphonCacheKey| #[trigger] final(atlas).cached(k) == old(atlas).cached(k)
                &&& final(atlas).pending_uploads() == old(atlas).pending_uploads()
                &&& exists|c: ContentType, w: int, h: int| #[trigger] final_full_witness(*final(atlas), c, w, h)
            },
        },
        cache_key matches GlyphonCacheKey::Custom(ck) && (ck.width == 0 || ck.height == 0) ==> r is Ok,
{
    let mode = atlas.color_mode();
    let details = match atlas.get(&cache_key) {
        Some(d) => d,
        None => {
            let image: Option<GlyphImage> = match cache_key {
                GlyphonCacheKey::Custom(ck) => {
                    if ck.width == 0 || ck.height == 0 {
                        None
                    } else {
                        custom_image(&ck, rasterizer.rasterize(&cache_key, scale_bits))
                    }
                },
                GlyphonCacheKey::Text(_) => rasterizer.rasterize(&cache_key, scale_bits),
            };
            let ghost img = image;
            match place_image(atlas, cache_key, image) {
                Ok(d) => {
                    proof {
                        atlas.lemma_resident_inside();
                        assert(atlas.cached(cache_key) == Some(d));
                    }
                    d
                },
                Err(e) => {
                    proof {
                        let i = img.unwrap();
                        assert(final_full_witness(*atlas, i.content_type, i.width as int, i.height as int));
                    }
                    return Err(e);
                },
            }
        },
    };
    proof {
        assert(resident_inside(details, MAX_ATLAS_SIZE as int));
    }
    Ok(glyph_to_render(&details, x, y, line_y, color, depth_bits, bounds, mode))
}

/// The atlas of content type `c` is at its largest size without room for a
/// `w` x `h` bitmap.
pub open spec fn final_full_witness(a: TextAtlas, c: ContentType, w: int, h: int) -> bool {
    w > 0 && h > 0 && a.inner(c).size_spec() == a.inner(c).max_size_spec() && !a.inner(c).fits(w, h)
}

/// A glyph at a position in device pixels, ready for preparation.
#[derive(Clone, Copy, Debug, PartialEq, Eq, Structural)]
pub struct PlacedGlyph {
    pub cache_key: GlyphonCacheKey,
    pub x: i32,
    pub y: i32,
    /// Overrides the text area's default color.
    pub color: Option<u32>,
    pub metadata: usize,
}

/// One laid-out line of a text area.
#[derive(Clone, Debug)]
pub struct LayoutRun {
    /// Baseline of the line, in device pixels (scaled and rounded).
    pub line_y: i32,
    /// The line's extent, kept with its vertices.
    pub bounds: TextBounds,
    pub glyphs: Vec<PlacedGlyph>,
}

/// One text area to prepare, with its glyphs already placed in device pixels.
#[derive(Clone, Debug)]
pub struct TextArea {
    pub bounds: TextBounds,
    pub default_color: u32,
    /// Bits of the `f32` scale factor, handed to the rasterizer.
    pub scale_bits: u32,
    pub custom_glyphs: Vec<PlacedGlyph>,
    pub runs: Vec<LayoutRun>,
}

/// The depth of every glyph: `0.0`.
pub fn zero_depth(metadata: usize) -> (r: u32)
    ensures
        r == 0,
{
    0
}

pub open spec fn color_of(g: PlacedGlyph, default_color: u32) -> u32 {
    match g.color {
        Some(c) => c,
        None => default_color,
    }
}

/// The vertex of a placed glyph whose details `atlas` caches.
pub open spec fn placed_vertex(
    g: PlacedGlyph,
    line_y: i32,
    default_color: u32,
    b: ClipBounds,
    atlas: TextAtlas,
) -> Option<GlyphToRender> {
    glyph_vertex(
        atlas.cached(g.cache_key).unwrap(),
        g.x,
        g.y,
        line_y,
        color_of(g, default_color),
        0,
        b,
        atlas.color_mode_spec(),
    )
}

/// The vertices of placed glyphs, in order, leaving out those with none.
pub open spec fn placed_vertices(
    gs: Seq<PlacedGlyph>,
    line_y: i32,
    default_color: u32,
    b: ClipBounds,
    atlas: TextAtlas,
) -> Seq<GlyphToRender>
    decreases gs.len(),
{
    if gs.len() == 0 {
        Seq::empty()
    } else {
        let prev = placed_vertices(gs.drop_last(), line_y, default_color, b, atlas);
        match placed_vertex(gs.last(), line_y, default_color, b, atlas) {
            Some(v) => prev.push(v),
            None => prev,
        }
    }
}

/// Every glyph's details are cached in `atlas`.
pub open spec fn all_cached(gs: Seq<PlacedGlyph>, atlas: TextAtlas) -> bool {
    forall|i: int| 0 <= i < gs.len() ==> (#[trigger] atlas.cached(gs[i].cache_key)).is_some()
}

/// `a2` has the color mode of `a1` and every entry that `a1` caches.
pub open spec fn keeps(a1: TextAtlas, a2: TextAtlas) -> bool {
    &&& a1.color_mode_spec() == a2.color_mode_spec()
    &&& forall|k: GlyphonCacheKey| (#[trigger] a1.cached(k)).is_some() ==> a2.cached(k) == a1.cached(k)
}

proof fn lemma_placed_stable(
    gs: Seq<PlacedGlyph>,
    line_y: i32,
    default_color: u32,
    b: ClipBounds,
    a1: TextAtlas,
    a2: TextAtlas,
)
    requires
        all_cached(gs, a1),
        keeps(a1, a2),
    ensures
        all_cached(gs, a2),
        placed_vertices(gs, line_y, default_color, b, a1) == placed_vertices(gs, line_y, default_color, b, a2),
    decreases gs.len(),
{
    assert forall|i: int| 0 <= i < gs.len() implies (#[trigger] a2.cached(gs[i].cache_key)).is_some() by {
        assert(a1.cached(gs[i].cache_key).is_some());
    }
    if gs.len() > 0 {
        let init = gs.drop_last();
        assert forall|i: int| 0 <= i < init.len() implies (#[trigger] a1.cached(init[i].cache_key)).is_some() by {
            assert(init[i] == gs[i]);
        }
        lemma_placed_stable(init, line_y, default_color, b, a1, a2);
        assert(a1.cached(gs[gs.len() - 1].cache_key).is_some());
    }
}

/// The upload `u` copies the bitmap of the resident entry `od`.
pub open spec fn upload_for(u: Upload, od: Option<GlyphDetails>) -> bool {
    &&& od is Some
    &&& od.unwrap().gpu_cache matches GpuCacheStatus::InAtlas { x, y, content_type } && {
        &&& u.x == x
        &&& u.y == y
        &&& u.content_type == content_type
        &&& u.width == od.unwrap().width
        &&& u.height == od.unwrap().height
    }
}

/// `us` extends `before`, and every upload past it copies the bitmap of one of the
/// first `n` glyphs of `gs`, as `a` caches it.
pub open spec fn uploads_from(
    us: Seq<Upload>,
    before: Seq<Upload>,
    gs: Seq<PlacedGlyph>,
    n: int,
    a: TextAtlas,
) -> bool {
    &&& before.len() <= us.len()
    &&& us.subrange(0, before.len() as int) == before
    &&& forall|p: int| before.len() <= p < us.len() ==> upload_of_some(#[trigger] us[p], gs, n, a)
}

/// `u` copies the bitmap of one of the first `n` glyphs of `gs`, as `a` caches it.
pub open spec fn upload_of_some(u: Upload, gs: Seq<PlacedGlyph>, n: int, a: TextAtlas) -> bool {
    exists|j: int| 0 <= j < n && #[trigger] upload_for(u, a.cached(gs[j].cache_key))
}

/// Two uploads that copy to the same place of the same atlas.
pub open spec fn same_place(u: Upload, v: Upload) -> bool {
    u.content_type == v.content_type && u.x == v.x && u.y == v.y
}

/// `u` copies the bitmap of a key that `a` caches and `a0` did not.
pub open spec fn fresh_upload(u: Upload, a0: TextAtlas, a: TextAtlas) -> bool {
    exists|k: GlyphonCacheKey| a0.cached(k).is_none() && #[trigger] upload_for(u, a.cached(k))
}

/// The uploads of `us` past `before` each copy a key that `a0` did not cache, and
/// no two of them copy to the same place: one upload per new key.
pub open spec fn one_upload_per_key(us: Seq<Upload>, before: Seq<Upload>, a0: TextAtlas, a: TextAtlas) -> bool {
    &&& forall|p: int| before.len() <= p < us.len() ==> fresh_upload(#[trigger] us[p], a0, a)
    &&& forall|p: int, q: int|
        before.len() <= p < q < us.len() ==> !same_place(#[trigger] us[p], #[trigger] us[q])
}

/// Every key that `a1` caches and `a0` does not is the key of one of the first `n`
/// glyphs of `gs`.
pub open spec fn new_keys_from(a0: TextAtlas, a1: TextAtlas, gs: Seq<PlacedGlyph>, n: int) -> bool {
    forall|k: GlyphonCacheKey|
        (#[trigger] a1.cached(k)).is_some() && a0.cached(k).is_none() ==> exists|j: int|
            0 <= j < n && (#[trigger] gs[j]).cache_key == k
}

/// Prepares the glyphs of one line (or the custom glyphs of a text area), in order.
/// On success the vertices are those of `placed_vertices` over the atlas as it is
/// afterwards, which caches every glyph. It succeeds whenever every glyph was
/// cached already. A failing glyph stops the call: its key stays uncached, only
/// glyphs before it were cached, and its atlas is full. Every upload queued copies
/// the bitmap of one of the glyphs prepared that was not cached before, and no two
/// uploads copy to the same place, so a key met twice is uploaded once.
pub fn prepare_glyphs<R: RasterizeGlyph>(
    glyphs: &Vec<PlacedGlyph>,
    line_y: i32,
    default_color: u32,
    scale_bits: u32,
    bounds: &ClipBounds,
    atlas: &mut TextAtlas,
    rasterizer: &mut R,
) -> (r: Result<Vec<GlyphToRender>, PrepareError>)
    requires
        old(atlas).wf(),
    ensures
        final(atlas).wf(),
        keeps(*old(atlas), *final(atlas)),
        forall|c: ContentType| #[trigger] final(atlas).inner(c).max_size_spec() == old(atlas).inner(c).max_size_spec(),
        all_cached(glyphs@, *old(atlas)) ==> r is Ok && *final(atlas) == *old(atlas),
        uploads_from(final(atlas).pending_uploads(), old(atlas).pending_uploads(), glyphs@, glyphs@.len() as int, *final(atlas)),
        one_upload_per_key(final(atlas).pending_uploads(), old(atlas).pending_uploads(), *old(atlas), *final(atlas)),
        r matches Ok(vs) ==> {
            &&& vs@ == placed_vertices(glyphs@, line_y, default_color, *bounds, *final(atlas))
            &&& all_cached(glyphs@, *final(atlas))
            &&& new_keys_from(*old(atlas), *final(atlas), glyphs@, glyphs@.len() as int)
        },
        r matches Err(e) ==> {
            &&& e == PrepareError::AtlasFull
            &&& exists|c: ContentType, w: int, h: int| #[trigger] final_full_witness(*final(atlas), c, w, h)
            &&& exists|i: int|
                0 <= i < glyphs@.len() && (#[trigger] final(atlas).cached(glyphs@[i].cache_key)).is_none()
                    && new_keys_from(*old(atlas), *final(atlas), glyphs@, i)
                    && uploads_from(final(atlas).pending_uploads(), old(atlas).pending_uploads(), glyphs@, i, *final(atlas))
        },
{
    let mut out: Vec<GlyphToRender> = Vec::new();
    let mut i: usize = 0;
    proof {
        assert(atlas.pending_uploads().subrange(0, atlas.pending_uploads().len() as int) =~= atlas.pending_uploads());
    }
    while i < glyphs.len()
        invariant
            atlas.wf(),
            i <= glyphs@.len(),
            keeps(*old(atlas), *atlas),
            forall|c: ContentType| #[trigger] atlas.inner(c).max_size_spec() == old(atlas).inner(c).max_size_spec(),
            out@ == placed_vertices(glyphs@.take(i as int), line_y, default_color, *bounds, *atlas),
            all_cached(glyphs@.take(i as int), *atlas),
            all_cached(glyphs@, *old(atlas)) ==> *atlas == *old(atlas),
            new_keys_from(*old(atlas), *atlas, glyphs@, i as int),
            uploads_from(atlas.pending_uploads(), old(atlas).pending_uploads(), glyphs@, i as int, *atlas),
            one_upload_per_key(atlas.pending_uploads(), old(atlas).pending_uploads(), *old(atlas), *atlas),
        decreases glyphs@.len() - i,
    {
        let g = glyphs[i];
        let color = match g.color {
            Some(c) => c,
            None => default_color,
        };
        let ghost a0 = *atlas;
        let res = prepare_glyph(
            g.x,
            g.y,
            line_y,
            color,
            zero_depth(g.metadata),
            g.cache_key,
            atlas,
            scale_bits,
            bounds,
            rasterizer,
        );
        proof {
            assert(keeps(a0, *atlas));
            assert forall|k: GlyphonCacheKey| (#[trigger] old(atlas).cached(k)).is_some() implies atlas.cached(k) == old(atlas).cached(k) by {
                assert(a0.cached(k) == old(atlas).cached(k));
            }
            assert forall|c: ContentType| #[trigger] atlas.inner(c).max_size_spec() == old(atlas).inner(c).max_size_spec() by {
                assert(a0.inner(c).max_size_spec() == old(atlas).inner(c).max_size_spec());
            }
            if all_cached(glyphs@, *old(atlas)) {
                assert(old(atlas).cached(glyphs@[i as int].cache_key).is_some());
            }
            // uploads past the earlier ones still match their glyphs
            let us = atlas.pending_uploads();
            let before = old(atlas).pending_uploads();
            let u0 = a0.pending_uploads();
            assert(u0.subrange(0, before.len() as int) == before);
            if us.len() > u0.len() {
                assert(us.drop_last() == u0);
                assert(us.subrange(0, before.len() as int) =~= u0.subrange(0, before.len() as int));
            } else {
                assert(us == u0);
            }
            assert forall|p: int| before.len() <= p < us.len() implies upload_of_some(
                #[trigger] us[p],
                glyphs@,
                i + 1,
                *atlas,
            ) by {
                if p < u0.len() {
                    assert(upload_of_some(u0[p], glyphs@, i as int, a0));
                    let j = choose|j: int| 0 <= j < i && #[trigger] upload_for(u0[p], a0.cached(glyphs@[j].cache_key));
                    assert(us[p] == u0[p]);
                    assert(atlas.cached(glyphs@[j].cache_key) == a0.cached(glyphs@[j].cache_key));
                    assert(upload_for(us[p], atlas.cached(glyphs@[j].cache_key)));
                } else {
                    assert(glyphs@[i as int] == g);
                    assert(upload_for(us[p], atlas.cached(glyphs@[i as int].cache_key)));
                }
                assert(upload_of_some(us[p], glyphs@, i + 1, *atlas));
            }
            // one upload per new key
            assert forall|p: int| before.len() <= p < us.len() implies fresh_upload(#[trigger] us[p], *old(atlas), *atlas) by {
                if p < u0.len() {
                    assert(fresh_upload(u0[p], *old(atlas), a0));
                    let k = choose|k: GlyphonCacheKey| old(atlas).cached(k).is_none() && #[trigger] upload_for(u0[p], a0.cached(k));
                    assert(us[p] == u0[p]);
                    assert(atlas.cached(k) == a0.cached(k));
                    assert(upload_for(us[p], atlas.cached(k)));
                } else {
                    let k = g.cache_key;
                    if old(atlas).cached(k).is_some() {
                        assert(a0.cached(k) == old(atlas).cached(k));
                    }
                    assert(upload_for(us[p], atlas.cached(k)));
                }
            }
            assert forall|p: int, q: int| before.len() <= p < q < us.len() implies !same_place(#[trigger] us[p], #[trigger] us[q]) by {
                if q < u0.len() {
                    assert(us[p] == u0[p] && us[q] == u0[q]);
                } else {
                    assert(us[p] == u0[p]);
                    assert(fresh_upload(u0[p], *old(atlas), a0));
                    let kp = choose|k: GlyphonCacheKey| old(atlas).cached(k).is_none() && #[trigger] upload_for(u0[p], a0.cached(k));
                    let k = g.cache_key;
                    assert(a0.cached(kp).is_some());
                    assert(a0.cached(k).is_none());
                    assert(atlas.cached(kp) == a0.cached(kp));
                    if same_place(us[p], us[q]) {
                        atlas.lemma_distinct_origins(kp, k);
                    }
                }
            }
            assert forall|k: GlyphonCacheKey|
                (#[trigger] atlas.cached(k)).is_some() && old(atlas).cached(k).is_none() implies exists|j: int|
                    0 <= j < i + 1 && (#[trigger] glyphs@[j]).cache_key == k by {
                if a0.cached(k).is_some() {
                    let j = choose|j: int| 0 <= j < i && (#[trigger] glyphs@[j]).cache_key == k;
                    assert(glyphs@[j].cache_key == k);
                } else {
                    assert(k == g.cache_key);
                    assert(glyphs@[i as int].cache_key == k);
                }
            }
        }
        match res {
            Err(e) => {
                proof {
                    assert(glyphs@[i as int] == g);
                    assert(atlas.cached(g.cache_key).is_none());
                    assert(new_keys_from(*old(atlas), *atlas, glyphs@, i as int));
                    assert forall|p: int| old(atlas).pending_uploads().len() <= p < atlas.pending_uploads().len() implies upload_of_some(
                        #[trigger] atlas.pending_uploads()[p],
                        glyphs@,
                        i as int,
                        *atlas,
                    ) by {
                        assert(upload_of_some(a0.pending_uploads()[p], glyphs@, i as int, a0));
                        let j = choose|j: int| 0 <= j < i && #[trigger] upload_for(a0.pending_uploads()[p], a0.cached(glyphs@[j].cache_key));
                        assert(atlas.cached(glyphs@[j].cache_key) == a0.cached(glyphs@[j].cache_key));
                        assert(upload_for(atlas.pending_uploads()[p], atlas.cached(glyphs@[j].cache_key)));
                    }
                    assert(uploads_from(atlas.pending_uploads(), old(atlas).pending_uploads(), glyphs@, i as int, *atlas));
                    assert(atlas.cached(glyphs@[i as int].cache_key).is_none());
                }
                return Err(e);
            },
            Ok(v) => {
                proof {
                    lemma_placed_stable(glyphs@.take(i as int), line_y, default_color, *bounds, a0, *atlas);
                    let next = glyphs@.take(i + 1);
                    assert(next.drop_last() =~= glyphs@.take(i as int));
                    assert(next.last() == g);
                    assert(atlas.cached(g.cache_key).is_some());
                    assert forall|j: int| 0 <= j < next.len() implies (#[trigger] atlas.cached(next[j].cache_key)).is_some() by {
                        if j < i {
                            assert(next[j] == glyphs@.take(i as int)[j]);
                        }
                    }
                }
                match v {
                    Some(vertex) => out.push(vertex),
                    None => {},
                }
            },
        }
        i = i + 1;
    }
    proof {
        assert(glyphs@.take(glyphs@.len() as int) =~= glyphs@);
    }
    Ok(out)
}

/// The glyphs of lines, in order.
pub open spec fn runs_glyphs(rs: Seq<LayoutRun>) -> Seq<PlacedGlyph>
    decreases rs.len(),
{
    if rs.len() == 0 {
        Seq::empty()
    } else {
        runs_glyphs(rs.drop_last()) + rs.last().glyphs@
    }
}

/// The glyphs of a text area in the order they are prepared: custom glyphs, then
/// the lines.
pub open spec fn area_glyphs(t: TextArea) -> Seq<PlacedGlyph> {
    t.custom_glyphs@ + runs_glyphs(t.runs@)
}

/// The glyphs of text areas in the order they are prepared.
pub open spec fn areas_glyphs(ts: Seq<TextArea>) -> Seq<PlacedGlyph>
    decreases ts.len(),
{
    if ts.len() == 0 {
        Seq::empty()
    } else {
        areas_glyphs(ts.drop_last()) + area_glyphs(ts.last())
    }
}

proof fn lemma_uploads_join(
    u0: Seq<Upload>,
    u1: Seq<Upload>,
    u2: Seq<Upload>,
    p: Seq<PlacedGlyph>,
    s: Seq<PlacedGlyph>,
    n: int,
    a1: TextAtlas,
    a2: TextAtlas,
)
    requires
        uploads_from(u1, u0, p, p.len() as int, a1),
        uploads_from(u2, u1, s, n, a2),
        keeps(a1, a2),
        0 <= n <= s.len(),
    ensures
        uploads_from(u2, u0, p + s, p.len() + n, a2),
{
    let g = p + s;
    assert(u2.subrange(0, u0.len() as int) =~= u2.subrange(0, u1.len() as int).subrange(0, u0.len() as int));
    assert forall|q: int| u0.len() <= q < u2.len() implies upload_of_some(#[trigger] u2[q], g, p.len() + n, a2) by {
        if q < u1.len() {
            assert(u2[q] == u2.subrange(0, u1.len() as int)[q]);
            assert(upload_of_some(u1[q], p, p.len() as int, a1));
            let j = choose|j: int| 0 <= j < p.len() && #[trigger] upload_for(u1[q], a1.cached(p[j].cache_key));
            assert(g[j] == p[j]);
            assert(a2.cached(p[j].cache_key) == a1.cached(p[j].cache_key));
            assert(upload_for(u2[q], a2.cached(g[j].cache_key)));
        } else {
            assert(upload_of_some(u2[q], s, n, a2));
            let j = choose|j: int| 0 <= j < n && #[trigger] upload_for(u2[q], a2.cached(s[j].cache_key));
            assert(g[p.len() + j] == s[j]);
            assert(upload_for(u2[q], a2.cached(g[p.len() + j].cache_key)));
        }
    }
}

proof fn lemma_one_upload_join(
    u0: Seq<Upload>,
    u1: Seq<Upload>,
    u2: Seq<Upload>,
    a0: TextAtlas,
    a1: TextAtlas,
    a2: TextAtlas,
)
    requires
        one_upload_per_key(u1, u0, a0, a1),
        one_upload_per_key(u2, u1, a1, a2),
        keeps(a0, a1),
        keeps(a1, a2),
        a2.wf(),
        u0.len() <= u1.len() <= u2.len(),
        u2.subrange(0, u1.len() as int) == u1,
    ensures
        one_upload_per_key(u2, u0, a0, a2),
{
    assert forall|p: int| u0.len() <= p < u2.len() implies fresh_upload(#[trigger] u2[p], a0, a2) by {
        if p < u1.len() {
            assert(u2[p] == u2.subrange(0, u1.len() as int)[p]);
            assert(fresh_upload(u1[p], a0, a1));
            let k = choose|k: GlyphonCacheKey| a0.cached(k).is_none() && #[trigger] upload_for(u1[p], a1.cached(k));
            assert(a2.cached(k) == a1.cached(k));
            assert(upload_for(u2[p], a2.cached(k)));
        } else {
            assert(fresh_upload(u2[p], a1, a2));
            let k = choose|k: GlyphonCacheKey| a1.cached(k).is_none() && #[trigger] upload_for(u2[p], a2.cached(k));
            if a0.cached(k).is_some() {
                assert(a1.cached(k) == a0.cached(k));
            }
            assert(upload_for(u2[p], a2.cached(k)));
        }
    }
    assert forall|p: int, q: int| u0.len() <= p < q < u2.len() implies !same_place(#[trigger] u2[p], #[trigger] u2[q]) by {
        if q < u1.len() {
            assert(u2[p] == u2.subrange(0, u1.len() as int)[p]);
            assert(u2[q] == u2.subrange(0, u1.len() as int)[q]);
        } else if p >= u1.len() {
        } else {
            assert(u2[p] == u2.subrange(0, u1.len() as int)[p]);
            assert(fresh_upload(u1[p], a0, a1));
            let kp = choose|k: GlyphonCacheKey| a0.cached(k).is_none() && #[trigger] upload_for(u1[p], a1.cached(k));
            assert(fresh_upload(u2[q], a1, a2));
            let kq = choose|k: GlyphonCacheKey| a1.cached(k).is_none() && #[trigger] upload_for(u2[q], a2.cached(k));
            assert(a1.cached(kp).is_some());
            assert(a2.cached(kp) == a1.cached(kp));
            if same_place(u2[p], u2[q]) {
                a2.lemma_distinct_origins(kp, kq);
            }
        }
    }
}

proof fn lemma_keys_join(
    a0: TextAtlas,
    a1: TextAtlas,
    a2: TextAtlas,
    p: Seq<PlacedGlyph>,
    s: Seq<PlacedGlyph>,
    n: int,
)
    requires
        new_keys_from(a0, a1, p, p.len() as int),
        new_keys_from(a1, a2, s, n),
        keeps(a1, a2),
        0 <= n <= s.len(),
    ensures
        new_keys_from(a0, a2, p + s, p.len() + n),
{
    let g = p + s;
    assert forall|k: GlyphonCacheKey| (#[trigger] a2.cached(k)).is_some() && a0.cached(k).is_none() implies exists|j: int|
        0 <= j < p.len() + n && (#[trigger] g[j]).cache_key == k by {
        if a1.cached(k).is_some() {
            let j = choose|j: int| 0 <= j < p.len() && (#[trigger] p[j]).cache_key == k;
            assert(g[j] == p[j]);
        } else {
            let j = choose|j: int| 0 <= j < n && (#[trigger] s[j]).cache_key == k;
            assert(g[p.len() + j] == s[j]);
        }
    }
}

proof fn lemma_all_cached_split(p: Seq<PlacedGlyph>, s: Seq<PlacedGlyph>, a: TextAtlas)
    requires
        all_cached(p + s, a),
    ensures
        all_cached(p, a),
        all_cached(s, a),
{
    assert forall|i: int| 0 <= i < p.len() implies (#[trigger] a.cached(p[i].cache_key)).is_some() by {
        assert((p + s)[i] == p[i]);
    }
    assert forall|i: int| 0 <= i < s.len() implies (#[trigger] a.cached(s[i].cache_key)).is_some() by {
        assert((p + s)[p.len() + i] == s[i]);
    }
}

proof fn lemma_nothing_new(a: TextAtlas, gs: Seq<PlacedGlyph>)
    ensures
        new_keys_from(a, a, gs, 0),
        uploads_from(a.pending_uploads(), a.pending_uploads(), gs, 0, a),
{
    assert(a.pending_uploads().subrange(0, a.pending_uploads().len() as int) =~= a.pending_uploads());
}

/// Preparation stopped at the `i`-th glyph of `gs`: its key is not cached, every
/// new key and every new upload comes from a glyph before it.
pub open spec fn stopped_at(a0: TextAtlas, a1: TextAtlas, gs: Seq<PlacedGlyph>, i: int) -> bool {
    &&& 0 <= i < gs.len()
    &&& a1.cached(gs[i].cache_key).is_none()
    &&& new_keys_from(a0, a1, gs, i)
    &&& uploads_from(a1.pending_uploads(), a0.pending_uploads(), gs, i, a1)
}

pub open spec fn is_prefix(p: Seq<PlacedGlyph>, g: Seq<PlacedGlyph>) -> bool {
    p.len() <= g.len() && forall|i: int| 0 <= i < p.len() ==> #[trigger] g[i] == p[i]
}

proof fn lemma_prefix_outcome(a0: TextAtlas, a1: TextAtlas, p: Seq<PlacedGlyph>, g: Seq<PlacedGlyph>, n: int)
    requires
        is_prefix(p, g),
        0 <= n <= p.len(),
    ensures
        new_keys_from(a0, a1, p, n) ==> new_keys_from(a0, a1, g, n),
        uploads_from(a1.pending_uploads(), a0.pending_uploads(), p, n, a1) ==> uploads_from(
            a1.pending_uploads(),
            a0.pending_uploads(),
            g,
            n,
            a1,
        ),
        uploads_from(a1.pending_uploads(), a0.pending_uploads(), p, n, a1) ==> uploads_from(
            a1.pending_uploads(),
            a0.pending_uploads(),
            g,
            g.len() as int,
            a1,
        ),
        n < p.len() && stopped_at(a0, a1, p, n) ==> stopped_at(a0, a1, g, n),
        all_cached(g, a0) ==> all_cached(p, a0),
{
    let us = a1.pending_uploads();
    let b = a0.pending_uploads();
    if new_keys_from(a0, a1, p, n) {
        assert forall|k: GlyphonCacheKey| (#[trigger] a1.cached(k)).is_some() && a0.cached(k).is_none() implies exists|j: int|
            0 <= j < n && (#[trigger] g[j]).cache_key == k by {
            let j = choose|j: int| 0 <= j < n && (#[trigger] p[j]).cache_key == k;
            assert(g[j] == p[j]);
        }
    }
    if uploads_from(us, b, p, n, a1) {
        assert forall|q: int| b.len() <= q < us.len() implies upload_of_some(#[trigger] us[q], g, n, a1) by {
            assert(upload_of_some(us[q], p, n, a1));
            let j = choose|j: int| 0 <= j < n && #[trigger] upload_for(us[q], a1.cached(p[j].cache_key));
            assert(g[j] == p[j]);
            assert(upload_for(us[q], a1.cached(g[j].cache_key)));
        }
        assert forall|q: int| b.len() <= q < us.len() implies upload_of_some(#[trigger] us[q], g, g.len() as int, a1) by {
            assert(upload_of_some(us[q], g, n, a1));
            let j = choose|j: int| 0 <= j < n && #[trigger] upload_for(us[q], a1.cached(g[j].cache_key));
            assert(upload_for(us[q], a1.cached(g[j].cache_key)));
        }
    }
    if n < p.len() && stopped_at(a0, a1, p, n) {
        assert(g[n] == p[n]);
    }
    if all_cached(g, a0) {
        assert forall|i: int| 0 <= i < p.len() implies (#[trigger] a0.cached(p[i].cache_key)).is_some() by {
            assert(g[i] == p[i]);
        }
    }
}

proof fn lemma_runs_prefix(rs: Seq<LayoutRun>, j: int)
    requires
        0 <= j <= rs.len(),
    ensures
        is_prefix(runs_glyphs(rs.take(j)), runs_glyphs(rs)),
    decreases rs.len() - j,
{
    if j == rs.len() {
        assert(rs.take(j) =~= rs);
    } else {
        lemma_runs_prefix(rs, j + 1);
        assert(rs.take(j + 1).drop_last() =~= rs.take(j));
        let a = runs_glyphs(rs.take(j));
        let b = runs_glyphs(rs.take(j + 1));
        let c = runs_glyphs(rs);
        assert forall|i: int| 0 <= i < a.len() implies #[trigger] c[i] == a[i] by {
            assert(b[i] == a[i]);
            assert(c[i] == b[i]);
        }
    }
}

proof fn lemma_areas_prefix(ts: Seq<TextArea>, j: int)
    requires
        0 <= j <= ts.len(),
    ensures
        is_prefix(areas_glyphs(ts.take(j)), areas_glyphs(ts)),
    decreases ts.len() - j,
{
    if j == ts.len() {
        assert(ts.take(j) =~= ts);
    } else {
        lemma_areas_prefix(ts, j + 1);
        assert(ts.take(j + 1).drop_last() =~= ts.take(j));
        let a = areas_glyphs(ts.take(j));
        let b = areas_glyphs(ts.take(j + 1));
        let c = areas_glyphs(ts);
        assert forall|i: int| 0 <= i < a.len() implies #[trigger] c[i] == a[i] by {
            assert(b[i] == a[i]);
            assert(c[i] == b[i]);
        }
    }
}

/// `out` holds the vertices of `input` clipped against `b`, over `atlas`: per line
/// its bounds and its glyphs' vertices, then the custom glyphs' vertices.
pub open spec fn area_matches(input: TextArea, out: RenderableTextArea, b: ClipBounds, atlas: TextAtlas) -> bool {
    &&& out.layout_glyphs@.len() == input.runs@.len()
    &&& forall|j: int|
        0 <= j < input.runs@.len() ==> {
            &&& (#[trigger] out.layout_glyphs@[j]).bounds == input.runs@[j].bounds
            &&& out.layout_glyphs@[j].glyphs@ == placed_vertices(
                input.runs@[j].glyphs@,
                input.runs@[j].line_y,
                input.default_color,
                b,
                atlas,
            )
        }
    &&& out.custom_glyphs@ == placed_vertices(input.custom_glyphs@, 0, input.default_color, b, atlas)
}

/// Every glyph of a text area is cached in `atlas`.
pub open spec fn area_cached(input: TextArea, atlas: TextAtlas) -> bool {
    &&& all_cached(input.custom_glyphs@, atlas)
    &&& forall|j: int| 0 <= j < input.runs@.len() ==> all_cached((#[trigger] input.runs@[j]).glyphs@, atlas)
}

proof fn lemma_area_stable(input: TextArea, out: RenderableTextArea, b: ClipBounds, a1: TextAtlas, a2: TextAtlas)
    requires
        area_matches(input, out, b, a1),
        area_cached(input, a1),
        keeps(a1, a2),
    ensures
        area_matches(input, out, b, a2),
        area_cached(input, a2),
{
    lemma_placed_stable(input.custom_glyphs@, 0, input.default_color, b, a1, a2);
    assert forall|j: int| 0 <= j < input.runs@.len() implies {
        &&& all_cached((#[trigger] input.runs@[j]).glyphs@, a2)
        &&& out.layout_glyphs@[j].bounds == input.runs@[j].bounds
        &&& out.layout_glyphs@[j].glyphs@ == placed_vertices(
            input.runs@[j].glyphs@,
            input.runs@[j].line_y,
            input.default_color,
            b,
            a2,
        )
    } by {
        assert(all_cached(input.runs@[j].glyphs@, a1));
        assert(out.layout_glyphs@[j].bounds == input.runs@[j].bounds);
        lemma_placed_stable(input.runs@[j].glyphs@, input.runs@[j].line_y, input.default_color, b, a1, a2);
    }
}

proof fn lemma_keeps_trans(a1: TextAtlas, a2: TextAtlas, a3: TextAtlas)
    requires
        keeps(a1, a2),
        keeps(a2, a3),
    ensures
        keeps(a1, a3),
{
    assert forall|k: GlyphonCacheKey| (#[trigger] a1.cached(k)).is_some() implies a3.cached(k) == a1.cached(k) by {
        assert(a2.cached(k) == a1.cached(k));
    }
}

/// Prepares one text area: its custom glyphs, then its lines, against its bounds
/// clamped to the viewport.
pub fn prepare_text_area<R: RasterizeGlyph>(
    text_area: &TextArea,
    viewport_width: u32,
    viewport_height: u32,
    atlas: &mut TextAtlas,
    rasterizer: &mut R,
) -> (r: Result<RenderableTextArea, PrepareError>)
    requires
        old(atlas).wf(),
    ensures
        final(atlas).wf(),
        keeps(*old(atlas), *final(atlas)),
        forall|c: ContentType| #[trigger] final(atlas).inner(c).max_size_spec() == old(atlas).inner(c).max_size_spec(),
        all_cached(area_glyphs(*text_area), *old(atlas)) ==> r is Ok && *final(atlas) == *old(atlas),
        uploads_from(
            final(atlas).pending_uploads(),
            old(atlas).pending_uploads(),
            area_glyphs(*text_area),
            area_glyphs(*text_area).len() as int,
            *final(atlas),
        ),
        one_upload_per_key(final(atlas).pending_uploads(), old(atlas).pending_uploads(), *old(atlas), *final(atlas)),
        r matches Ok(out) ==> {
            &&& area_matches(*text_area, out, clamped_bounds(text_area.bounds, viewport_width, viewport_height), *final(atlas))
            &&& area_cached(*text_area, *final(atlas))
            &&& new_keys_from(*old(atlas), *final(atlas), area_glyphs(*text_area), area_glyphs(*text_area).len() as int)
        },
        r matches Err(e) ==> {
            &&& e == PrepareError::AtlasFull
            &&& exists|c: ContentType, w: int, h: int| #[trigger] final_full_witness(*final(atlas), c, w, h)
            &&& exists|i: int| #[trigger] stopped_at(*old(atlas), *final(atlas), area_glyphs(*text_area), i)
        },
{
    let b = clamp_bounds(&text_area.bounds, viewport_width, viewport_height);
    let ghost a0 = *atlas;
    let ghost cg = text_area.custom_glyphs@;
    let ghost gs = area_glyphs(*text_area);
    proof {
        assert(is_prefix(cg, gs));
    }
    let custom_glyphs = match prepare_glyphs(
        &text_area.custom_glyphs,
        0,
        text_area.default_color,
        text_area.scale_bits,
        &b,
        atlas,
        rasterizer,
    ) {
        Ok(vs) => vs,
        Err(e) => {
            proof {
                lemma_prefix_outcome(a0, *atlas, cg, gs, cg.len() as int);
                let i = choose|i: int|
                    0 <= i < cg.len() && (#[trigger] atlas.cached(cg[i].cache_key)).is_none()
                        && new_keys_from(a0, *atlas, cg, i)
                        && uploads_from(atlas.pending_uploads(), a0.pending_uploads(), cg, i, *atlas);
                assert(stopped_at(a0, *atlas, cg, i));
                lemma_prefix_outcome(a0, *atlas, cg, gs, i);
                assert(stopped_at(a0, *atlas, gs, i));
            }
            return Err(e);
        },
    };
    let ghost a1 = *atlas;
    proof {
        lemma_prefix_outcome(a0, a0, cg, gs, 0);
        assert(cg + runs_glyphs(text_area.runs@.take(0)) =~= cg);
    }
    let mut layout_glyphs: Vec<LayoutGlyphs> = Vec::new();
    let mut j: usize = 0;
    while j < text_area.runs.len()
        invariant
            atlas.wf(),
            j <= text_area.runs@.len(),
            keeps(a0, *atlas),
            keeps(a1, *atlas),
            forall|c: ContentType| #[trigger] atlas.inner(c).max_size_spec() == old(atlas).inner(c).max_size_spec(),
            a0 == *old(atlas),
            custom_glyphs@ == placed_vertices(text_area.custom_glyphs@, 0, text_area.default_color, b, a1),
            all_cached(text_area.custom_glyphs@, a1),
            cg == text_area.custom_glyphs@,
            gs == area_glyphs(*text_area),
            all_cached(gs, a0) ==> *atlas == a0,
            one_upload_per_key(atlas.pending_uploads(), a0.pending_uploads(), a0, *atlas),
            uploads_from(
                atlas.pending_uploads(),
                a0.pending_uploads(),
                cg + runs_glyphs(text_area.runs@.take(j as int)),
                (cg + runs_glyphs(text_area.runs@.take(j as int))).len() as int,
                *atlas,
            ),
            new_keys_from(
                a0,
                *atlas,
                cg + runs_glyphs(text_area.runs@.take(j as int)),
                (cg + runs_glyphs(text_area.runs@.take(j as int))).len() as int,
            ),
            layout_glyphs@.len() == j,
            forall|jj: int|
                0 <= jj < j ==> {
                    &&& (#[trigger] layout_glyphs@[jj]).bounds == text_area.runs@[jj].bounds
                    &&& layout_glyphs@[jj].glyphs@ == placed_vertices(
                        text_area.runs@[jj].glyphs@,
                        text_area.runs@[jj].line_y,
                        text_area.default_color,
                        b,
                        *atlas,
                    )
                    &&& all_cached(text_area.runs@[jj].glyphs@, *atlas)
                },
        decreases text_area.runs@.len() - j,
    {
        let run = &text_area.runs[j];
        let ghost before = *atlas;
        let ghost pre = cg + runs_glyphs(text_area.runs@.take(j as int));
        let ghost seg = text_area.runs@[j as int].glyphs@;
        proof {
            lemma_runs_prefix(text_area.runs@, j + 1);
            assert(text_area.runs@.take(j + 1).drop_last() =~= text_area.runs@.take(j as int));
            assert(pre + seg =~= cg + runs_glyphs(text_area.runs@.take(j + 1)));
            let r1 = runs_glyphs(text_area.runs@.take(j + 1));
            let rr = runs_glyphs(text_area.runs@);
            assert forall|x: int| 0 <= x < (pre + seg).len() implies #[trigger] gs[x] == (pre + seg)[x] by {
                if x >= cg.len() {
                    assert(rr[x - cg.len()] == r1[x - cg.len()]);
                }
            }
            assert(is_prefix(pre + seg, gs));
            lemma_prefix_outcome(a0, a0, pre + seg, gs, 0);
            if all_cached(gs, a0) {
                lemma_all_cached_split(pre, seg, a0);
            }
        }
        let glyphs = match prepare_glyphs(
            &run.glyphs,
            run.line_y,
            text_area.default_color,
            text_area.scale_bits,
            &b,
            atlas,
            rasterizer,
        ) {
            Ok(vs) => vs,
            Err(e) => {
                proof {
                    lemma_keeps_trans(a0, before, *atlas);
                    assert forall|c: ContentType| #[trigger] atlas.inner(c).max_size_spec() == old(atlas).inner(c).max_size_spec() by {
                        assert(before.inner(c).max_size_spec() == old(atlas).inner(c).max_size_spec());
                    }
                    let i = choose|i: int|
                        0 <= i < seg.len() && (#[trigger] atlas.cached(seg[i].cache_key)).is_none()
                            && new_keys_from(before, *atlas, seg, i)
                            && uploads_from(atlas.pending_uploads(), before.pending_uploads(), seg, i, *atlas);
                    lemma_uploads_join(a0.pending_uploads(), before.pending_uploads(), atlas.pending_uploads(), pre, seg, i, before, *atlas);
                    lemma_keys_join(a0, before, *atlas, pre, seg, i);
                    lemma_one_upload_join(a0.pending_uploads(), before.pending_uploads(), atlas.pending_uploads(), a0, before, *atlas);
                    assert((pre + seg)[pre.len() + i] == seg[i]);
                    assert(stopped_at(a0, *atlas, pre + seg, pre.len() + i));
                    lemma_prefix_outcome(a0, *atlas, pre + seg, gs, pre.len() + i);
                    assert(stopped_at(a0, *atlas, gs, pre.len() + i));
                }
                return Err(e);
            },
        };
        proof {
            lemma_uploads_join(a0.pending_uploads(), before.pending_uploads(), atlas.pending_uploads(), pre, seg, seg.len() as int, before, *atlas);
            lemma_keys_join(a0, before, *atlas, pre, seg, seg.len() as int);
            lemma_one_upload_join(a0.pending_uploads(), before.pending_uploads(), atlas.pending_uploads(), a0, before, *atlas);
            lemma_keeps_trans(a0, before, *atlas);
            lemma_keeps_trans(a1, before, *atlas);
            assert forall|c: ContentType| #[trigger] atlas.inner(c).max_size_spec() == old(atlas).inner(c).max_size_spec() by {
                assert(before.inner(c).max_size_spec() == old(atlas).inner(c).max_size_spec());
            }
        }
        let ghost prev = layout_glyphs@;
        layout_glyphs.push(LayoutGlyphs { bounds: run.bounds, glyphs });
        proof {
            assert forall|jj: int| 0 <= jj < j + 1 implies {
                &&& (#[trigger] layout_glyphs@[jj]).bounds == text_area.runs@[jj].bounds
                &&& layout_glyphs@[jj].glyphs@ == placed_vertices(
                    text_area.runs@[jj].glyphs@,
                    text_area.runs@[jj].line_y,
                    text_area.default_color,
                    b,
                    *atlas,
                )
                &&& all_cached(text_area.runs@[jj].glyphs@, *atlas)
            } by {
                if jj < j {
                    assert(layout_glyphs@[jj] == prev[jj]);
                    assert(all_cached(text_area.runs@[jj].glyphs@, before));
                    lemma_placed_stable(
                        text_area.runs@[jj].glyphs@,
                        text_area.runs@[jj].line_y,
                        text_area.default_color,
                        b,
                        before,
                        *atlas,
                    );
                }
            }
        }
        j = j + 1;
    }
    let out = RenderableTextArea { layout_glyphs, custom_glyphs };
    proof {
        lemma_placed_stable(text_area.custom_glyphs@, 0, text_area.default_color, b, a1, *atlas);
        assert(out.layout_glyphs@ == layout_glyphs@);
        assert forall|jj: int| 0 <= jj < text_area.runs@.len() implies all_cached(
            (#[trigger] text_area.runs@[jj]).glyphs@,
            *atlas,
        ) by {
            assert(layout_glyphs@[jj].bounds == text_area.runs@[jj].bounds);
        }
        assert(area_cached(*text_area, *atlas));
        assert(area_matches(*text_area, out, b, *atlas));
        assert(text_area.runs@.take(text_area.runs@.len() as int) =~= text_area.runs@);
        assert(cg + runs_glyphs(text_area.runs@) == gs);
    }
    Ok(out)
}

/// Prepares text areas in order. On success there is one renderable text area per
/// input, each holding exactly the vertices of its glyphs over the atlas as it is
/// afterwards, which caches every glyph. On failure (`AtlasFull`) the atlas keeps
/// every entry it had before the call.
pub fn prepare_all_text_areas<R: RasterizeGlyph>(
    text_areas: &Vec<TextArea>,
    viewport_width: u32,
    viewport_height: u32,
    atlas: &mut TextAtlas,
    rasterizer: &mut R,
) -> (r: Result<Vec<RenderableTextArea>, PrepareError>)
    requires
        old(atlas).wf(),
    ensures
        final(atlas).wf(),
        keeps(*old(atlas), *final(atlas)),
        forall|c: ContentType| #[trigger] final(atlas).inner(c).max_size_spec() == old(atlas).inner(c).max_size_spec(),
        r matches Ok(out) ==> {
            &&& out@.len() == text_areas@.len()
            &&& forall|i: int|
                0 <= i < text_areas@.len() ==> {
                    &&& area_matches(
                        text_areas@[i],
                        #[trigger] out@[i],
                        clamped_bounds(text_areas@[i].bounds, viewport_width, viewport_height),
                        *final(atlas),
                    )
                    &&& area_cached(text_areas@[i], *final(atlas))
                }
        },
        all_cached(areas_glyphs(text_areas@), *old(atlas)) ==> r is Ok && *final(atlas) == *old(atlas),
        uploads_from(
            final(atlas).pending_uploads(),
            old(atlas).pending_uploads(),
            areas_glyphs(text_areas@),
            areas_glyphs(text_areas@).len() as int,
            *final(atlas),
        ),
        r is Ok ==> new_keys_from(*old(atlas), *final(atlas), areas_glyphs(text_areas@), areas_glyphs(text_areas@).len() as int),
        one_upload_per_key(final(atlas).pending_uploads(), old(atlas).pending_uploads(), *old(atlas), *final(atlas)),
        r matches Err(e) ==> {
            &&& e == PrepareError::AtlasFull
            &&& exists|c: ContentType, w: int, h: int| #[trigger] final_full_witness(*final(atlas), c, w, h)
            &&& exists|i: int| #[trigger] stopped_at(*old(atlas), *final(atlas), areas_glyphs(text_areas@), i)
        },
{
    let mut out: Vec<RenderableTextArea> = Vec::new();
    let mut i: usize = 0;
    let ghost gs = areas_glyphs(text_areas@);
    proof {
        assert(text_areas@.take(0) =~= Seq::<TextArea>::empty());
        lemma_nothing_new(*atlas, areas_glyphs(text_areas@.take(0)));
    }
    while i < text_areas.len()
        invariant
            gs == areas_glyphs(text_areas@),
            all_cached(gs, *old(atlas)) ==> *atlas == *old(atlas),
            one_upload_per_key(atlas.pending_uploads(), old(atlas).pending_uploads(), *old(atlas), *atlas),
            uploads_from(
                atlas.pending_uploads(),
                old(atlas).pending_uploads(),
                areas_glyphs(text_areas@.take(i as int)),
                areas_glyphs(text_areas@.take(i as int)).len() as int,
                *atlas,
            ),
            new_keys_from(
                *old(atlas),
                *atlas,
                areas_glyphs(text_areas@.take(i as int)),
                areas_glyphs(text_areas@.take(i as int)).len() as int,
            ),
            atlas.wf(),
            i <= text_areas@.len(),
            keeps(*old(atlas), *atlas),
            forall|c: ContentType| #[trigger] atlas.inner(c).max_size_spec() == old(atlas).inner(c).max_size_spec(),
            out@.len() == i,
            forall|ii: int|
                0 <= ii < i ==> {
                    &&& area_matches(
                        text_areas@[ii],
                        #[trigger] out@[ii],
                        clamped_bounds(text_areas@[ii].bounds, viewport_width, viewport_height),
                        *atlas,
                    )
                    &&& area_cached(text_areas@[ii], *atlas)
                },
        decreases text_areas@.len() - i,
    {
        let ghost before = *atlas;
        let ghost pre = areas_glyphs(text_areas@.take(i as int));
        let ghost seg = area_glyphs(text_areas@[i as int]);
        proof {
            lemma_areas_prefix(text_areas@, i + 1);
            assert(text_areas@.take(i + 1).drop_last() =~= text_areas@.take(i as int));
            assert(pre + seg == areas_glyphs(text_areas@.take(i + 1)));
            lemma_prefix_outcome(*old(atlas), *old(atlas), pre + seg, gs, 0);
            if all_cached(gs, *old(atlas)) {
                lemma_all_cached_split(pre, seg, *old(atlas));
            }
        }
        let res = prepare_text_area(&text_areas[i], viewport_width, viewport_height, atlas, rasterizer);
        proof {
            lemma_keeps_trans(*old(atlas), before, *atlas);
            assert forall|c: ContentType| #[trigger] atlas.inner(c).max_size_spec() == old(atlas).inner(c).max_size_spec() by {
                assert(before.inner(c).max_size_spec() == old(atlas).inner(c).max_size_spec());
            }
        }
        match res {
            Err(e) => {
                proof {
                    let j = choose|j: int| #[trigger] stopped_at(before, *atlas, seg, j);
                    lemma_uploads_join(old(atlas).pending_uploads(), before.pending_uploads(), atlas.pending_uploads(), pre, seg, j, before, *atlas);
                    lemma_keys_join(*old(atlas), before, *atlas, pre, seg, j);
                    lemma_one_upload_join(old(atlas).pending_uploads(), before.pending_uploads(), atlas.pending_uploads(), *old(atlas), before, *atlas);
                    assert((pre + seg)[pre.len() + j] == seg[j]);
                    assert(stopped_at(*old(atlas), *atlas, pre + seg, pre.len() + j));
                    lemma_prefix_outcome(*old(atlas), *atlas, pre + seg, gs, pre.len() + j);
                    assert(stopped_at(*old(atlas), *atlas, gs, pre.len() + j));
                }
                return Err(e);
            },
            Ok(area) => {
                proof {
                    lemma_uploads_join(old(atlas).pending_uploads(), before.pending_uploads(), atlas.pending_uploads(), pre, seg, seg.len() as int, before, *atlas);
                    lemma_keys_join(*old(atlas), before, *atlas, pre, seg, seg.len() as int);
                    lemma_one_upload_join(old(atlas).pending_uploads(), before.pending_uploads(), atlas.pending_uploads(), *old(atlas), before, *atlas);
                }
                let ghost prev = out@;
                out.push(area);
                proof {
                    assert forall|ii: int| 0 <= ii < i + 1 implies {
                        &&& area_matches(
                            text_areas@[ii],
                            #[trigger] out@[ii],
                            clamped_bounds(text_areas@[ii].bounds, viewport_width, viewport_height),
                            *atlas,
                        )
                        &&& area_cached(text_areas@[ii], *atlas)
                    } by {
                        if ii < i {
                            assert(out@[ii] == prev[ii]);
                            lemma_area_stable(
                                text_areas@[ii],
                                prev[ii],
                                clamped_bounds(text_areas@[ii].bounds, viewport_width, viewport_height),
                                before,
                                *atlas,
                            );
                        }
                    }
                }
            },
        }
        i = i + 1;
    }
    proof {
        assert(text_areas@.take(text_areas@.len() as int) =~= text_areas@);
    }
    Ok(out)
}

/// The bytes of a frame's vertex stream and how they reach the GPU buffer.
#[derive(Clone, Debug)]
pub struct VertexUpload {
    pub bytes: Vec<u8>,
    pub write: BufferWrite,
}

/// The renderer's state: the vertex buffer's capacity, the number of vertices of
/// the last assembled frame, and the position mapping.
pub struct TextRenderer2 {
    vertex_buffer_size: u64,
    glyph_vertices_len: usize,
    position_mapping: PositionMapping,
}

/// Initial byte size asked for the vertex buffer.
pub const INITIAL_VERTEX_BUFFER_SIZE: u64 = 4096;

impl TextRenderer2 {
    /// Capacity in bytes of the vertex buffer.
    pub closed spec fn capacity(&self) -> int {
        self.vertex_buffer_size as int
    }

    /// Number of vertices of the last assembled frame.
    pub closed spec fn vertex_count(&self) -> int {
        self.glyph_vertices_len as int
    }

    pub closed spec fn mapping(&self) -> PositionMapping {
        self.position_mapping
    }

    pub fn new(position_mapping: PositionMapping) -> (r: Self)
        ensures
            r.capacity() == crate::buffer::copy_buffer_size(INITIAL_VERTEX_BUFFER_SIZE as int),
            r.vertex_count() == 0,
            r.mapping() == position_mapping,
    {
        let vertex_buffer_size = next_copy_buffer_size(INITIAL_VERTEX_BUFFER_SIZE);
        TextRenderer2 { vertex_buffer_size, glyph_vertices_len: 0, position_mapping }
    }

    pub fn vertex_buffer_size(&self) -> (r: u64)
        ensures
            r == self.capacity(),
    {
        self.vertex_buffer_size
    }

    /// Number of vertices (GPU instances) the next draw covers.
    pub fn glyph_vertices_len(&self) -> (r: usize)
        ensures
            r == self.vertex_count(),
    {
        self.glyph_vertices_len
    }

    pub fn position_mapping(&self) -> (r: PositionMapping)
        ensures
            r == self.mapping(),
    {
        self.position_mapping
    }

    /// Prepares text areas for the next frame; see `prepare_all_text_areas`.
    pub fn prepare_text_areas<R: RasterizeGlyph>(
        &mut self,
        atlas: &mut TextAtlas,
        viewport_width: u32,
        viewport_height: u32,
        text_areas: &Vec<TextArea>,
        rasterizer: &mut R,
    ) -> (r: Result<Vec<RenderableTextArea>, PrepareError>)
        requires
            old(atlas).wf(),
        ensures
            *final(self) == *old(self),
            final(atlas).wf(),
            keeps(*old(atlas), *final(atlas)),
            r matches Ok(out) ==> {
                &&& out@.len() == text_areas@.len()
                &&& forall|i: int|
                    0 <= i < text_areas@.len() ==> {
                        &&& area_matches(
                            text_areas@[i],
                            #[trigger] out@[i],
                            clamped_bounds(text_areas@[i].bounds, viewport_width, viewport_height),
                            *final(atlas),
                        )
                        &&& area_cached(text_areas@[i], *final(atlas))
                    }
            },
            all_cached(areas_glyphs(text_areas@), *old(atlas)) ==> r is Ok && *final(atlas) == *old(atlas),
            uploads_from(
                final(atlas).pending_uploads(),
                old(atlas).pending_uploads(),
                areas_glyphs(text_areas@),
                areas_glyphs(text_areas@).len() as int,
                *final(atlas),
            ),
            r is Ok ==> new_keys_from(*old(atlas), *final(atlas), areas_glyphs(text_areas@), areas_glyphs(text_areas@).len() as int),
            one_upload_per_key(final(atlas).pending_uploads(), old(atlas).pending_uploads(), *old(atlas), *final(atlas)),
            r matches Err(e) ==> {
                &&& e == PrepareError::AtlasFull
                &&& exists|c: ContentType, w: int, h: int| #[trigger] final_full_witness(*final(atlas), c, w, h)
                &&& exists|i: int| #[trigger] stopped_at(*old(atlas), *final(atlas), areas_glyphs(text_areas@), i)
            },
    {
        let r = prepare_all_text_areas(text_areas, viewport_width, viewport_height, atlas, rasterizer);
        match r {
            Ok(out) => {
                assert forall|i: int| 0 <= i < text_areas@.len() implies {
                    &&& area_matches(
                        text_areas@[i],
                        #[trigger] out@[i],
                        clamped_bounds(text_areas@[i].bounds, viewport_width, viewport_height),
                        *atlas,
                    )
                    &&& area_cached(text_areas@[i], *atlas)
                } by {
                    assert(area_matches(
                        text_areas@[i],
                        out@[i],
                        clamped_bounds(text_areas@[i].bounds, viewport_width, viewport_height),
                        *atlas,
                    ));
                }
                Ok(out)
            },
            Err(e) => Err(e),
        }
    }

    /// Assembles the vertices of prepared text areas into one stream, in order, and
    /// decides how it reaches the vertex buffer: in place when it fits, else into a
    /// new buffer of the next copy size. The capacity never shrinks.
    pub fn prepare_renderable_text_areas(&mut self, renderable_text_areas: &Vec<RenderableTextArea>) -> (r: VertexUpload)
        requires
            all_vertices(renderable_text_areas@).len() * VERTEX_SIZE <= 0x8000_0000_0000_0000u64,
            all_vertices(renderable_text_areas@).len() * VERTEX_SIZE <= usize::MAX,
        ensures
            r.bytes@ == stream_bytes(all_vertices(renderable_text_areas@)),
            r.bytes@.len() == VERTEX_SIZE * all_vertices(renderable_text_areas@).len(),
            r.write == buffer_write(old(self).capacity(), r.bytes@.len() as int),
            final(self).capacity() == next_capacity(old(self).capacity(), r.bytes@.len() as int),
            final(self).capacity() >= old(self).capacity(),
            final(self).capacity() >= r.bytes@.len(),
            final(self).vertex_count() == all_vertices(renderable_text_areas@).len(),
            final(self).mapping() == old(self).mapping(),
    {
        let vertices = flatten_vertices(renderable_text_areas);
        let bytes = vertices_to_bytes(&vertices);
        let (write, capacity) = plan_buffer_write(self.vertex_buffer_size, bytes.len() as u64);
        self.vertex_buffer_size = capacity;
        self.glyph_vertices_len = vertices.len();
        VertexUpload { bytes, write }
    }
}

} // verus!
