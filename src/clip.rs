//! Clipping of glyph footprints against text-area bounds.
use vstd::prelude::*;

verus! {

/// Rectangular bounds of a text area, in device pixels.
#[derive(Clone, Copy, Debug, PartialEq, Eq, Structural)]
pub struct TextBounds {
    pub left: i32,
    pub top: i32,
    pub right: i32,
    pub bottom: i32,
}

/// Clip bounds: `[min_x, max_x) x [min_y, max_y)`.
#[derive(Clone, Copy, Debug, PartialEq, Eq, Structural)]
pub struct ClipBounds {
    pub min_x: i32,
    pub min_y: i32,
    pub max_x: i32,
    pub max_y: i32,
}

pub open spec fn max_int(a: int, b: int) -> int {
    if a >= b { a } else { b }
}

pub open spec fn min_int(a: int, b: int) -> int {
    if a <= b { a } else { b }
}

/// The bounds of a text area restricted to a viewport of the given size.
pub open spec fn clamped_bounds(b: TextBounds, width: u32, height: u32) -> ClipBounds {
    ClipBounds {
        min_x: max_int(b.left as int, 0) as i32,
        min_y: max_int(b.top as int, 0) as i32,
        max_x: min_int(b.right as int, min_int(width as int, i32::MAX as int)) as i32,
        max_y: min_int(b.bottom as int, min_int(height as int, i32::MAX as int)) as i32,
    }
}

/// Clamps a text area's bounds to the viewport `[0, width) x [0, height)`.
pub fn clamp_bounds(b: &TextBounds, width: u32, height: u32) -> (r: ClipBounds)
    ensures
        r == clamped_bounds(*b, width, height),
{
    let w: i32 = if width > i32::MAX as u32 { i32::MAX } else { width as i32 };
    let h: i32 = if height > i32::MAX as u32 { i32::MAX } else { height as i32 };
    ClipBounds {
        min_x: if b.left >= 0 { b.left } else { 0 },
        min_y: if b.top >= 0 { b.top } else { 0 },
        max_x: if b.right <= w { b.right } else { w },
        max_y: if b.bottom <= h { b.bottom } else { h },
    }
}

/// One axis of a clip: the footprint `[p, p + len)` against `[lo, hi)`, with the
/// atlas origin `a` of the footprint. The visible part is the intersection; it is
/// `None` when the intersection is empty. Otherwise it gives the visible origin,
/// the visible extent and the atlas origin shifted by what was cut on the min side.
pub open spec fn clip_axis_spec(p: int, len: int, lo: int, hi: int, a: int) -> Option<(int, int, int)> {
    let start = max_int(p, lo);
    let end = min_int(p + len, hi);
    if start < end {
        Some((start, end - start, a + (start - p)))
    } else {
        None
    }
}

/// Bound on screen coordinates of glyph footprints that the clipping code accepts.
pub open spec fn coord_ok(p: i64) -> bool {
    -0x100_0000_0000i64 <= p <= 0x100_0000_0000i64
}

/// Clips one axis, see `clip_axis_spec`.
pub fn clip_axis(p: i64, len: u16, lo: i32, hi: i32, a: u16) -> (r: Option<(i32, u16, u16)>)
    requires
        coord_ok(p),
        a as int + len as int <= 0x1_0000,
    ensures
        match clip_axis_spec(p as int, len as int, lo as int, hi as int, a as int) {
            Some((s, l, na)) => r == Some((s as i32, l as u16, na as u16)),
            None => r.is_none(),
        },
{
    let start: i64 = if p >= lo as i64 { p } else { lo as i64 };
    let end: i64 = if p + len as i64 <= hi as i64 { p + len as i64 } else { hi as i64 };
    if start < end {
        Some((start as i32, (end - start) as u16, (a as i64 + (start - p)) as u16))
    } else {
        None
    }
}

/// A glyph footprint after clipping.
#[derive(Clone, Copy, Debug, PartialEq, Eq, Structural)]
pub struct ClippedGlyph {
    pub x: i32,
    pub y: i32,
    pub width: u16,
    pub height: u16,
    pub atlas_x: u16,
    pub atlas_y: u16,
}

/// The clip of the footprint `[x, x + width) x [y, y + height)`, sampled from the
/// atlas at `(atlas_x, atlas_y)`, against `b`.
pub open spec fn clip_glyph_spec(
    x: int,
    y: int,
    width: int,
    height: int,
    atlas_x: int,
    atlas_y: int,
    b: ClipBounds,
) -> Option<ClippedGlyph> {
    let cx = clip_axis_spec(x, width, b.min_x as int, b.max_x as int, atlas_x);
    let cy = clip_axis_spec(y, height, b.min_y as int, b.max_y as int, atlas_y);
    if cx.is_some() && cy.is_some() {
        let (sx, lx, ax) = cx.unwrap();
        let (sy, ly, ay) = cy.unwrap();
        Some(
            ClippedGlyph {
                x: sx as i32,
                y: sy as i32,
                width: lx as u16,
                height: ly as u16,
                atlas_x: ax as u16,
                atlas_y: ay as u16,
            },
        )
    } else {
        None
    }
}

/// Clips a glyph footprint against bounds. The result is exactly the geometric
/// intersection of the footprint with the bounds (`None` when it is empty), and the
/// atlas origin moves by exactly the amount cut from each min edge.
pub fn clip_glyph(
    x: i64,
    y: i64,
    width: u16,
    height: u16,
    atlas_x: u16,
    atlas_y: u16,
    b: &ClipBounds,
) -> (r: Option<ClippedGlyph>)
    requires
        coord_ok(x),
        coord_ok(y),
        atlas_x as int + width as int <= 0x1_0000,
        atlas_y as int + height as int <= 0x1_0000,
    ensures
        r == clip_glyph_spec(x as int, y as int, width as int, height as int, atlas_x as int, atlas_y as int, *b),
        r.is_some() <==> (max_int(x as int, b.min_x as int) < min_int(x + width, b.max_x as int)
            && max_int(y as int, b.min_y as int) < min_int(y + height, b.max_y as int)),
        r matches Some(c) ==> {
            &&& c.x == max_int(x as int, b.min_x as int)
            &&& c.y == max_int(y as int, b.min_y as int)
            &&& c.x + c.width == min_int(x + width, b.max_x as int)
            &&& c.y + c.height == min_int(y + height, b.max_y as int)
            &&& c.atlas_x - atlas_x == c.x - x
            &&& c.atlas_y - atlas_y == c.y - y
        },
{
    let cx = clip_axis(x, width, b.min_x, b.max_x, atlas_x);
    let cy = clip_axis(y, height, b.min_y, b.max_y, atlas_y);
    match (cx, cy) {
        (Some((sx, lx, ax)), Some((sy, ly, ay))) => Some(
            ClippedGlyph { x: sx, y: sy, width: lx, height: ly, atlas_x: ax, atlas_y: ay },
        ),
        _ => None,
    }
}

} // verus!
