//! Glyph details stores and the two texture atlases, one per content type.
use vstd::prelude::*;
use crate::cache_key::GlyphonCacheKey;
use crate::packer::{inside, overlap, Rect, ShelfPacker, MAX_ATLAS_SIZE};

verus! {

/// What a bitmap holds: full color texels or a coverage mask.
#[derive(Clone, Copy, Debug, PartialEq, Eq, Hash, Structural)]
pub enum ContentType {
    Color,
    Mask,
}

/// How colors of color glyphs are treated by the shader.
#[derive(Clone, Copy, Debug, PartialEq, Eq, Hash, Structural)]
pub enum ColorMode {
    Accurate,
    Web,
}

/// Whether a cached glyph is resident in an atlas or has nothing to draw.
#[derive(Clone, Copy, Debug, PartialEq, Eq, Structural)]
pub enum GpuCacheStatus {
    InAtlas { x: u16, y: u16, content_type: ContentType },
    SkipRasterization,
}

/// Placement and size of one cached glyph bitmap.
#[derive(Clone, Copy, Debug, PartialEq, Eq, Structural)]
pub struct GlyphDetails {
    pub width: u16,
    pub height: u16,
    pub gpu_cache: GpuCacheStatus,
    /// Index of the allocation a resident glyph occupies.
    pub atlas_id: Option<usize>,
    pub top: i16,
    pub left: i16,
}

/// Bitmap bytes to copy into an atlas texture at `(x, y)`.
#[derive(Clone, Debug)]
pub struct Upload {
    pub content_type: ContentType,
    pub x: u16,
    pub y: u16,
    pub width: u16,
    pub height: u16,
    pub data: Vec<u8>,
}

/// The entry for `k` in an association list with unique keys.
pub open spec fn lookup(entries: Seq<(GlyphonCacheKey, GlyphDetails)>, k: GlyphonCacheKey) -> Option<GlyphDetails> {
    if exists|i: int| 0 <= i < entries.len() && (#[trigger] entries[i]).0 == k {
        Some(entries[choose|i: int| 0 <= i < entries.len() && (#[trigger] entries[i]).0 == k].1)
    } else {
        None
    }
}

pub open spec fn keys_unique(entries: Seq<(GlyphonCacheKey, GlyphDetails)>) -> bool {
    forall|i: int, j: int|
        0 <= i < j < entries.len() ==> (#[trigger] entries[i]).0 != (#[trigger] entries[j]).0
}

proof fn lemma_lookup_at(entries: Seq<(GlyphonCacheKey, GlyphDetails)>, i: int)
    requires
        keys_unique(entries),
        0 <= i < entries.len(),
    ensures
        lookup(entries, entries[i].0) == Some(entries[i].1),
{
    let k = entries[i].0;
    let j = choose|j: int| 0 <= j < entries.len() && (#[trigger] entries[j]).0 == k;
    assert(entries[j].0 == k);
    if j != i {
        if i < j {
            assert(entries[i].0 != entries[j].0);
        } else {
            assert(entries[j].0 != entries[i].0);
        }
    }
}

proof fn lemma_lookup_push(
    entries: Seq<(GlyphonCacheKey, GlyphDetails)>,
    k: GlyphonCacheKey,
    d: GlyphDetails,
)
    requires
        keys_unique(entries),
        lookup(entries, k).is_none(),
    ensures
        keys_unique(entries.push((k, d))),
        lookup(entries.push((k, d)), k) == Some(d),
        forall|k2: GlyphonCacheKey|
            k2 != k ==> lookup(entries.push((k, d)), k2) == #[trigger] lookup(entries, k2),
{
    let e2 = entries.push((k, d));
    assert forall|i: int, j: int| 0 <= i < j < e2.len() implies (#[trigger] e2[i]).0 != (#[trigger] e2[j]).0 by {
        if j == entries.len() {
            assert(entries[i].0 != k);
        } else {
            assert(entries[i] == e2[i] && entries[j] == e2[j]);
        }
    }
    lemma_lookup_at(e2, entries.len() as int);
    assert forall|k2: GlyphonCacheKey| k2 != k implies lookup(e2, k2) == #[trigger] lookup(entries, k2) by {
        if exists|i: int| 0 <= i < entries.len() && (#[trigger] entries[i]).0 == k2 {
            let i = choose|i: int| 0 <= i < entries.len() && (#[trigger] entries[i]).0 == k2;
            lemma_lookup_at(entries, i);
            assert(e2[i] == entries[i]);
            lemma_lookup_at(e2, i);
        } else {
            assert forall|i: int| 0 <= i < e2.len() implies (#[trigger] e2[i]).0 != k2 by {
                if i < entries.len() {
                    assert(e2[i] == entries[i]);
                }
            }
        }
    }
}

/// Bytes per texel of a content type.
pub open spec fn channels(content_type: ContentType) -> int {
    match content_type {
        ContentType::Color => 4,
        ContentType::Mask => 1,
    }
}

/// Bytes per texel of a content type.
pub fn num_channels(content_type: ContentType) -> (r: u32)
    ensures
        r == channels(content_type),
{
    match content_type {
        ContentType::Color => 4,
        ContentType::Mask => 1,
    }
}

/// The side length after one growth step of an atlas of side `size`.
pub open spec fn grown_size(size: int, max_size: int) -> int {
    if size * 2 <= max_size { size * 2 } else { max_size }
}

/// The atlas of one content type: its packer and the details of the glyphs it holds.
pub struct InnerAtlas {
    content_type: ContentType,
    packer: ShelfPacker,
    max_size: u32,
    glyph_cache: Vec<(GlyphonCacheKey, GlyphDetails)>,
}

impl InnerAtlas {
    pub closed spec fn content_type_spec(&self) -> ContentType {
        self.content_type
    }

    pub closed spec fn size_spec(&self) -> int {
        self.packer.size_spec()
    }

    pub closed spec fn max_size_spec(&self) -> int {
        self.max_size as int
    }

    /// The rectangles this atlas has handed out.
    pub closed spec fn allocations(&self) -> Seq<Rect> {
        self.packer.allocations()
    }

    pub closed spec fn fits(&self, width: int, height: int) -> bool {
        self.packer.fits(width, height)
    }

    /// The details this atlas holds for `k`.
    pub closed spec fn cached(&self, k: GlyphonCacheKey) -> Option<GlyphDetails> {
        lookup(self.glyph_cache@, k)
    }

    pub closed spec fn wf(&self) -> bool {
        &&& self.packer.wf()
        &&& 0 < self.packer.size_spec() <= self.max_size <= MAX_ATLAS_SIZE
        &&& keys_unique(self.glyph_cache@)
        &&& forall|i: int|
            0 <= i < self.glyph_cache@.len() ==> resident_inside(
                #[trigger] self.glyph_cache@[i].1,
                self.packer.size_spec(),
            )
        &&& forall|i: int|
            0 <= i < self.glyph_cache@.len() ==> stored_in(#[trigger] self.glyph_cache@[i].1, self.content_type)
        &&& forall|i: int|
            0 <= i < self.glyph_cache@.len() ==> entry_placed(
                #[trigger] self.glyph_cache@[i].1,
                self.packer.allocations(),
            )
        &&& forall|i: int, j: int|
            0 <= i < j < self.glyph_cache@.len() && is_resident(#[trigger] self.glyph_cache@[i].1)
                && is_resident(#[trigger] self.glyph_cache@[j].1) ==> self.glyph_cache@[i].1.atlas_id
                != self.glyph_cache@[j].1.atlas_id
    }

    /// The last allocation is occupied by no cached glyph yet.
    pub closed spec fn last_unused(&self) -> bool {
        &&& self.packer.allocations().len() > 0
        &&& forall|i: int|
            0 <= i < self.glyph_cache@.len() && (#[trigger] self.glyph_cache@[i]).1.atlas_id is Some
                ==> self.glyph_cache@[i].1.atlas_id.unwrap() < self.packer.allocations().len() - 1
    }

    /// Every cached entry lies inside the texture; a resident one has a positive
    /// size.
    pub proof fn lemma_entries_inside(&self)
        requires
            self.wf(),
        ensures
            forall|k: GlyphonCacheKey|
                (#[trigger] self.cached(k)).is_some() ==> entry_inside(self.cached(k).unwrap(), self.size_spec())
                    && stored_in(self.cached(k).unwrap(), self.content_type_spec()),
    {
        self.packer.lemma_allocations_inside();
        assert forall|k: GlyphonCacheKey| (#[trigger] self.cached(k)).is_some() implies entry_inside(
            self.cached(k).unwrap(),
            self.size_spec(),
        ) && stored_in(self.cached(k).unwrap(), self.content_type_spec()) by {
            let e = self.glyph_cache@;
            assert(stored_in(e[choose|i: int| 0 <= i < e.len() && (#[trigger] e[i]).0 == k].1, self.content_type));
            let i = choose|i: int| 0 <= i < e.len() && (#[trigger] e[i]).0 == k;
            lemma_lookup_at(e, i);
            assert(entry_placed(e[i].1, self.packer.allocations()));
            assert(resident_inside(e[i].1, self.packer.size_spec()));
            if is_resident(e[i].1) {
                let a = e[i].1.atlas_id.unwrap() as int;
                assert(self.packer.allocations()[a].width > 0);
            }
        }
    }

    /// Number of allocations handed out.
    pub fn allocation_count(&self) -> (r: usize)
        ensures
            r == self.allocations().len(),
    {
        self.packer.len()
    }

    /// Two distinct resident glyphs of one atlas occupy disjoint rectangles, each
    /// inside the texture.
    pub proof fn lemma_resident_disjoint(&self, k1: GlyphonCacheKey, k2: GlyphonCacheKey)
        requires
            self.wf(),
            k1 != k2,
            self.cached(k1) matches Some(d1) && is_resident(d1),
            self.cached(k2) matches Some(d2) && is_resident(d2),
        ensures
            !overlap(footprint(self.cached(k1).unwrap()), footprint(self.cached(k2).unwrap())),
            inside(footprint(self.cached(k1).unwrap()), self.size_spec()),
    {
        let e = self.glyph_cache@;
        let i1 = choose|i: int| 0 <= i < e.len() && (#[trigger] e[i]).0 == k1;
        let i2 = choose|i: int| 0 <= i < e.len() && (#[trigger] e[i]).0 == k2;
        lemma_lookup_at(e, i1);
        lemma_lookup_at(e, i2);
        assert(entry_placed(e[i1].1, self.packer.allocations()));
        assert(entry_placed(e[i2].1, self.packer.allocations()));
        if i1 < i2 {
            assert(e[i1].1.atlas_id != e[i2].1.atlas_id);
        } else {
            assert(e[i2].1.atlas_id != e[i1].1.atlas_id);
        }
        self.packer.lemma_allocations_disjoint();
        self.packer.lemma_allocations_inside();
        let a1 = e[i1].1.atlas_id.unwrap() as int;
        let a2 = e[i2].1.atlas_id.unwrap() as int;
        assert(!overlap(self.packer.allocations()[a1], self.packer.allocations()[a2]));
        assert(inside(self.packer.allocations()[a1], self.size_spec()));
    }

    fn new(content_type: ContentType, size: u32, max_size: u32) -> (r: Self)
        requires
            0 < size <= max_size <= MAX_ATLAS_SIZE,
        ensures
            r.wf(),
            r.content_type_spec() == content_type,
            r.size_spec() == size,
            r.max_size_spec() == max_size,
            forall|k: GlyphonCacheKey| (#[trigger] r.cached(k)).is_none(),
    {
        InnerAtlas { content_type, packer: ShelfPacker::new(size), max_size, glyph_cache: Vec::new() }
    }

    pub fn size(&self) -> (r: u32)
        requires
            self.wf(),
        ensures
            r == self.size_spec(),
    {
        self.packer.size()
    }

    pub fn get(&self, k: &GlyphonCacheKey) -> (r: Option<GlyphDetails>)
        requires
            self.wf(),
        ensures
            r == self.cached(*k),
            r matches Some(d) ==> resident_inside(d, self.size_spec()),
    {
        let mut i: usize = 0;
        while i < self.glyph_cache.len()
            invariant
                self.wf(),
                i <= self.glyph_cache@.len(),
                forall|j: int| 0 <= j < i ==> (#[trigger] self.glyph_cache@[j]).0 != *k,
            decreases self.glyph_cache@.len() - i,
        {
            if self.glyph_cache[i].0 == *k {
                proof {
                    lemma_lookup_at(self.glyph_cache@, i as int);
                    assert(resident_inside(self.glyph_cache@[i as int].1, self.packer.size_spec()));
                }
                return Some(self.glyph_cache[i].1);
            }
            i = i + 1;
        }
        None
    }

    fn insert(&mut self, k: GlyphonCacheKey, d: GlyphDetails)
        requires
            old(self).wf(),
            old(self).cached(k).is_none(),
            resident_inside(d, old(self).size_spec()),
            stored_in(d, old(self).content_type_spec()),
            is_resident(d) ==> {
                &&& old(self).last_unused()
                &&& d.atlas_id is Some
                &&& d.atlas_id.unwrap() + 1 == old(self).allocations().len()
                &&& old(self).allocations().last() == footprint(d)
            },
            !is_resident(d) ==> d.atlas_id is None,
        ensures
            final(self).wf(),
            final(self).cached(k) == Some(d),
            forall|k2: GlyphonCacheKey| k2 != k ==> #[trigger] final(self).cached(k2) == old(self).cached(k2),
            final(self).packer == old(self).packer,
            final(self).content_type == old(self).content_type,
            final(self).max_size == old(self).max_size,
    {
        proof {
            lemma_lookup_push(self.glyph_cache@, k, d);
        }
        let ghost e0 = self.glyph_cache@;
        self.glyph_cache.push((k, d));
        proof {
            let e = self.glyph_cache@;
            assert forall|i: int| 0 <= i < e.len() implies entry_placed(
                #[trigger] e[i].1,
                self.packer.allocations(),
            ) by {
                if i < e0.len() {
                    assert(e[i] == e0[i]);
                    assert(entry_placed(e0[i].1, self.packer.allocations()));
                } else {
                    assert(e[i].1 == d);
                    if is_resident(d) {
                        let n = self.packer.allocations().len();
                        assert(n > 0);
                        assert(self.packer.allocations().last() == self.packer.allocations()[n - 1]);
                    }
                }
            }
            assert forall|i: int| 0 <= i < e.len() implies resident_inside(
                #[trigger] e[i].1,
                self.packer.size_spec(),
            ) by {
                if i < e0.len() {
                    assert(e[i] == e0[i]);
                }
            }
            assert forall|i: int| 0 <= i < e.len() implies stored_in(#[trigger] e[i].1, self.content_type) by {
                if i < e0.len() {
                    assert(e[i] == e0[i]);
                }
            }
            assert forall|i: int, j: int|
                0 <= i < j < e.len() && is_resident(#[trigger] e[i].1) && is_resident(#[trigger] e[j].1)
                    implies e[i].1.atlas_id != e[j].1.atlas_id by {
                assert(e[i] == e0[i]);
                if j < e0.len() {
                    assert(e[j] == e0[j]);
                } else {
                    assert(e[j].1 == d);
                    assert(entry_placed(e0[i].1, self.packer.allocations()));
                    assert(e0[i].1.atlas_id is Some);
                    assert(e0[i].1.atlas_id.unwrap() < self.packer.allocations().len() - 1);
                }
            }
        }
    }

    /// Finds room for a bitmap; see `ShelfPacker::try_allocate`.
    pub fn try_allocate(&mut self, width: u16, height: u16) -> (r: Option<Rect>)
        requires
            old(self).wf(),
            width > 0,
            height > 0,
        ensures
            final(self).wf(),
            r.is_some() <==> old(self).fits(width as int, height as int),
            r matches Some(rect) ==> {
                &&& rect.width == width
                &&& rect.height == height
                &&& rect.x + rect.width <= final(self).size_spec()
                &&& rect.y + rect.height <= final(self).size_spec()
                &&& final(self).allocations() == old(self).allocations().push(rect)
            },
            r.is_none() ==> final(self).allocations() == old(self).allocations(),
            r.is_none() ==> *final(self) == *old(self),
            r.is_some() ==> final(self).last_unused(),
            final(self).size_spec() == old(self).size_spec(),
            final(self).max_size_spec() == old(self).max_size_spec(),
            final(self).content_type_spec() == old(self).content_type_spec(),
            forall|k: GlyphonCacheKey| #[trigger] final(self).cached(k) == old(self).cached(k),
    {
        let ghost a0 = self.packer.allocations();
        let r = self.packer.try_allocate(width as u32, height as u32);
        proof {
            let e = self.glyph_cache@;
            assert forall|i: int| 0 <= i < e.len() implies entry_placed(
                #[trigger] e[i].1,
                self.packer.allocations(),
            ) by {
                assert(entry_placed(e[i].1, a0));
                if is_resident(e[i].1) {
                    assert(self.packer.allocations()[e[i].1.atlas_id.unwrap() as int]
                        == a0[e[i].1.atlas_id.unwrap() as int]);
                }
            }
            if r.is_some() {
                assert forall|i: int|
                    0 <= i < e.len() && (#[trigger] e[i]).1.atlas_id is Some implies e[i].1.atlas_id.unwrap()
                        < self.packer.allocations().len() - 1 by {
                    assert(entry_placed(e[i].1, a0));
                }
            }
            self.packer.lemma_allocations_inside();
            if r.is_some() {
                let last = self.packer.allocations().len() - 1;
                assert(self.packer.allocations()[last] == r.unwrap());
            }
        }
        r
    }

    /// Enlarges the texture by one growth step; `false` when it is already at its
    /// largest. Every cached glyph keeps its place.
    pub fn grow(&mut self) -> (r: bool)
        requires
            old(self).wf(),
        ensures
            final(self).wf(),
            r <==> old(self).size_spec() < old(self).max_size_spec(),
            !r ==> final(self).size_spec() == final(self).max_size_spec(),
            !r ==> *final(self) == *old(self),
            final(self).size_spec() == if r {
                grown_size(old(self).size_spec(), old(self).max_size_spec())
            } else {
                old(self).size_spec()
            },
            final(self).allocations() == old(self).allocations(),
            final(self).max_size_spec() == old(self).max_size_spec(),
            final(self).content_type_spec() == old(self).content_type_spec(),
            forall|k: GlyphonCacheKey| #[trigger] final(self).cached(k) == old(self).cached(k),
    {
        let size = self.packer.size();
        if size >= self.max_size {
            return false;
        }
        let new_size: u32 = if size <= self.max_size / 2 { size * 2 } else { self.max_size };
        self.packer.grow(new_size);
        proof {
            assert forall|i: int| 0 <= i < self.glyph_cache@.len() implies resident_inside(
                #[trigger] self.glyph_cache@[i].1,
                self.packer.size_spec(),
            ) by {
                assert(resident_inside(self.glyph_cache@[i].1, size as int));
            }
        }
        true
    }
}

pub open spec fn is_resident(d: GlyphDetails) -> bool {
    d.gpu_cache is InAtlas
}

/// The rectangle of the atlas a resident glyph occupies.
pub open spec fn footprint(d: GlyphDetails) -> Rect {
    match d.gpu_cache {
        GpuCacheStatus::InAtlas { x, y, content_type } => Rect {
            x: x as u32,
            y: y as u32,
            width: d.width as u32,
            height: d.height as u32,
        },
        GpuCacheStatus::SkipRasterization => Rect { x: 0, y: 0, width: 0, height: 0 },
    }
}

/// A resident glyph names the allocation it occupies; a skipped one names none.
pub open spec fn entry_placed(d: GlyphDetails, allocations: Seq<Rect>) -> bool {
    &&& is_resident(d) ==> {
        &&& d.atlas_id is Some
        &&& d.atlas_id.unwrap() < allocations.len()
        &&& allocations[d.atlas_id.unwrap() as int] == footprint(d)
    }
    &&& !is_resident(d) ==> d.atlas_id is None
}

/// A resident entry was placed in an atlas of content type `ct`.
pub open spec fn stored_in(d: GlyphDetails, ct: ContentType) -> bool {
    d.gpu_cache matches GpuCacheStatus::InAtlas { x, y, content_type } ==> content_type == ct
}

/// An entry lies inside a texture of side `size`; a resident one occupies a
/// rectangle of positive size there.
pub open spec fn entry_inside(d: GlyphDetails, size: int) -> bool {
    &&& resident_inside(d, size)
    &&& is_resident(d) ==> {
        &&& inside(footprint(d), size)
        &&& d.width > 0
        &&& d.height > 0
    }
}

/// A resident glyph's rectangle lies inside a texture of side `size`.
pub open spec fn resident_inside(d: GlyphDetails, size: int) -> bool {
    match d.gpu_cache {
        GpuCacheStatus::InAtlas { x, y, content_type } => x + d.width <= size && y + d.height <= size,
        GpuCacheStatus::SkipRasterization => true,
    }
}

/// The mask atlas and the color atlas, with the bitmaps waiting to be copied
/// into their textures.
pub struct TextAtlas {
    mask_atlas: InnerAtlas,
    color_atlas: InnerAtlas,
    color_mode: ColorMode,
    uploads: Vec<Upload>,
}

impl TextAtlas {
    pub closed spec fn mask(&self) -> InnerAtlas {
        self.mask_atlas
    }

    pub closed spec fn color(&self) -> InnerAtlas {
        self.color_atlas
    }

    pub closed spec fn color_mode_spec(&self) -> ColorMode {
        self.color_mode
    }

    /// Bitmaps placed in the atlases whose bytes have not been handed out yet.
    pub closed spec fn pending_uploads(&self) -> Seq<Upload> {
        self.uploads@
    }

    pub open spec fn inner(&self, content_type: ContentType) -> InnerAtlas {
        match content_type {
            ContentType::Mask => self.mask(),
            ContentType::Color => self.color(),
        }
    }

    /// The details cached for `k`: those of the mask atlas, else those of the
    /// color atlas.
    pub open spec fn cached(&self, k: GlyphonCacheKey) -> Option<GlyphDetails> {
        if self.mask().cached(k).is_some() {
            self.mask().cached(k)
        } else {
            self.color().cached(k)
        }
    }

    pub closed spec fn wf(&self) -> bool {
        &&& self.mask_atlas.wf()
        &&& self.color_atlas.wf()
        &&& self.mask_atlas.content_type_spec() == ContentType::Mask
        &&& self.color_atlas.content_type_spec() == ContentType::Color
        &&& forall|k: GlyphonCacheKey|
            !((#[trigger] self.mask_atlas.cached(k)).is_some() && self.color_atlas.cached(k).is_some())
    }

    /// A key is cached in at most one of the two atlases.
    pub proof fn lemma_one_store(&self)
        requires
            self.wf(),
        ensures
            forall|k: GlyphonCacheKey|
                !((#[trigger] self.mask().cached(k)).is_some() && self.color().cached(k).is_some()),
    {
    }

    /// Every cached glyph lies inside the current texture of its atlas, and a
    /// resident one has a positive size.
    pub proof fn lemma_resident_inside(&self)
        requires
            self.wf(),
        ensures
            forall|c: ContentType, k: GlyphonCacheKey|
                (#[trigger] self.inner(c).cached(k)).is_some() ==> entry_inside(
                    self.inner(c).cached(k).unwrap(),
                    self.inner(c).size_spec(),
                ),
            forall|k: GlyphonCacheKey|
                (#[trigger] self.cached(k)).is_some() ==> entry_inside(self.cached(k).unwrap(), MAX_ATLAS_SIZE as int),
    {
        self.mask_atlas.lemma_entries_inside();
        self.color_atlas.lemma_entries_inside();
        self.lemma_sizes();
        assert forall|c: ContentType, k: GlyphonCacheKey|
            (#[trigger] self.inner(c).cached(k)).is_some() implies entry_inside(
                self.inner(c).cached(k).unwrap(),
                self.inner(c).size_spec(),
            ) by {
            match c {
                ContentType::Mask => {},
                ContentType::Color => {},
            }
        }
        assert forall|k: GlyphonCacheKey| (#[trigger] self.cached(k)).is_some() implies entry_inside(
            self.cached(k).unwrap(),
            MAX_ATLAS_SIZE as int,
        ) by {
            assert(self.mask().cached(k) == self.mask_atlas.cached(k));
            assert(self.color().cached(k) == self.color_atlas.cached(k));
            assert(self.mask().size_spec() <= MAX_ATLAS_SIZE);
            assert(self.color().size_spec() <= MAX_ATLAS_SIZE);
        }
    }

    /// Empty atlases of side `size` that may grow up to side `max_size`.
    pub fn new(color_mode: ColorMode, size: u32, max_size: u32) -> (r: Self)
        requires
            0 < size <= max_size <= MAX_ATLAS_SIZE,
        ensures
            r.wf(),
            r.color_mode_spec() == color_mode,
            r.mask().size_spec() == size,
            r.color().size_spec() == size,
            r.mask().max_size_spec() == max_size,
            r.color().max_size_spec() == max_size,
            r.pending_uploads() == Seq::<Upload>::empty(),
            forall|k: GlyphonCacheKey| (#[trigger] r.cached(k)).is_none(),
    {
        let r = TextAtlas {
            mask_atlas: InnerAtlas::new(ContentType::Mask, size, max_size),
            color_atlas: InnerAtlas::new(ContentType::Color, size, max_size),
            color_mode,
            uploads: Vec::new(),
        };
        assert forall|k: GlyphonCacheKey| (#[trigger] r.cached(k)).is_none() by {
            assert(r.mask().cached(k).is_none());
            assert(r.color().cached(k).is_none());
        }
        r
    }

    pub fn color_mode(&self) -> (r: ColorMode)
        ensures
            r == self.color_mode_spec(),
    {
        self.color_mode
    }

    /// Side length of the texture of a content type.
    pub fn size(&self, content_type: ContentType) -> (r: u32)
        requires
            self.wf(),
        ensures
            r == self.inner(content_type).size_spec(),
    {
        match content_type {
            ContentType::Mask => self.mask_atlas.size(),
            ContentType::Color => self.color_atlas.size(),
        }
    }

    /// Each atlas's side is positive and at most its largest side.
    pub proof fn lemma_sizes(&self)
        requires
            self.wf(),
        ensures
            forall|c: ContentType|
                0 < #[trigger] self.inner(c).size_spec() <= self.inner(c).max_size_spec() <= MAX_ATLAS_SIZE,
    {
        assert forall|c: ContentType|
            0 < #[trigger] self.inner(c).size_spec() <= self.inner(c).max_size_spec() <= MAX_ATLAS_SIZE by {
            match c {
                ContentType::Mask => {},
                ContentType::Color => {},
            }
        }
    }

    /// Looks `k` up in the mask atlas, then in the color atlas.
    pub fn get(&self, k: &GlyphonCacheKey) -> (r: Option<GlyphDetails>)
        requires
            self.wf(),
        ensures
            r == self.cached(*k),
            r matches Some(d) ==> resident_inside(d, MAX_ATLAS_SIZE as int),
    {
        match self.mask_atlas.get(k) {
            Some(d) => Some(d),
            None => self.color_atlas.get(k),
        }
    }

    /// Finds room in the atlas of a content type.
    pub fn try_allocate(&mut self, content_type: ContentType, width: u16, height: u16) -> (r: Option<Rect>)
        requires
            old(self).wf(),
            width > 0,
            height > 0,
        ensures
            final(self).wf(),
            r.is_some() <==> old(self).inner(content_type).fits(width as int, height as int),
            r matches Some(rect) ==> {
                &&& rect.width == width
                &&& rect.height == height
                &&& rect.x + rect.width <= MAX_ATLAS_SIZE
                &&& rect.y + rect.height <= MAX_ATLAS_SIZE
                &&& rect.x + rect.width <= final(self).inner(content_type).size_spec()
                &&& rect.y + rect.height <= final(self).inner(content_type).size_spec()
                &&& final(self).inner(content_type).allocations() == old(self).inner(
                    content_type,
                ).allocations().push(rect)
            },
            r.is_none() ==> final(self).inner(content_type).allocations() == old(self).inner(
                content_type,
            ).allocations(),
            r.is_some() ==> final(self).inner(content_type).last_unused(),
            r.is_none() ==> *final(self) == *old(self),
            final(self).inner(content_type).size_spec() == old(self).inner(content_type).size_spec(),
            final(self).inner(content_type).max_size_spec() == old(self).inner(content_type).max_size_spec(),
            content_type == ContentType::Mask ==> final(self).color() == old(self).color(),
            content_type == ContentType::Color ==> final(self).mask() == old(self).mask(),
            final(self).color_mode_spec() == old(self).color_mode_spec(),
            final(self).pending_uploads() == old(self).pending_uploads(),
            forall|k: GlyphonCacheKey| #[trigger] final(self).cached(k) == old(self).cached(k),
    {
        match content_type {
            ContentType::Mask => self.mask_atlas.try_allocate(width, height),
            ContentType::Color => self.color_atlas.try_allocate(width, height),
        }
    }

    /// Enlarges the atlas of a content type by one growth step; `false` when it is
    /// already at its largest. Cached glyphs keep their places.
    pub fn grow(&mut self, content_type: ContentType) -> (r: bool)
        requires
            old(self).wf(),
        ensures
            final(self).wf(),
            r <==> old(self).inner(content_type).size_spec() < old(self).inner(content_type).max_size_spec(),
            !r ==> final(self).inner(content_type).size_spec() == final(self).inner(content_type).max_size_spec(),
            !r ==> *final(self) == *old(self),
            final(self).inner(content_type).size_spec() == if r {
                grown_size(old(self).inner(content_type).size_spec(), old(self).inner(content_type).max_size_spec())
            } else {
                old(self).inner(content_type).size_spec()
            },
            final(self).inner(content_type).allocations() == old(self).inner(content_type).allocations(),
            final(self).inner(content_type).max_size_spec() == old(self).inner(content_type).max_size_spec(),
            content_type == ContentType::Mask ==> final(self).color() == old(self).color(),
            content_type == ContentType::Color ==> final(self).mask() == old(self).mask(),
            final(self).color_mode_spec() == old(self).color_mode_spec(),
            final(self).pending_uploads() == old(self).pending_uploads(),
            forall|k: GlyphonCacheKey| #[trigger] final(self).cached(k) == old(self).cached(k),
    {
        match content_type {
            ContentType::Mask => self.mask_atlas.grow(),
            ContentType::Color => self.color_atlas.grow(),
        }
    }

    /// Records details for a glyph not cached yet, in the atlas of a content type.
    pub fn insert(&mut self, content_type: ContentType, k: GlyphonCacheKey, d: GlyphDetails)
        requires
            old(self).wf(),
            old(self).cached(k).is_none(),
            resident_inside(d, old(self).inner(content_type).size_spec()),
            stored_in(d, content_type),
            is_resident(d) ==> {
                &&& old(self).inner(content_type).last_unused()
                &&& d.atlas_id is Some
                &&& d.atlas_id.unwrap() + 1 == old(self).inner(content_type).allocations().len()
                &&& old(self).inner(content_type).allocations().last() == footprint(d)
            },
            !is_resident(d) ==> d.atlas_id is None,
        ensures
            final(self).wf(),
            final(self).cached(k) == Some(d),
            forall|k2: GlyphonCacheKey| k2 != k ==> #[trigger] final(self).cached(k2) == old(self).cached(k2),
            forall|c: ContentType| #[trigger] final(self).inner(c).size_spec() == old(self).inner(c).size_spec(),
            forall|c: ContentType| #[trigger] final(self).inner(c).max_size_spec() == old(self).inner(c).max_size_spec(),
            final(self).color_mode_spec() == old(self).color_mode_spec(),
            final(self).pending_uploads() == old(self).pending_uploads(),
    {
        let ghost a0 = *self;
        match content_type {
            ContentType::Mask => {
                assert(self.color_atlas.cached(k).is_none());
                self.mask_atlas.insert(k, d)
            },
            ContentType::Color => {
                assert(self.mask_atlas.cached(k).is_none());
                self.color_atlas.insert(k, d)
            },
        }
        proof {
            assert forall|k2: GlyphonCacheKey|
                !((#[trigger] self.mask_atlas.cached(k2)).is_some() && self.color_atlas.cached(k2).is_some()) by {
                if k2 != k {
                    assert(!(a0.mask_atlas.cached(k2).is_some() && a0.color_atlas.cached(k2).is_some()));
                }
            }
        }
    }

    /// Number of allocations handed out by the atlas of a content type.
    pub fn allocation_count(&self, content_type: ContentType) -> (r: usize)
        ensures
            r == self.inner(content_type).allocations().len(),
    {
        match content_type {
            ContentType::Mask => self.mask_atlas.allocation_count(),
            ContentType::Color => self.color_atlas.allocation_count(),
        }
    }

    /// Within the atlas of one content type, two distinct resident glyphs occupy
    /// disjoint rectangles, each inside the texture, whatever sequence of
    /// allocations and growths led there.
    pub proof fn lemma_resident_glyphs_disjoint(&self, content_type: ContentType, k1: GlyphonCacheKey, k2: GlyphonCacheKey)
        requires
            self.wf(),
            k1 != k2,
            self.inner(content_type).cached(k1) matches Some(d1) && is_resident(d1),
            self.inner(content_type).cached(k2) matches Some(d2) && is_resident(d2),
        ensures
            !overlap(
                footprint(self.inner(content_type).cached(k1).unwrap()),
                footprint(self.inner(content_type).cached(k2).unwrap()),
            ),
            inside(
                footprint(self.inner(content_type).cached(k1).unwrap()),
                self.inner(content_type).size_spec(),
            ),
    {
        self.inner(content_type).lemma_resident_disjoint(k1, k2);
    }

    /// Two distinct cached keys whose entries are resident in atlases of the same
    /// content type start at different places.
    pub proof fn lemma_distinct_origins(&self, k1: GlyphonCacheKey, k2: GlyphonCacheKey)
        requires
            self.wf(),
            k1 != k2,
            self.cached(k1) matches Some(d1) && is_resident(d1),
            self.cached(k2) matches Some(d2) && is_resident(d2),
            self.cached(k1).unwrap().gpu_cache->content_type == self.cached(k2).unwrap().gpu_cache->content_type,
        ensures
            footprint(self.cached(k1).unwrap()).x != footprint(self.cached(k2).unwrap()).x
                || footprint(self.cached(k1).unwrap()).y != footprint(self.cached(k2).unwrap()).y,
    {
        self.mask_atlas.lemma_entries_inside();
        self.color_atlas.lemma_entries_inside();
        let c = self.cached(k1).unwrap().gpu_cache->content_type;
        assert(self.inner(c).cached(k1) == self.cached(k1)) by {
            if self.mask_atlas.cached(k1).is_some() {
                assert(stored_in(self.mask_atlas.cached(k1).unwrap(), ContentType::Mask));
            }
        }
        assert(self.inner(c).cached(k2) == self.cached(k2)) by {
            if self.mask_atlas.cached(k2).is_some() {
                assert(stored_in(self.mask_atlas.cached(k2).unwrap(), ContentType::Mask));
            }
        }
        self.inner(c).lemma_resident_disjoint(k1, k2);
        self.inner(c).lemma_entries_inside();
    }

    /// Queues bitmap bytes for copying into a texture.
    pub fn push_upload(&mut self, u: Upload)
        ensures
            final(self).pending_uploads() == old(self).pending_uploads().push(u),
            final(self).mask() == old(self).mask(),
            final(self).color() == old(self).color(),
            final(self).color_mode_spec() == old(self).color_mode_spec(),
            old(self).wf() ==> final(self).wf(),
    {
        self.uploads.push(u);
    }

    /// Hands out the queued uploads, oldest first, and empties the queue.
    pub fn take_uploads(&mut self) -> (r: Vec<Upload>)
        ensures
            r@ == old(self).pending_uploads(),
            final(self).pending_uploads() == Seq::<Upload>::empty(),
            final(self).mask() == old(self).mask(),
            final(self).color() == old(self).color(),
            final(self).color_mode_spec() == old(self).color_mode_spec(),
            old(self).wf() ==> final(self).wf(),
    {
        let mut r: Vec<Upload> = Vec::new();
        std::mem::swap(&mut r, &mut self.uploads);
        r
    }
}

} // verus!
