//! A shelf packer: hands out disjoint rectangles of a square texture.
use vstd::prelude::*;

verus! {

/// The largest side length of an atlas texture; atlas coordinates fit in `u16`.
pub const MAX_ATLAS_SIZE: u32 = 65536;

/// A rectangle `[x, x + width) x [y, y + height)` in texels.
#[derive(Clone, Copy, Debug, PartialEq, Eq, Structural)]
pub struct Rect {
    pub x: u32,
    pub y: u32,
    pub width: u32,
    pub height: u32,
}

pub open spec fn overlap(a: Rect, b: Rect) -> bool {
    &&& a.x < b.x + b.width
    &&& b.x < a.x + a.width
    &&& a.y < b.y + b.height
    &&& b.y < a.y + a.height
}

pub open spec fn inside(r: Rect, size: int) -> bool {
    r.x + r.width <= size && r.y + r.height <= size
}

/// A horizontal band of the texture; rectangles are placed left to right on it.
#[derive(Clone, Copy, Debug)]
struct Shelf {
    y: u32,
    height: u32,
    cursor: u32,
}

/// A rectangle handed out, with the index of the shelf it stands on.
#[derive(Clone, Copy, Debug)]
struct Placed {
    rect: Rect,
    shelf: usize,
}

pub struct ShelfPacker {
    size: u32,
    next_y: u32,
    shelves: Vec<Shelf>,
    placed: Vec<Placed>,
}

impl ShelfPacker {
    /// Side length of the texture.
    pub closed spec fn size_spec(&self) -> int {
        self.size as int
    }

    /// The rectangles handed out so far, in order.
    pub closed spec fn allocations(&self) -> Seq<Rect> {
        self.placed@.map_values(|p: Placed| p.rect)
    }

    /// Whether a rectangle of the given size can be placed.
    pub closed spec fn fits(&self, width: int, height: int) -> bool {
        ||| exists|i: int|
            0 <= i < self.shelves@.len() && #[trigger] self.shelf_fits(i, width, height)
        ||| (height <= self.size - self.next_y && width <= self.size)
    }

    closed spec fn shelf_fits(&self, i: int, width: int, height: int) -> bool {
        height <= self.shelves@[i].height && width <= self.size - self.shelves@[i].cursor
    }

    pub closed spec fn wf(&self) -> bool {
        &&& self.size <= MAX_ATLAS_SIZE
        &&& self.next_y <= self.size
        &&& forall|i: int|
            0 <= i < self.shelves@.len() ==> {
                &&& (#[trigger] self.shelves@[i]).y + self.shelves@[i].height <= self.next_y
                &&& self.shelves@[i].cursor <= self.size
            }
        &&& forall|k1: int, k2: int|
            0 <= k1 < k2 < self.placed@.len() && (#[trigger] self.placed@[k1]).shelf
                == (#[trigger] self.placed@[k2]).shelf ==> self.placed@[k1].rect.x
                + self.placed@[k1].rect.width <= self.placed@[k2].rect.x
        &&& forall|i: int, j: int|
            0 <= i < j < self.shelves@.len() ==> #[trigger] self.shelves@[i].y
                + self.shelves@[i].height <= #[trigger] self.shelves@[j].y
        &&& forall|k: int|
            0 <= k < self.placed@.len() ==> {
                let p = #[trigger] self.placed@[k];
                let sh = self.shelves@[p.shelf as int];
                &&& p.shelf < self.shelves@.len()
                &&& p.rect.y == sh.y
                &&& p.rect.height <= sh.height
                &&& p.rect.x + p.rect.width <= sh.cursor
                &&& p.rect.width > 0
                &&& p.rect.height > 0
            }
    }

    /// An empty packer for a texture of side `size`.
    pub fn new(size: u32) -> (r: Self)
        requires
            size <= MAX_ATLAS_SIZE,
        ensures
            r.wf(),
            r.size_spec() == size,
            r.allocations() == Seq::<Rect>::empty(),
    {
        let r = ShelfPacker { size, next_y: 0, shelves: Vec::new(), placed: Vec::new() };
        assert(r.allocations() =~= Seq::<Rect>::empty());
        r
    }

    pub fn size(&self) -> (r: u32)
        ensures
            r == self.size_spec(),
    {
        self.size
    }

    /// Number of rectangles handed out.
    pub fn len(&self) -> (r: usize)
        ensures
            r == self.allocations().len(),
    {
        self.placed.len()
    }

    /// Finds room for a `width` x `height` rectangle. It succeeds exactly when
    /// `fits` holds; the new rectangle is then appended to the allocations.
    pub fn try_allocate(&mut self, width: u32, height: u32) -> (r: Option<Rect>)
        requires
            old(self).wf(),
            width > 0,
            height > 0,
        ensures
            final(self).wf(),
            final(self).size_spec() == old(self).size_spec(),
            r.is_some() <==> old(self).fits(width as int, height as int),
            r matches Some(rect) ==> {
                &&& rect.width == width
                &&& rect.height == height
                &&& final(self).allocations() == old(self).allocations().push(rect)
            },
            r.is_none() ==> final(self).allocations() == old(self).allocations(),
            r.is_none() ==> *final(self) == *old(self),
    {
        let n = self.shelves.len();
        let mut i: usize = 0;
        while i < n
            invariant
                self.wf(),
                *self == *old(self),
                width > 0,
                height > 0,
                n == self.shelves@.len(),
                i <= n,
                forall|j: int| 0 <= j < i ==> !(#[trigger] self.shelf_fits(j, width as int, height as int)),
            decreases n - i,
        {
            let s = self.shelves[i];
            if height <= s.height && width <= self.size - s.cursor {
                let rect = Rect { x: s.cursor, y: s.y, width, height };
                proof {
                    assert(self.shelf_fits(i as int, width as int, height as int));
                }
                let ghost old_self = *self;
                self.shelves.set(i, Shelf { y: s.y, height: s.height, cursor: s.cursor + width });
                self.placed.push(Placed { rect, shelf: i });
                proof {
                    assert(self.allocations() =~= old_self.allocations().push(rect));
                    assert forall|k: int| 0 <= k < self.placed@.len() implies {
                        let p = #[trigger] self.placed@[k];
                        let sh = self.shelves@[p.shelf as int];
                        &&& p.shelf < self.shelves@.len()
                        &&& p.rect.y == sh.y
                        &&& p.rect.height <= sh.height
                        &&& p.rect.x + p.rect.width <= sh.cursor
                        &&& p.rect.width > 0
                        &&& p.rect.height > 0
                    } by {
                        if k < old_self.placed@.len() {
                            assert(old_self.placed@[k] == self.placed@[k]);
                            let sk = old_self.placed@[k].shelf as int;
                            assert(sk < old_self.shelves@.len());
                            assert(old_self.placed@[k].rect.x + old_self.placed@[k].rect.width
                                <= old_self.shelves@[sk].cursor);
                            if sk != i {
                                assert(self.shelves@[sk] == old_self.shelves@[sk]);
                            } else {
                                assert(old_self.shelves@[sk] == s);
                                assert(self.shelves@[sk].cursor == s.cursor + width);
                                assert(self.shelves@[sk].y == s.y);
                                assert(self.shelves@[sk].height == s.height);
                            }
                        } else {
                            assert(self.placed@[k] == Placed { rect, shelf: i });
                            assert(self.shelves@[i as int].cursor == s.cursor + width);
                        }
                    }
                    assert forall|k1: int, k2: int|
                        0 <= k1 < k2 < self.placed@.len() && (#[trigger] self.placed@[k1]).shelf
                            == (#[trigger] self.placed@[k2]).shelf implies self.placed@[k1].rect.x
                            + self.placed@[k1].rect.width <= self.placed@[k2].rect.x by {
                        assert(old_self.placed@[k1] == self.placed@[k1]);
                        if k2 < old_self.placed@.len() {
                            assert(old_self.placed@[k2] == self.placed@[k2]);
                        }
                    }
                    assert forall|a: int, b: int|
                        0 <= a < b < self.shelves@.len() implies #[trigger] self.shelves@[a].y
                        + self.shelves@[a].height <= #[trigger] self.shelves@[b].y by {
                        assert(old_self.shelves@[a] == self.shelves@[a] || a == i);
                        assert(old_self.shelves@[a].y + old_self.shelves@[a].height
                            <= old_self.shelves@[b].y);
                    }
                    assert forall|a: int| 0 <= a < self.shelves@.len() implies {
                        &&& (#[trigger] self.shelves@[a]).y + self.shelves@[a].height <= self.next_y
                        &&& self.shelves@[a].cursor <= self.size
                    } by {
                        assert(old_self.shelves@[a].y + old_self.shelves@[a].height <= old_self.next_y);
                    }
                }
                return Some(rect);
            }
            i = i + 1;
        }
        if height <= self.size - self.next_y && width <= self.size {
            let rect = Rect { x: 0, y: self.next_y, width, height };
            let ghost old_self = *self;
            self.shelves.push(Shelf { y: self.next_y, height, cursor: width });
            self.placed.push(Placed { rect, shelf: n });
            self.next_y = self.next_y + height;
            proof {
                assert(self.allocations() =~= old_self.allocations().push(rect));
                assert forall|k: int| 0 <= k < self.placed@.len() implies {
                    let p = #[trigger] self.placed@[k];
                    let sh = self.shelves@[p.shelf as int];
                    &&& p.shelf < self.shelves@.len()
                    &&& p.rect.y == sh.y
                    &&& p.rect.height <= sh.height
                    &&& p.rect.x + p.rect.width <= sh.cursor
                    &&& p.rect.width > 0
                    &&& p.rect.height > 0
                } by {
                    if k < old_self.placed@.len() {
                        assert(old_self.placed@[k] == self.placed@[k]);
                        assert(self.shelves@[self.placed@[k].shelf as int]
                            == old_self.shelves@[self.placed@[k].shelf as int]);
                    }
                }
                assert forall|k1: int, k2: int|
                    0 <= k1 < k2 < self.placed@.len() && (#[trigger] self.placed@[k1]).shelf
                        == (#[trigger] self.placed@[k2]).shelf implies self.placed@[k1].rect.x
                        + self.placed@[k1].rect.width <= self.placed@[k2].rect.x by {
                    assert(old_self.placed@[k1] == self.placed@[k1]);
                    if k2 < old_self.placed@.len() {
                        assert(old_self.placed@[k2] == self.placed@[k2]);
                    }
                }
                assert forall|a: int, b: int|
                    0 <= a < b < self.shelves@.len() implies #[trigger] self.shelves@[a].y
                    + self.shelves@[a].height <= #[trigger] self.shelves@[b].y by {
                    if b < n {
                        assert(old_self.shelves@[a].y + old_self.shelves@[a].height
                            <= old_self.shelves@[b].y);
                    } else {
                        assert(old_self.shelves@[a].y + old_self.shelves@[a].height <= old_self.next_y);
                    }
                }
                assert forall|a: int| 0 <= a < self.shelves@.len() implies {
                    &&& (#[trigger] self.shelves@[a]).y + self.shelves@[a].height <= self.next_y
                    &&& self.shelves@[a].cursor <= self.size
                } by {
                    if a < n {
                        assert(old_self.shelves@[a].y + old_self.shelves@[a].height <= old_self.next_y);
                    }
                }
            }
            Some(rect)
        } else {
            None
        }
    }

    /// Enlarges the texture to side `size`; every rectangle stays where it is.
    pub fn grow(&mut self, size: u32)
        requires
            old(self).wf(),
            old(self).size_spec() <= size <= MAX_ATLAS_SIZE,
        ensures
            final(self).wf(),
            final(self).size_spec() == size,
            final(self).allocations() == old(self).allocations(),
    {
        self.size = size;
    }

    /// Every rectangle handed out lies inside the texture and has a positive area.
    pub proof fn lemma_allocations_inside(&self)
        requires
            self.wf(),
        ensures
            forall|k: int|
                0 <= k < self.allocations().len() ==> {
                    &&& inside(#[trigger] self.allocations()[k], self.size_spec())
                    &&& self.allocations()[k].width > 0
                    &&& self.allocations()[k].height > 0
                },
    {
        assert forall|k: int| 0 <= k < self.allocations().len() implies {
            &&& inside(#[trigger] self.allocations()[k], self.size_spec())
            &&& self.allocations()[k].width > 0
            &&& self.allocations()[k].height > 0
        } by {
            let p = self.placed@[k];
            assert(self.shelves@[p.shelf as int].y + self.shelves@[p.shelf as int].height
                <= self.next_y);
        }
    }

    /// No two rectangles handed out by one packer overlap, whatever the sequence
    /// of allocations and growths that led to it.
    pub proof fn lemma_allocations_disjoint(&self)
        requires
            self.wf(),
        ensures
            forall|i: int, j: int|
                0 <= i < self.allocations().len() && 0 <= j < self.allocations().len() && i
                    != j ==> !overlap(#[trigger] self.allocations()[i], #[trigger] self.allocations()[j]),
    {
        assert forall|i: int, j: int|
            0 <= i < self.allocations().len() && 0 <= j < self.allocations().len() && i
                != j implies !overlap(#[trigger] self.allocations()[i], #[trigger] self.allocations()[j]) by {
            let pi = self.placed@[i];
            let pj = self.placed@[j];
            let si = pi.shelf as int;
            let sj = pj.shelf as int;
            if i < j && si == sj {
                assert(self.placed@[i].rect.x + self.placed@[i].rect.width <= self.placed@[j].rect.x);
            } else if j < i && si == sj {
                assert(self.placed@[j].rect.x + self.placed@[j].rect.width <= self.placed@[i].rect.x);
            } else if si < sj {
                assert(self.shelves@[si].y + self.shelves@[si].height <= self.shelves@[sj].y);
            } else if sj < si {
                assert(self.shelves@[sj].y + self.shelves@[sj].height <= self.shelves@[si].y);
            }
        }
    }
}

} // verus!
