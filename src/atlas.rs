//! Shelf packing of glyph bitmaps into square texture atlases.
//!
//! An atlas is filled row by row, left to right. A row is as tall as the tallest
//! glyph placed in it; when the next glyph does not fit in the remaining width, the
//! row is closed and the next one starts on top of it. When a glyph does not fit
//! below the top edge either, the atlas is full and a fresh one is started.
use vstd::prelude::*;
use crate::font::RasterizedGlyph;

verus! {

/// Side length of the atlases that a renderer allocates.
pub const ATLAS_SIZE: i32 = 1024;

/// A glyph packed into an atlas: where its bitmap lies and how it is placed on screen.
///
/// The UV rectangle is given in texels of the atlas `tex_id`; dividing by the atlas
/// side gives the normalized coordinates that the GPU samples with.
#[derive(Clone, Copy, Debug, PartialEq, Eq, Structural)]
pub struct Glyph {
    pub tex_id: usize,
    pub multicolor: bool,
    pub top: i16,
    pub left: i16,
    pub width: i16,
    pub height: i16,
    pub uv_bot: i16,
    pub uv_left: i16,
    pub uv_width: i16,
    pub uv_height: i16,
}

/// Why a bitmap could not be packed.
#[derive(Clone, Copy, Debug, PartialEq, Eq, Structural)]
pub enum AtlasInsertError {
    /// The atlas has no room left for the bitmap.
    Full,
    /// The bitmap is larger than a whole atlas (or has a negative size).
    GlyphTooLarge,
}

/// The packing state of one atlas.
pub struct AtlasState {
    pub id: int,
    pub width: int,
    pub height: int,
    /// Left-most free texel column of the current row.
    pub row_extent: int,
    /// Bottom texel row of the current row.
    pub row_baseline: int,
    /// Height of the tallest glyph in the current row.
    pub row_tallest: int,
}

impl AtlasState {
    /// A fresh atlas of side `size`.
    pub open spec fn empty(id: int, size: int) -> AtlasState {
        AtlasState { id, width: size, height: size, row_extent: 0, row_baseline: 0, row_tallest: 0 }
    }

    /// Row cursor inside the texture, and every row within its bounds.
    pub open spec fn wf(self) -> bool {
        &&& 0 < self.width <= i16::MAX
        &&& 0 < self.height <= i16::MAX
        &&& 0 <= self.row_extent <= self.width
        &&& 0 <= self.row_baseline
        &&& 0 <= self.row_tallest
        &&& self.row_baseline + self.row_tallest <= self.height
    }

    /// A bitmap of this size fits into an empty atlas.
    pub open spec fn fits(self, w: int, h: int) -> bool {
        0 <= w <= self.width && 0 <= h <= self.height
    }

    /// A bitmap of width `w` does not fit in what is left of the current row.
    pub open spec fn closes_row(self, w: int) -> bool {
        self.row_extent + w > self.width
    }

    /// The state once the current row is closed, if a bitmap of width `w` needs it.
    pub open spec fn opened(self, w: int) -> AtlasState {
        if self.closes_row(w) {
            AtlasState {
                id: self.id,
                width: self.width,
                height: self.height,
                row_extent: 0,
                row_baseline: self.row_baseline + self.row_tallest,
                row_tallest: 0,
            }
        } else {
            self
        }
    }

    /// A bitmap of size `w` x `h` can be placed without leaving the texture.
    pub open spec fn has_room(self, w: int, h: int) -> bool {
        self.opened(w).row_baseline + h <= self.height
    }

    /// The state after a bitmap of size `w` x `h` is placed.
    pub open spec fn placed(self, w: int, h: int) -> AtlasState {
        let c = self.opened(w);
        AtlasState {
            id: c.id,
            width: c.width,
            height: c.height,
            row_extent: c.row_extent + w,
            row_baseline: c.row_baseline,
            row_tallest: if h > c.row_tallest { h } else { c.row_tallest },
        }
    }

    /// The glyph that placing a `w` x `h` bitmap with the given bearing produces.
    pub open spec fn glyph_at(self, w: i32, h: i32, top: i32, left: i32, multicolor: bool) -> Glyph {
        let c = self.opened(w as int);
        Glyph {
            tex_id: self.id as usize,
            multicolor,
            top: top as i16,
            left: left as i16,
            width: w as i16,
            height: h as i16,
            uv_bot: c.row_baseline as i16,
            uv_left: c.row_extent as i16,
            uv_width: w as i16,
            uv_height: h as i16,
        }
    }

    /// The glyph that placing `b` produces.
    pub open spec fn glyph_for(self, b: RasterizedGlyph) -> Glyph {
        self.glyph_at(b.width, b.height, b.top, b.left, b.is_multicolor())
    }
}

/// One texture atlas and its row cursor.
#[derive(Clone, Copy, Debug)]
pub struct Atlas {
    id: usize,
    width: i32,
    height: i32,
    row_extent: i32,
    row_baseline: i32,
    row_tallest: i32,
}

impl View for Atlas {
    type V = AtlasState;

    closed spec fn view(&self) -> AtlasState {
        AtlasState {
            id: self.id as int,
            width: self.width as int,
            height: self.height as int,
            row_extent: self.row_extent as int,
            row_baseline: self.row_baseline as int,
            row_tallest: self.row_tallest as int,
        }
    }
}

impl Atlas {
    /// The row cursor stays inside the texture.
    #[verifier::type_invariant]
    pub open spec fn well_formed(&self) -> bool {
        self@.wf()
    }

    /// A fresh square atlas of side `size`, identified by `id`.
    pub fn new(id: usize, size: i32) -> (r: Atlas)
        requires
            0 < size <= i16::MAX,
        ensures
            r@ == AtlasState::empty(id as int, size as int),
            r@.wf(),
    {
        Atlas { id, width: size, height: size, row_extent: 0, row_baseline: 0, row_tallest: 0 }
    }

    pub fn id(&self) -> (r: usize)
        ensures
            r == self@.id,
    {
        self.id
    }

    /// Packs `glyph` into this atlas, closing the current row first when the glyph
    /// does not fit in what is left of it, and reporting the atlas full when the glyph
    /// does not fit below its top edge then.
    pub fn insert_inner(&mut self, glyph: &RasterizedGlyph) -> (r: Result<Glyph, AtlasInsertError>)
        ensures
            final(self)@.wf(),
            !old(self)@.fits(glyph.width as int, glyph.height as int) ==> {
                &&& r == Err::<Glyph, AtlasInsertError>(AtlasInsertError::GlyphTooLarge)
                &&& final(self)@ == old(self)@
            },
            old(self)@.fits(glyph.width as int, glyph.height as int) && !old(self)@.has_room(
                glyph.width as int,
                glyph.height as int,
            ) ==> {
                &&& r == Err::<Glyph, AtlasInsertError>(AtlasInsertError::Full)
                &&& final(self)@ == old(self)@.opened(glyph.width as int)
            },
            old(self)@.fits(glyph.width as int, glyph.height as int) && old(self)@.has_room(
                glyph.width as int,
                glyph.height as int,
            ) ==> {
                &&& r == Ok::<Glyph, AtlasInsertError>(old(self)@.glyph_for(*glyph))
                &&& final(self)@ == old(self)@.placed(glyph.width as int, glyph.height as int)
            },
            r is Ok ==> {
                &&& 0 <= r->Ok_0.uv_left
                &&& 0 <= r->Ok_0.uv_bot
                &&& r->Ok_0.uv_left + r->Ok_0.uv_width <= old(self)@.width
                &&& r->Ok_0.uv_bot + r->Ok_0.uv_height <= old(self)@.height
            },
    {
        proof {
            use_type_invariant(&*self);
        }
        let ghost a0 = self@;
        if glyph.width < 0 || glyph.width > self.width || glyph.height < 0 || glyph.height
            > self.height {
            return Err(AtlasInsertError::GlyphTooLarge);
        }
        if self.row_extent + glyph.width > self.width {
            *self = Atlas {
                id: self.id,
                width: self.width,
                height: self.height,
                row_extent: 0,
                row_baseline: self.row_baseline + self.row_tallest,
                row_tallest: 0,
            };
        }
        if self.row_baseline + glyph.height > self.height {
            return Err(AtlasInsertError::Full);
        }
        proof {
            lemma_atlas_uv_within(a0, *glyph);
        }
        Ok(self.place(glyph))
    }

    /// Places `glyph` at the row cursor, which leaves room for it in the current row.
    fn place(&mut self, glyph: &RasterizedGlyph) -> (r: Glyph)
        requires
            old(self)@.fits(glyph.width as int, glyph.height as int),
            !old(self)@.closes_row(glyph.width as int),
            old(self)@.has_room(glyph.width as int, glyph.height as int),
        ensures
            final(self)@.wf(),
            r == old(self)@.glyph_for(*glyph),
            final(self)@ == old(self)@.placed(glyph.width as int, glyph.height as int),
    {
        proof {
            use_type_invariant(&*self);
        }
        let offset_y = self.row_baseline;
        let offset_x = self.row_extent;

        self.row_extent = offset_x + glyph.width;
        if glyph.height > self.row_tallest {
            self.row_tallest = glyph.height;
        }
        let multicolor = match &glyph.buffer {
            crate::font::BitmapBuffer::Rgb(_) => false,
            crate::font::BitmapBuffer::Rgba(_) => true,
        };
        Glyph {
            tex_id: self.id,
            multicolor,
            top: #[verifier::truncate] (glyph.top as i16),
            left: #[verifier::truncate] (glyph.left as i16),
            width: glyph.width as i16,
            height: glyph.height as i16,
            uv_bot: offset_y as i16,
            uv_left: offset_x as i16,
            uv_width: glyph.width as i16,
            uv_height: glyph.height as i16,
        }
    }
}

/// A bitmap waiting to be copied into its atlas texture at texel `(x, y)`.
#[derive(Debug)]
pub struct Upload {
    pub atlas: usize,
    pub x: i32,
    pub y: i32,
    pub bitmap: RasterizedGlyph,
}

/// The state of a set of atlases: the atlases in order of creation (the last one
/// takes new glyphs), their common side, and the bitmaps not yet uploaded.
pub struct AtlasSetState {
    pub atlases: Seq<AtlasState>,
    pub size: int,
    pub uploads: Seq<Upload>,
}

impl AtlasSetState {
    /// A set that holds one empty atlas.
    pub open spec fn fresh(size: int) -> AtlasSetState {
        AtlasSetState { atlases: seq![AtlasState::empty(0, size)], size, uploads: seq![] }
    }

    pub open spec fn wf(self) -> bool {
        &&& 0 < self.size <= i16::MAX
        &&& 1 <= self.atlases.len()
        &&& forall|i: int|
            0 <= i < self.atlases.len() ==> {
                &&& #[trigger] self.atlases[i].wf()
                &&& self.atlases[i].id == i
                &&& self.atlases[i].width == self.size
                &&& self.atlases[i].height == self.size
            }
    }

    /// Index of the atlas that takes new glyphs.
    pub open spec fn current(self) -> int {
        self.atlases.len() - 1
    }

    /// A bitmap of this size fits into an empty atlas.
    pub open spec fn accepts(self, w: int, h: int) -> bool {
        0 <= w <= self.size && 0 <= h <= self.size
    }

    /// The current atlas must overflow into a new one to take a `w` x `h` bitmap.
    pub open spec fn overflows(self, w: int, h: int) -> bool {
        !self.atlases[self.current()].has_room(w, h)
    }

    /// The atlas that a `w` x `h` bitmap goes into, as it is before the bitmap is placed.
    pub open spec fn target(self, w: int, h: int) -> AtlasState {
        if self.overflows(w, h) {
            AtlasState::empty(self.atlases.len() as int, self.size)
        } else {
            self.atlases[self.current()]
        }
    }

    /// The glyph that loading `b` produces.
    pub open spec fn glyph_for(self, b: RasterizedGlyph) -> Glyph {
        self.target(b.width as int, b.height as int).glyph_for(b)
    }

    /// The state after `b` is loaded. A bitmap without pixels is not queued for upload.
    pub open spec fn loaded(self, b: RasterizedGlyph) -> AtlasSetState {
        let (w, h) = (b.width as int, b.height as int);
        let cur = self.atlases[self.current()];
        let t = self.target(w, h);
        let at = t.opened(w);
        let upload = Upload { atlas: t.id as usize, x: at.row_extent as i32, y: at.row_baseline as i32, bitmap: b };
        AtlasSetState {
            atlases: if self.overflows(w, h) {
                self.atlases.update(self.current(), cur.opened(w)).push(t.placed(w, h))
            } else {
                self.atlases.update(self.current(), t.placed(w, h))
            },
            size: self.size,
            uploads: if w == 0 || h == 0 { self.uploads } else { self.uploads.push(upload) },
        }
    }
}

/// Loading a bitmap that fits into an empty atlas keeps every atlas of the set
/// within its texture: no row ever reaches past the top edge.
pub proof fn lemma_loaded_wf(s: AtlasSetState, b: RasterizedGlyph)
    requires
        s.wf(),
        s.accepts(b.width as int, b.height as int),
    ensures
        s.loaded(b).wf(),
        s.loaded(b).atlases.len() == s.atlases.len() + if s.overflows(b.width as int, b.height as int) { 1int } else { 0int },
{
    let (w, h) = (b.width as int, b.height as int);
    let n = s.loaded(b);
    let c = s.current();
    assert(s.atlases[c].wf());
    assert forall|i: int| 0 <= i < n.atlases.len() implies {
        &&& #[trigger] n.atlases[i].wf()
        &&& n.atlases[i].id == i
        &&& n.atlases[i].width == n.size
        &&& n.atlases[i].height == n.size
    } by {
        if i < c {
            assert(n.atlases[i] == s.atlases[i]);
        }
    }
}

/// Placing a bitmap moves the row baseline up at most once: by the height of the
/// closed row when the bitmap does not fit in what is left of the row, and not at all
/// otherwise; the atlas stays within its texture.
pub proof fn lemma_row_advance(a: AtlasState, w: int, h: int)
    requires
        a.wf(),
        a.fits(w, h),
        a.has_room(w, h),
    ensures
        a.placed(w, h).row_baseline == a.row_baseline + if a.closes_row(w) { a.row_tallest } else { 0 },
        a.placed(w, h).row_extent == if a.closes_row(w) { w } else { a.row_extent + w },
        a.placed(w, h).wf(),
{
}

/// The atlas after bitmaps of sizes `sizes` (width, height) are placed one after
/// another, from `a` on.
pub open spec fn packed(a: AtlasState, sizes: Seq<(int, int)>) -> AtlasState
    decreases sizes.len(),
{
    if sizes.len() == 0 {
        a
    } else {
        packed(a, sizes.drop_last()).placed(sizes.last().0, sizes.last().1)
    }
}

/// Every bitmap of `sizes` fits into an empty atlas and has room where the row cursor
/// stands when its turn comes.
pub open spec fn packs_in(a: AtlasState, sizes: Seq<(int, int)>) -> bool {
    forall|k: int|
        0 <= k < sizes.len() ==> {
            &&& #[trigger] packed(a, sizes.take(k)).fits(sizes[k].0, sizes[k].1)
            &&& packed(a, sizes.take(k)).has_room(sizes[k].0, sizes[k].1)
        }
}

proof fn lemma_packed_step(a: AtlasState, sizes: Seq<(int, int)>, k: int)
    requires
        a.wf(),
        packs_in(a, sizes),
        0 <= k <= sizes.len(),
    ensures
        packed(a, sizes.take(k)).wf(),
        packed(a, sizes.take(k)).width == a.width,
        packed(a, sizes.take(k)).height == a.height,
        k < sizes.len() ==> packed(a, sizes.take(k + 1)) == packed(a, sizes.take(k)).placed(sizes[k].0, sizes[k].1),
    decreases k,
{
    if k < sizes.len() {
        assert(sizes.take(k + 1).drop_last() =~= sizes.take(k));
    }
    if k == 0 {
        assert(sizes.take(0) =~= Seq::<(int, int)>::empty());
    } else {
        lemma_packed_step(a, sizes, k - 1);
        let before = packed(a, sizes.take(k - 1));
        assert(before.fits(sizes[k - 1].0, sizes[k - 1].1));
        lemma_row_advance(before, sizes[k - 1].0, sizes[k - 1].1);
    }
}

/// Over a whole sequence of placements into one atlas: the baseline moves exactly at
/// the placements that close a row, each time by the height of the closed row, and
/// never down; the row cursor only moves left when a row is closed; and every row
/// stays below the top edge.
pub proof fn lemma_rows_over_sequence(a: AtlasState, sizes: Seq<(int, int)>)
    requires
        a.wf(),
        packs_in(a, sizes),
    ensures
        forall|k: int| 0 <= k <= sizes.len() ==> (#[trigger] packed(a, sizes.take(k))).wf(),
        forall|k: int|
            0 <= k < sizes.len() ==> {
                let before = packed(a, sizes.take(k));
                let after = #[trigger] packed(a, sizes.take(k + 1));
                &&& after.row_baseline == before.row_baseline + if before.closes_row(sizes[k].0) {
                    before.row_tallest
                } else {
                    0
                }
                &&& after.row_baseline >= before.row_baseline
                &&& after.row_extent < before.row_extent ==> before.closes_row(sizes[k].0)
                &&& after.row_baseline + after.row_tallest <= a.height
            },
{
    assert forall|k: int| 0 <= k <= sizes.len() implies (#[trigger] packed(a, sizes.take(k))).wf() by {
        lemma_packed_step(a, sizes, k);
    }
    assert forall|k: int| 0 <= k < sizes.len() implies {
        let before = packed(a, sizes.take(k));
        let after = #[trigger] packed(a, sizes.take(k + 1));
        &&& after.row_baseline == before.row_baseline + if before.closes_row(sizes[k].0) {
            before.row_tallest
        } else {
            0
        }
        &&& after.row_baseline >= before.row_baseline
        &&& after.row_extent < before.row_extent ==> before.closes_row(sizes[k].0)
        &&& after.row_baseline + after.row_tallest <= a.height
    } by {
        lemma_packed_step(a, sizes, k);
        lemma_packed_step(a, sizes, k + 1);
        let before = packed(a, sizes.take(k));
        assert(before.fits(sizes[k].0, sizes[k].1));
        lemma_row_advance(before, sizes[k].0, sizes[k].1);
    }
}

/// Every UV rectangle that an atlas hands out lies inside it.
pub proof fn lemma_atlas_uv_within(a: AtlasState, b: RasterizedGlyph)
    requires
        a.wf(),
        a.fits(b.width as int, b.height as int),
        a.has_room(b.width as int, b.height as int),
    ensures
        ({
            let g = a.glyph_for(b);
            &&& 0 <= g.uv_left
            &&& 0 <= g.uv_bot
            &&& g.uv_left + g.uv_width <= a.width
            &&& g.uv_bot + g.uv_height <= a.height
        }),
{
    let c = a.opened(b.width as int);
    assert(0 <= c.row_extent && c.row_extent + b.width <= a.width);
    assert(0 <= c.row_baseline && c.row_baseline + b.height <= a.height);
}

/// Every UV rectangle that loading produces lies inside its atlas, and refers to an
/// atlas of the set.
pub proof fn lemma_uv_within_atlas(s: AtlasSetState, b: RasterizedGlyph)
    requires
        s.wf(),
        s.accepts(b.width as int, b.height as int),
    ensures
        ({
            let g = s.glyph_for(b);
            &&& 0 <= g.uv_left
            &&& 0 <= g.uv_bot
            &&& g.uv_left + g.uv_width <= s.size
            &&& g.uv_bot + g.uv_height <= s.size
            &&& g.uv_width == b.width
            &&& g.uv_height == b.height
            &&& (g.tex_id as int) < s.loaded(b).atlases.len()
        }),
{
    let (w, h) = (b.width as int, b.height as int);
    let t = s.target(w, h);
    let c = t.opened(w);
    assert(s.atlases[s.current()].wf());
    assert(0 <= c.row_extent && c.row_extent + w <= s.size);
    assert(0 <= c.row_baseline && c.row_baseline + h <= s.size);
    lemma_loaded_wf(s, b);
}

/// The state after the bitmaps `bs` are loaded one after another, from `s` on.
pub open spec fn loads(s: AtlasSetState, bs: Seq<RasterizedGlyph>) -> AtlasSetState
    decreases bs.len(),
{
    if bs.len() == 0 {
        s
    } else {
        loads(s, bs.drop_last()).loaded(bs.last())
    }
}

/// Loading one more bitmap extends the sequence of loads by it.
pub proof fn lemma_loads_push(s: AtlasSetState, bs: Seq<RasterizedGlyph>, b: RasterizedGlyph)
    ensures
        loads(s, bs.push(b)) == loads(s, bs).loaded(b),
{
    assert(bs.push(b).drop_last() =~= bs);
}

/// The atlases of one glyph cache. Atlases are added when the current one is full and
/// are only dropped all together; a glyph refers to its atlas by index.
#[derive(Debug)]
pub struct AtlasSet {
    atlases: Vec<Atlas>,
    size: i32,
    uploads: Vec<Upload>,
}

impl View for AtlasSet {
    type V = AtlasSetState;

    closed spec fn view(&self) -> AtlasSetState {
        AtlasSetState {
            atlases: self.atlases@.map_values(|a: Atlas| a@),
            size: self.size as int,
            uploads: self.uploads@,
        }
    }
}

impl AtlasSet {
    /// A set of atlases of side `size`, holding one empty atlas.
    pub fn new(size: i32) -> (r: AtlasSet)
        requires
            0 < size <= i16::MAX,
        ensures
            r@ == AtlasSetState::fresh(size as int),
            r@.wf(),
    {
        let mut atlases: Vec<Atlas> = Vec::new();
        atlases.push(Atlas::new(0, size));
        let r = AtlasSet { atlases, size, uploads: Vec::new() };
        assert(r@.atlases =~= seq![AtlasState::empty(0, size as int)]);
        r
    }

    /// Side length of every atlas of the set.
    pub fn size(&self) -> (r: i32)
        ensures
            r == self@.size,
    {
        self.size
    }

    /// Number of atlases; the last one takes new glyphs.
    pub fn len(&self) -> (r: usize)
        ensures
            r == self@.atlases.len(),
    {
        self.atlases.len()
    }

    /// Packs `glyph` into the current atlas, or into a new one when the current atlas
    /// is full, and queues its bitmap for upload.
    pub fn load_glyph(&mut self, glyph: RasterizedGlyph) -> (r: Result<Glyph, AtlasInsertError>)
        requires
            old(self)@.wf(),
        ensures
            final(self)@.wf(),
            !old(self)@.accepts(glyph.width as int, glyph.height as int) ==> {
                &&& r == Err::<Glyph, AtlasInsertError>(AtlasInsertError::GlyphTooLarge)
                &&& final(self)@ == old(self)@
            },
            old(self)@.accepts(glyph.width as int, glyph.height as int) ==> {
                &&& r == Ok::<Glyph, AtlasInsertError>(old(self)@.glyph_for(glyph))
                &&& final(self)@ == old(self)@.loaded(glyph)
            },
    {
        let ghost s = self@;
        if glyph.width < 0 || glyph.width > self.size || glyph.height < 0 || glyph.height
            > self.size {
            return Err(AtlasInsertError::GlyphTooLarge);
        }
        let last = self.atlases.len() - 1;
        let mut cur = self.atlases[last];
        assert(cur@ == s.atlases[last as int] && s.atlases[last as int].wf());
        let first = cur.insert_inner(&glyph);
        proof {
            lemma_loaded_wf(s, glyph);
        }
        match first {
            Ok(g) => {
                self.atlases.set(last, cur);
                if glyph.width > 0 && glyph.height > 0 {
                    self.uploads.push(
                        Upload { atlas: last, x: g.uv_left as i32, y: g.uv_bot as i32, bitmap: glyph },
                    );
                }
                proof {
                    assert(self@.atlases =~= s.loaded(glyph).atlases);
                }
                Ok(g)
            },
            Err(_) => {
                self.atlases.set(last, cur);
                let id = self.atlases.len();
                let mut fresh = Atlas::new(id, self.size);
                let g = fresh.place(&glyph);
                self.atlases.push(fresh);
                if glyph.width > 0 && glyph.height > 0 {
                    self.uploads.push(Upload { atlas: id, x: 0, y: 0, bitmap: glyph });
                }
                proof {
                    assert(self@.atlases =~= s.loaded(glyph).atlases);
                }
                Ok(g)
            },
        }
    }

    /// Drops every atlas and every pending upload, and starts over with one empty atlas.
    pub fn clear(&mut self)
        requires
            old(self)@.wf(),
        ensures
            final(self)@ == AtlasSetState::fresh(old(self)@.size),
            final(self)@.wf(),
    {
        let mut atlases: Vec<Atlas> = Vec::new();
        atlases.push(Atlas::new(0, self.size));
        assert(atlases@.map_values(|a: Atlas| a@) =~= seq![AtlasState::empty(0, self.size as int)]);
        self.atlases = atlases;
        self.uploads = Vec::new();
        assert(self@.atlases =~= seq![AtlasState::empty(0, self.size as int)]);
        assert(self@.uploads =~= seq![]);
    }

    /// Hands out the bitmaps waiting for upload, oldest first.
    pub fn take_uploads(&mut self) -> (r: Vec<Upload>)
        ensures
            r@ == old(self)@.uploads,
            final(self)@ == (AtlasSetState { uploads: seq![], ..old(self)@ }),
    {
        let mut r: Vec<Upload> = Vec::new();
        std::mem::swap(&mut r, &mut self.uploads);
        assert(self@.uploads =~= seq![]);
        r
    }
}

} // verus!
