//! One frame of text: cells resolved to glyphs, and glyphs gathered into batches
//! that each draw from a single atlas.
use vstd::prelude::*;

use crate::atlas::{AtlasSet, Glyph};
use crate::batch::{instance_of, Batch, InstanceData, RenderableCell};
use crate::font::{FontKey, GlyphKey, Rasterize};
use crate::glyph_cache::{face_of, lemma_get_post, GlyphCache, GlyphError};
use crate::atlas::{lemma_loads_push, loads, AtlasSetState};
use crate::font::{RasterizedGlyph, Size};

verus! {

/// `n` copies of `t`.
pub open spec fn repeat(t: usize, n: nat) -> Seq<usize> {
    Seq::new(n, |_i: int| t)
}

/// The records of all batches, in order.
pub open spec fn flat(bs: Seq<Batch>) -> Seq<InstanceData>
    decreases bs.len(),
{
    if bs.len() == 0 {
        seq![]
    } else {
        flat(bs.drop_last()) + bs.last().instances@
    }
}

/// The atlas that each record of the batches samples, in order.
pub open spec fn tex_flat(bs: Seq<Batch>) -> Seq<usize>
    decreases bs.len(),
{
    if bs.len() == 0 {
        seq![]
    } else {
        tex_flat(bs.drop_last()) + repeat(bs.last().tex, bs.last().instances@.len())
    }
}

/// The records of `cells` drawn with `glyphs`, cell by cell.
pub open spec fn instances_of(cells: Seq<RenderableCell>, glyphs: Seq<Glyph>) -> Seq<InstanceData> {
    Seq::new(cells.len(), |i: int| instance_of(cells[i], glyphs[i]))
}

/// The atlas of each glyph.
pub open spec fn textures(glyphs: Seq<Glyph>) -> Seq<usize> {
    Seq::new(glyphs.len(), |i: int| glyphs[i].tex_id)
}

/// Every batch holds between one and `cap` records, and a batch is only cut off from
/// the next one when the next one draws from another atlas or when it is full.
pub open spec fn well_batched(bs: Seq<Batch>, cap: int) -> bool {
    &&& forall|j: int| 0 <= j < bs.len() ==> 0 < #[trigger] bs[j].instances@.len() <= cap
    &&& forall|j: int|
        0 <= j < bs.len() - 1 ==> #[trigger] bs[j].tex != bs[j + 1].tex || bs[j].instances@.len() == cap
}

/// Number of places where consecutive entries differ.
pub open spec fn transitions(ts: Seq<usize>) -> nat
    decreases ts.len(),
{
    if ts.len() < 2 {
        0
    } else {
        transitions(ts.drop_last()) + if ts[ts.len() - 2] != ts[ts.len() - 1] { 1nat } else { 0nat }
    }
}

/// Number of batches cut off from a next batch that draws from the same atlas.
pub open spec fn capacity_flushes(bs: Seq<Batch>) -> nat
    decreases bs.len(),
{
    if bs.len() < 2 {
        0
    } else {
        capacity_flushes(bs.drop_last()) + if bs[bs.len() - 2].tex == bs[bs.len() - 1].tex { 1nat } else { 0nat }
    }
}

proof fn lemma_flat_push(bs: Seq<Batch>, b: Batch)
    ensures
        flat(bs.push(b)) == flat(bs) + b.instances@,
        tex_flat(bs.push(b)) == tex_flat(bs) + repeat(b.tex, b.instances@.len()),
{
    assert(bs.push(b).drop_last() =~= bs);
}

proof fn lemma_tex_flat_last(bs: Seq<Batch>)
    requires
        bs.len() > 0,
        bs.last().instances@.len() > 0,
    ensures
        tex_flat(bs).len() > 0,
        tex_flat(bs).last() == bs.last().tex,
{
}

proof fn lemma_transitions_append(x: Seq<usize>, t: usize, n: nat)
    requires
        n >= 1,
    ensures
        transitions(x + repeat(t, n)) == transitions(x) + if x.len() > 0 && x.last() != t { 1nat } else { 0nat },
    decreases n,
{
    let s = x + repeat(t, n);
    if n == 1 {
        assert(s.drop_last() =~= x);
        if x.len() == 0 {
            assert(s.len() == 1);
        }
    } else {
        assert(s.drop_last() =~= x + repeat(t, (n - 1) as nat));
        lemma_transitions_append(x, t, (n - 1) as nat);
    }
}

/// Flushes happen exactly at atlas changes and at full batches: the number of
/// batches is the number of atlas changes along the records, plus the number of
/// batches cut off only for being full, plus the final flush.
pub proof fn lemma_flush_count(bs: Seq<Batch>, ts: Seq<usize>, cap: int)
    requires
        well_batched(bs, cap),
        tex_flat(bs) == ts,
    ensures
        bs.len() == transitions(ts) + capacity_flushes(bs) + if ts.len() > 0 { 1int } else { 0int },
        forall|j: int| 0 <= j < bs.len() - 1 && #[trigger] bs[j].tex == bs[j + 1].tex ==> bs[j].instances@.len() == cap,
    decreases bs.len(),
{
    if bs.len() > 0 {
        let init = bs.drop_last();
        let b = bs.last();
        assert(init.push(b) =~= bs);
        assert(well_batched(init, cap)) by {
            assert forall|j: int| 0 <= j < init.len() - 1 implies #[trigger] init[j].tex != init[j + 1].tex || init[j].instances@.len() == cap by {
                assert(bs[j].tex != bs[j + 1].tex || bs[j].instances@.len() == cap);
            }
            assert forall|j: int| 0 <= j < init.len() implies 0 < #[trigger] init[j].instances@.len() <= cap by {
                assert(0 < bs[j].instances@.len() <= cap);
            }
        }
        lemma_flush_count(init, tex_flat(init), cap);
        assert(0 < bs[bs.len() - 1].instances@.len());
        lemma_transitions_append(tex_flat(init), b.tex, b.instances@.len());
        if init.len() > 0 {
            assert(0 < init[init.len() - 1].instances@.len());
            lemma_tex_flat_last(init);
        } else {
            assert(tex_flat(init) =~= seq![]);
        }
    }
}

/// Appending a batch that is cut off from the last one for a reason keeps the
/// batching well formed.
proof fn lemma_push_batch(bs: Seq<Batch>, b: Batch, cap: int)
    requires
        well_batched(bs, cap),
        0 < b.instances@.len() <= cap,
        bs.len() > 0 ==> bs.last().tex != b.tex || bs.last().instances@.len() == cap,
    ensures
        well_batched(bs.push(b), cap),
{
    let n = bs.push(b);
    assert forall|j: int| 0 <= j < n.len() - 1 implies #[trigger] n[j].tex != n[j + 1].tex || n[j].instances@.len() == cap by {
        if j < bs.len() - 1 {
            assert(bs[j].tex != bs[j + 1].tex || bs[j].instances@.len() == cap);
        }
    }
    assert forall|j: int| 0 <= j < n.len() implies 0 < #[trigger] n[j].instances@.len() <= cap by {
        if j < bs.len() {
            assert(0 < bs[j].instances@.len() <= cap);
        }
    }
}

/// Splits the records of `cells`, drawn with `glyphs`, into batches: a batch is
/// flushed before a glyph from another atlas is added, and as soon as it holds
/// `capacity` records; what is left is flushed at the end.
pub fn batch_cells(cells: &Vec<RenderableCell>, glyphs: &Vec<Glyph>, capacity: usize) -> (bs: Vec<Batch>)
    requires
        cells@.len() == glyphs@.len(),
        capacity > 0,
    ensures
        flat(bs@) == instances_of(cells@, glyphs@),
        tex_flat(bs@) == textures(glyphs@),
        well_batched(bs@, capacity as int),
{
    let mut flushed: Vec<Batch> = Vec::new();
    let mut batch = Batch::new();
    let n = cells.len();
    let mut i: usize = 0;
    while i < n
        invariant
            n == cells@.len() == glyphs@.len(),
            capacity > 0,
            0 <= i <= n,
            flat(flushed@) + batch.instances@ == instances_of(cells@, glyphs@).take(i as int),
            tex_flat(flushed@) + repeat(batch.tex, batch.instances@.len()) == textures(glyphs@).take(i as int),
            well_batched(flushed@, capacity as int),
            batch.instances@.len() < capacity,
            flushed@.len() > 0 ==> flushed@.last().instances@.len() == capacity || (batch.instances@.len() > 0
                && flushed@.last().tex != batch.tex),
        decreases n - i,
    {
        let glyph = glyphs[i];
        let ghost inst = instances_of(cells@, glyphs@);
        let ghost texs = textures(glyphs@);
        assert(inst.take(i + 1) =~= inst.take(i as int).push(instance_of(cells@[i as int], glyph)));
        assert(texs.take(i + 1) =~= texs.take(i as int).push(glyph.tex_id));
        if batch.len() > 0 && batch.tex != glyph.tex_id {
            let mut done = Batch::new();
            std::mem::swap(&mut done, &mut batch);
            proof {
                lemma_flat_push(flushed@, done);
                assert(batch.instances@ =~= seq![]);
                assert(repeat(batch.tex, 0) =~= seq![]);
            }
            proof {
                lemma_push_batch(flushed@, done, capacity as int);
            }
            flushed.push(done);
        }
        let ghost before = batch.instances@;
        batch.add_item(&cells[i], &glyph);
        proof {
            if before.len() == 0 {
                assert(repeat(batch.tex, 1) =~= seq![glyph.tex_id]);
                assert(repeat(batch.tex, 0) =~= seq![]);
            } else {
                assert(repeat(batch.tex, before.len()).push(batch.tex) =~= repeat(batch.tex, before.len() + 1));
            }
        }
        if batch.len() >= capacity {
            let mut done = Batch::new();
            std::mem::swap(&mut done, &mut batch);
            proof {
                lemma_flat_push(flushed@, done);
                assert(batch.instances@ =~= seq![]);
                assert(repeat(batch.tex, 0) =~= seq![]);
            }
            proof {
                lemma_push_batch(flushed@, done, capacity as int);
            }
            flushed.push(done);
        }
        i = i + 1;
    }
    if batch.len() > 0 {
        proof {
            lemma_flat_push(flushed@, batch);
        }
        proof {
            lemma_push_batch(flushed@, batch, capacity as int);
        }
        flushed.push(batch);
    } else {
        assert(repeat(batch.tex, 0) =~= seq![]);
    }
    assert(instances_of(cells@, glyphs@).take(n as int) =~= instances_of(cells@, glyphs@));
    assert(textures(glyphs@).take(n as int) =~= textures(glyphs@));
    flushed
}

/// The font variant that a cell's style selects.
pub open spec fn cell_font<R: Rasterize>(cache: GlyphCache<R>, cell: RenderableCell) -> FontKey {
    if cell.bold && cell.italic {
        cache.bold_italic_key
    } else if cell.bold {
        cache.bold_key
    } else if cell.italic {
        cache.italic_key
    } else {
        cache.font_key
    }
}

/// The glyph key of a cell.
pub open spec fn cell_key<R: Rasterize>(cache: GlyphCache<R>, cell: RenderableCell) -> GlyphKey {
    GlyphKey { character: cell.character, font_key: cell_font(cache, cell), size: cache.font_size }
}

/// Every cell's glyph is in the cache.
pub open spec fn all_cached<R: Rasterize>(cache: GlyphCache<R>, cells: Seq<RenderableCell>) -> bool {
    forall|i: int| 0 <= i < cells.len() ==> cache.cache@.contains_key(#[trigger] cell_key(cache, cells[i]))
}

/// The cached glyph of each cell.
pub open spec fn glyphs_for<R: Rasterize>(cache: GlyphCache<R>, cells: Seq<RenderableCell>) -> Seq<Glyph> {
    Seq::new(cells.len(), |i: int| cache.cache@[cell_key(cache, cells[i])])
}

/// The font variant that the style of `cell` selects.
pub fn font_for<R: Rasterize>(cache: &GlyphCache<R>, cell: &RenderableCell) -> (r: FontKey)
    ensures
        r == cell_font(*cache, *cell),
{
    if cell.bold && cell.italic {
        cache.bold_italic_key
    } else if cell.bold {
        cache.bold_key
    } else if cell.italic {
        cache.italic_key
    } else {
        cache.font_key
    }
}

/// Looks up, or rasterizes and packs, the glyph of every cell, substituting the
/// fallback glyph for characters that no font has.
pub fn resolve_glyphs<R: Rasterize>(
    cells: &Vec<RenderableCell>,
    cache: &mut GlyphCache<R>,
    loader: &mut AtlasSet,
) -> (r: Result<Vec<Glyph>, GlyphError>)
    requires
        old(loader)@.wf(),
    ensures
        final(loader)@.wf(),
        final(cache).same_keys(old(cache)),
        old(cache).cache@.submap_of(final(cache).cache@),
        r is Ok ==> {
            &&& forall|i: int| 0 <= i < cells@.len() ==> final(cache).cache@.contains_key(#[trigger] cell_key(*final(cache), cells@[i]))
            &&& r->Ok_0@ == glyphs_for(*final(cache), cells@)
        },
        r is Err ==> r->Err_0 is GlyphTooLarge,
        all_cached(*old(cache), cells@) ==> {
            &&& r is Ok
            &&& r->Ok_0@ == glyphs_for(*old(cache), cells@)
            &&& *final(cache) == *old(cache)
            &&& final(loader)@ == old(loader)@
        },
        r is Err ==> exists|i: int| 0 <= i < cells@.len() && !old(cache).cache@.contains_key(#[trigger] cell_key(*old(cache), cells@[i])),
        grown_by(*old(cache), old(loader)@, cells@, *final(cache), final(loader)@),
{
    proof {
        assert(loads(old(loader)@, seq![]) == old(loader)@);
    }
    let mut glyphs: Vec<Glyph> = Vec::new();
    let n = cells.len();
    let mut i: usize = 0;
    while i < n
        invariant
            n == cells@.len(),
            0 <= i <= n,
            loader@.wf(),
            cache.same_keys(old(cache)),
            old(cache).cache@.submap_of(cache.cache@),
            glyphs@.len() == i,
            forall|j: int| 0 <= j < i ==> cache.cache@.contains_key(#[trigger] cell_key(*cache, cells@[j])),
            forall|j: int| 0 <= j < i ==> #[trigger] glyphs@[j] == cache.cache@[cell_key(*cache, cells@[j])],
            all_cached(*old(cache), cells@) ==> *cache == *old(cache) && loader@ == old(loader)@,
            grown_by(*old(cache), old(loader)@, cells@, *cache, loader@),
        decreases n - i,
    {
        let cell = &cells[i];
        let key = GlyphKey { character: cell.character, font_key: font_for(cache, cell), size: cache.font_size };
        let ghost c0 = *cache;
        let ghost l0 = loader@;
        let r = cache.get(key, loader, true);
        proof {
            lemma_get_post(c0, l0, key, true, *cache, loader@, r);
            if all_cached(*old(cache), cells@) {
                assert(key == cell_key(*old(cache), cells@[i as int]));
                assert(c0.cache@.contains_key(key));
            }
            assert(key == cell_key(*old(cache), cells@[i as int]));
            let bs0 = choose|bs: Seq<RasterizedGlyph>| l0 == #[trigger] loads(old(loader)@, bs);
            if loader@ == l0 {
                assert(loader@ == loads(old(loader)@, bs0));
            } else {
                let b = choose|b: RasterizedGlyph| loader@ == #[trigger] l0.loaded(b);
                lemma_loads_push(old(loader)@, bs0, b);
                assert(loader@ == loads(old(loader)@, bs0.push(b)));
            }
            assert forall|k: GlyphKey| #[trigger] cache.cache@.contains_key(k) implies old(cache).cache@.contains_key(k) || exists|j: int|
                0 <= j < cells@.len() && k == #[trigger] cell_key(*old(cache), cells@[j]) by {
                if !c0.cache@.contains_key(k) {
                    assert(k == cell_key(*old(cache), cells@[i as int]));
                }
            }
            assert forall|f: (FontKey, Size)| #[trigger] cache.cache.fallbacks().contains_key(f) implies old(cache).cache.fallbacks().contains_key(f)
                || exists|j: int| 0 <= j < cells@.len() && f == face_of(#[trigger] cell_key(*old(cache), cells@[j])) by {
                if !c0.cache.fallbacks().contains_key(f) {
                    assert(f == face_of(cell_key(*old(cache), cells@[i as int])));
                }
            }
            assert forall|k: GlyphKey| #[trigger] old(cache).cache@.contains_key(k) implies cache.cache@.contains_key(k)
                && cache.cache@[k] == old(cache).cache@[k] by {
                assert(c0.cache@.contains_key(k));
            }
            assert forall|j: int| 0 <= j < i implies cache.cache@.contains_key(#[trigger] cell_key(*cache, cells@[j])) by {
                assert(cell_key(*cache, cells@[j]) == cell_key(c0, cells@[j]));
                assert(c0.cache@.contains_key(cell_key(c0, cells@[j])));
            }
        }
        match r {
            Ok(g) => {
                glyphs.push(g);
                proof {
                    assert(key == cell_key(*cache, cells@[i as int]));
                    assert forall|j: int| 0 <= j < i + 1 implies #[trigger] glyphs@[j] == cache.cache@[cell_key(*cache, cells@[j])] by {
                        if j < i {
                            assert(cell_key(*cache, cells@[j]) == cell_key(c0, cells@[j]));
                            assert(c0.cache@.contains_key(cell_key(c0, cells@[j])));
                        }
                    }
                }
            },
            Err(e) => {
                proof {
                    assert(key == cell_key(*old(cache), cells@[i as int]));
                }
                return Err(e);
            },
        }
        i = i + 1;
    }
    proof {
        assert(glyphs@ =~= glyphs_for(*cache, cells@));
    }
    Ok(glyphs)
}

/// The two passes that draw every batch.
#[derive(Clone, Copy, Debug, PartialEq, Eq, Structural)]
pub enum RenderPass {
    /// Opaque cell backgrounds.
    Background,
    /// Glyph foregrounds, blended over the backgrounds.
    Foreground,
}

/// One instanced draw: `count` records of a batch, sampling atlas `tex`.
#[derive(Clone, Copy, Debug, PartialEq, Eq, Structural)]
pub struct DrawCall {
    pub tex: usize,
    pub count: usize,
    pub pass: RenderPass,
}

/// The two draws that flush one batch, over the same records.
#[derive(Clone, Copy, Debug, PartialEq, Eq, Structural)]
pub struct Flush {
    pub background: DrawCall,
    pub foreground: DrawCall,
}

/// The flush of batch `b`: its backgrounds first, then its glyphs.
pub open spec fn flush_of(b: Batch) -> Flush {
    Flush {
        background: DrawCall { tex: b.tex, count: b.instances@.len() as usize, pass: RenderPass::Background },
        foreground: DrawCall { tex: b.tex, count: b.instances@.len() as usize, pass: RenderPass::Foreground },
    }
}

/// The flushes of a frame, batch after batch.
pub fn plan_draws(batches: &Vec<Batch>) -> (r: Vec<Flush>)
    ensures
        r@.len() == batches@.len(),
        forall|j: int| 0 <= j < batches@.len() ==> #[trigger] r@[j] == flush_of(batches@[j]),
{
    let mut r: Vec<Flush> = Vec::new();
    let mut j: usize = 0;
    while j < batches.len()
        invariant
            0 <= j <= batches@.len(),
            r@.len() == j,
            forall|i: int| 0 <= i < j ==> #[trigger] r@[i] == flush_of(batches@[i]),
        decreases batches@.len() - j,
    {
        let b = &batches[j];
        let count = b.len();
        r.push(Flush {
            background: DrawCall { tex: b.tex, count, pass: RenderPass::Background },
            foreground: DrawCall { tex: b.tex, count, pass: RenderPass::Foreground },
        });
        j = j + 1;
    }
    r
}

/// The GPU work of one frame: the batches, in drawing order, and the two draws that
/// flush each of them.
pub struct Frame {
    pub batches: Vec<Batch>,
    pub flushes: Vec<Flush>,
}

/// Draws one frame of cells: resolves their glyphs, gathers the records into batches
/// of at most `capacity` records that each sample a single atlas, in the order of the
/// cells, and plans two draws per batch.
pub fn draw_cells<R: Rasterize>(
    cells: &Vec<RenderableCell>,
    cache: &mut GlyphCache<R>,
    loader: &mut AtlasSet,
    capacity: usize,
) -> (r: Result<Frame, GlyphError>)
    requires
        old(loader)@.wf(),
        capacity > 0,
    ensures
        final(loader)@.wf(),
        final(cache).same_keys(old(cache)),
        old(cache).cache@.submap_of(final(cache).cache@),
        grown_by(*old(cache), old(loader)@, cells@, *final(cache), final(loader)@),
        r is Ok ==> {
            let glyphs = glyphs_for(*final(cache), cells@);
            let frame = r->Ok_0;
            &&& forall|i: int| 0 <= i < cells@.len() ==> final(cache).cache@.contains_key(#[trigger] cell_key(*final(cache), cells@[i]))
            &&& flat(frame.batches@) == instances_of(cells@, glyphs)
            &&& tex_flat(frame.batches@) == textures(glyphs)
            &&& well_batched(frame.batches@, capacity as int)
            &&& frame.flushes@.len() == frame.batches@.len()
            &&& forall|j: int| 0 <= j < frame.batches@.len() ==> #[trigger] frame.flushes@[j] == flush_of(frame.batches@[j])
        },
        r is Err ==> r->Err_0 is GlyphTooLarge,
        all_cached(*old(cache), cells@) ==> {
            &&& r is Ok
            &&& *final(cache) == *old(cache)
            &&& final(loader)@ == old(loader)@
        },
        r is Err ==> exists|i: int| 0 <= i < cells@.len() && !old(cache).cache@.contains_key(#[trigger] cell_key(*old(cache), cells@[i])),
{
    match resolve_glyphs(cells, cache, loader) {
        Ok(glyphs) => {
            let batches = batch_cells(cells, &glyphs, capacity);
            let flushes = plan_draws(&batches);
            Ok(Frame { batches, flushes })
        },
        Err(e) => Err(e),
    }
}

/// Batches cut off by an atlas change before they were full.
pub open spec fn atlas_change_flushes(bs: Seq<Batch>, cap: int) -> nat
    decreases bs.len(),
{
    if bs.len() < 2 {
        0
    } else {
        atlas_change_flushes(bs.drop_last(), cap) + if bs[bs.len() - 2].tex != bs[bs.len() - 1].tex
            && bs[bs.len() - 2].instances@.len() != cap { 1nat } else { 0nat }
    }
}

/// Batches flushed because an add made them full.
pub open spec fn full_batches(bs: Seq<Batch>, cap: int) -> nat
    decreases bs.len(),
{
    if bs.len() == 0 {
        0
    } else {
        full_batches(bs.drop_last(), cap) + if bs.last().instances@.len() == cap { 1nat } else { 0nat }
    }
}

/// Flushes by cause: every flush before the final one is either an atlas change met
/// by a batch that is not full, or a batch that an add made full; the final flush
/// happens exactly when records are left over, that is when the last batch is not full.
pub proof fn lemma_flush_causes(bs: Seq<Batch>, cap: int)
    requires
        well_batched(bs, cap),
    ensures
        bs.len() == atlas_change_flushes(bs, cap) + full_batches(bs, cap) + if bs.len() > 0
            && bs.last().instances@.len() != cap { 1int } else { 0int },
    decreases bs.len(),
{
    if bs.len() > 0 {
        let init = bs.drop_last();
        assert(well_batched(init, cap)) by {
            assert forall|j: int| 0 <= j < init.len() - 1 implies #[trigger] init[j].tex != init[j + 1].tex || init[j].instances@.len() == cap by {
                assert(bs[j].tex != bs[j + 1].tex || bs[j].instances@.len() == cap);
            }
            assert forall|j: int| 0 <= j < init.len() implies 0 < #[trigger] init[j].instances@.len() <= cap by {
                assert(0 < bs[j].instances@.len() <= cap);
            }
        }
        lemma_flush_causes(init, cap);
        if init.len() > 0 {
            assert(bs[bs.len() - 2].tex != bs[bs.len() - 1].tex || bs[bs.len() - 2].instances@.len() == cap);
            assert(init.last() == bs[bs.len() - 2]);
        }
    }
}

/// What a frame may have added: only the keys of its cells to the cache, only their
/// faces to the fallbacks, and only loaded bitmaps to the atlases.
pub open spec fn grown_by<R: Rasterize>(
    c0: GlyphCache<R>,
    l0: AtlasSetState,
    cells: Seq<RenderableCell>,
    c1: GlyphCache<R>,
    l1: AtlasSetState,
) -> bool {
    &&& exists|bs: Seq<RasterizedGlyph>| l1 == #[trigger] loads(l0, bs)
    &&& forall|k: GlyphKey| #[trigger] c1.cache@.contains_key(k) ==> c0.cache@.contains_key(k) || exists|i: int|
        0 <= i < cells.len() && k == #[trigger] cell_key(c0, cells[i])
    &&& forall|f: (FontKey, Size)| #[trigger] c1.cache.fallbacks().contains_key(f) ==> c0.cache.fallbacks().contains_key(f)
        || exists|i: int| 0 <= i < cells.len() && f == face_of(#[trigger] cell_key(c0, cells[i]))
}

} // verus!
