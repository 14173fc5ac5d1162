//! The glyph cache: glyph keys mapped to glyphs packed into the atlases.
//!
//! A key is rasterized at most once until the cache is cleared. Two kinds of failure
//! are told apart: a character that no font has is drawn with the fallback bitmap the
//! rasterizer hands back, packed once per font and size and shared by every such
//! character; any other failure caches an empty glyph under the key itself.
use std::collections::HashMap;

use vstd::prelude::*;

use crate::atlas::{lemma_loads_push, loads, AtlasSet, AtlasSetState, Glyph};
use crate::font::{Error, FontDesc, FontKey, GlyphKey, Metrics, RasterizedGlyph, Rasterize, Size, Style};

verus! {

broadcast use vstd::std_specs::hash::group_hash_axioms;

/// Display width of `c` in columns, as unicode-width reports it.
pub uninterp spec fn width_of(c: char) -> Option<usize>;

/// Relies on `unicode_width::UnicodeWidthChar::width`: the width of a character
/// depends on the character alone, and printable ASCII is one column wide.
#[verifier::external_body]
fn char_width(c: char) -> (r: Option<usize>)
    ensures
        r == width_of(c),
        (' ' <= c && c <= '~') ==> r == Some(1usize),
{
    unicode_width::UnicodeWidthChar::width(c)
}

/// Why a glyph could not be resolved.
#[derive(Debug)]
pub enum GlyphError {
    /// The rasterizer failed, and the failure is not recovered here.
    Rasterizer(Error),
    /// The bitmap does not fit into an empty atlas.
    GlyphTooLarge,
}

/// A font at one size: the face under which its one fallback glyph is cached, apart
/// from the glyphs of its characters.
pub open spec fn face_of(k: GlyphKey) -> (FontKey, Size) {
    (k.font_key, k.size)
}

/// The bitmap with its bearing moved into cell coordinates: up by the font's descent,
/// and, for a zero-width character, right by one average advance so that it is drawn
/// over the preceding cell.
pub open spec fn corrected(b: RasterizedGlyph, m: Metrics, zero_width: bool) -> RasterizedGlyph {
    RasterizedGlyph {
        top: b.top.wrapping_sub(m.descent),
        left: if zero_width { b.left.wrapping_add(m.average_advance) } else { b.left },
        ..b
    }
}

/// The correction applied to `b` in a font with metrics `m`.
pub open spec fn adjusted(b: RasterizedGlyph, m: Metrics) -> RasterizedGlyph {
    corrected(b, m, width_of(b.character) == Some(0usize))
}

/// Atlases and result after the corrected `b` is packed.
pub open spec fn load_outcome(atl: AtlasSetState, m: Metrics, b: RasterizedGlyph) -> (AtlasSetState, Result<Glyph, GlyphError>) {
    let a = adjusted(b, m);
    if atl.accepts(a.width as int, a.height as int) {
        (atl.loaded(a), Ok(atl.glyph_for(a)))
    } else {
        (atl, Err(GlyphError::GlyphTooLarge))
    }
}

/// `cached` with `k` mapped to the glyph of `r`, if there is one.
pub open spec fn stored<K>(cached: Map<K, Glyph>, k: K, r: Result<Glyph, GlyphError>) -> Map<K, Glyph> {
    match r {
        Ok(g) => cached.insert(k, g),
        Err(_) => cached,
    }
}

/// The glyph that stands in for a glyph the rasterizer failed on: the empty bitmap of
/// a space, corrected like any other, at the row cursor of the current atlas.
pub open spec fn default_glyph(atl: AtlasSetState, m: Metrics) -> Glyph {
    let left = if width_of(' ') == Some(0usize) { 0i32.wrapping_add(m.average_advance) } else { 0i32 };
    atl.atlases[atl.current()].glyph_at(0, 0, 0i32.wrapping_sub(m.descent), left, false)
}

/// Cached glyphs, cached fallbacks, atlases and result once the rasterizer answered
/// `res` for `key`.
///
/// A bitmap is corrected and packed. A missing character is, when `show_missing`
/// holds, drawn with the one fallback glyph of its font and size, packed the first
/// time and shared after that; otherwise the failure is returned. Any other failure
/// caches an empty glyph, so that the key is not rasterized again.
pub open spec fn outcome(
    cached: Map<GlyphKey, Glyph>,
    fallbacks: Map<(FontKey, Size), Glyph>,
    atl: AtlasSetState,
    m: Metrics,
    key: GlyphKey,
    res: Result<RasterizedGlyph, Error>,
    show_missing: bool,
) -> (Map<GlyphKey, Glyph>, Map<(FontKey, Size), Glyph>, AtlasSetState, Result<Glyph, GlyphError>) {
    match res {
        Ok(b) => {
            let (a1, r) = load_outcome(atl, m, b);
            (stored(cached, key, r), fallbacks, a1, r)
        },
        Err(Error::MissingGlyph(b)) => {
            if !show_missing {
                (cached, fallbacks, atl, Err(GlyphError::Rasterizer(Error::MissingGlyph(b))))
            } else if fallbacks.contains_key(face_of(key)) {
                let g = fallbacks[face_of(key)];
                (cached.insert(key, g), fallbacks, atl, Ok(g))
            } else {
                let (a1, r) = load_outcome(atl, m, b);
                (stored(cached, key, r), stored(fallbacks, face_of(key), r), a1, r)
            }
        },
        Err(_) => {
            let g = default_glyph(atl, m);
            (cached.insert(key, g), fallbacks, atl, Ok(g))
        },
    }
}

/// The hash-map key of the fallback glyph of a face: a flag bit above every glyph
/// key's code, then font token and size.
pub open spec fn fallback_code(f: (FontKey, Size)) -> u128 {
    (1u128 << 96u128) | ((f.0.token as u128) << 64u128) | ((f.1.0 as u16 as u128) << 32u128)
}

proof fn lemma_fallback_code(a: (FontKey, Size), b: (FontKey, Size), k: GlyphKey)
    ensures
        fallback_code(a) == fallback_code(b) ==> a == b,
        fallback_code(a) != key_code(k),
{
    let (t1, s1) = (a.0.token, a.1.0);
    let (t2, s2) = (b.0.token, b.1.0);
    let (t, sz, c) = (k.font_key.token, k.size.0, k.character as u32);
    assert(((1u128 << 96u128) | ((t1 as u128) << 64u128) | ((s1 as u16 as u128) << 32u128)) == (
    (1u128 << 96u128) | ((t2 as u128) << 64u128) | ((s2 as u16 as u128) << 32u128)) ==> t1 == t2
        && s1 == s2) by (bit_vector);
    assert(((1u128 << 96u128) | ((t1 as u128) << 64u128) | ((s1 as u16 as u128) << 32u128)) != (((
    t as u128) << 64u128) | ((sz as u16 as u128) << 32u128) | (c as u128))) by (bit_vector);
}

/// The hash-map key of a glyph key: font token, size and code point side by side.
pub open spec fn key_code(k: GlyphKey) -> u128 {
    ((k.font_key.token as u128) << 64u128) | ((k.size.0 as u16 as u128) << 32u128) | (
    k.character as u32 as u128)
}

proof fn lemma_key_code_injective(a: GlyphKey, b: GlyphKey)
    ensures
        key_code(a) == key_code(b) ==> a == b,
{
    let (t1, s1, c1) = (a.font_key.token, a.size.0, a.character as u32);
    let (t2, s2, c2) = (b.font_key.token, b.size.0, b.character as u32);
    assert((((t1 as u128) << 64u128) | ((s1 as u16 as u128) << 32u128) | (c1 as u128)) == (((
    t2 as u128) << 64u128) | ((s2 as u16 as u128) << 32u128) | (c2 as u128)) ==> t1 == t2 && s1
        == s2 && c1 == c2) by (bit_vector);
}

/// Corrects the bearing of `b` for a font with metrics `m`.
pub fn correct_bitmap(b: RasterizedGlyph, m: &Metrics, zero_width: bool) -> (r: RasterizedGlyph)
    ensures
        r == corrected(b, *m, zero_width),
{
    let mut b = b;
    b.top = b.top.wrapping_sub(m.descent);
    if zero_width {
        b.left = b.left.wrapping_add(m.average_advance);
    }
    b
}

/// Glyphs by glyph key, and the fallback glyph of each face, kept apart.
pub struct GlyphMap {
    map: HashMap<u128, Glyph>,
}

impl View for GlyphMap {
    type V = Map<GlyphKey, Glyph>;

    closed spec fn view(&self) -> Map<GlyphKey, Glyph> {
        Map::new(|k: GlyphKey| self.map@.contains_key(key_code(k)), |k: GlyphKey| self.map@[key_code(k)])
    }
}

impl GlyphMap {
    /// The fallback glyphs, by face.
    pub closed spec fn fallbacks(&self) -> Map<(FontKey, Size), Glyph> {
        Map::new(
            |f: (FontKey, Size)| self.map@.contains_key(fallback_code(f)),
            |f: (FontKey, Size)| self.map@[fallback_code(f)],
        )
    }

    pub fn new() -> (r: GlyphMap)
        ensures
            r@ == Map::<GlyphKey, Glyph>::empty(),
            r.fallbacks() == Map::<(FontKey, Size), Glyph>::empty(),
    {
        let r = GlyphMap { map: HashMap::new() };
        assert(r@ =~= Map::<GlyphKey, Glyph>::empty());
        assert(r.fallbacks() =~= Map::<(FontKey, Size), Glyph>::empty());
        r
    }

    fn code(k: &GlyphKey) -> (r: u128)
        ensures
            r == key_code(*k),
    {
        ((k.font_key.token as u128) << 64u128) | (((k.size.0 as u16) as u128) << 32u128) | ((
        k.character as u32) as u128)
    }

    fn face_code(font: FontKey, size: Size) -> (r: u128)
        ensures
            r == fallback_code((font, size)),
    {
        (1u128 << 96u128) | ((font.token as u128) << 64u128) | (((size.0 as u16) as u128) << 32u128)
    }

    pub fn insert(&mut self, k: GlyphKey, g: Glyph)
        ensures
            final(self)@ == old(self)@.insert(k, g),
            final(self).fallbacks() == old(self).fallbacks(),
    {
        let code = Self::code(&k);
        self.map.insert(code, g);
        proof {
            assert forall|j: GlyphKey| #[trigger] key_code(j) == key_code(k) implies j == k by {
                lemma_key_code_injective(j, k);
            }
            assert forall|f: (FontKey, Size)| #[trigger] fallback_code(f) != key_code(k) by {
                lemma_fallback_code(f, f, k);
            }
            assert(self@ =~= old(self)@.insert(k, g));
            assert(self.fallbacks() =~= old(self).fallbacks());
        }
    }

    pub fn get(&self, k: &GlyphKey) -> (r: Option<Glyph>)
        ensures
            self@.contains_key(*k) ==> r == Some(self@[*k]),
            !self@.contains_key(*k) ==> r.is_none(),
    {
        let code = Self::code(k);
        match self.map.get(&code) {
            Some(g) => Some(*g),
            None => None,
        }
    }

    /// Caches `g` as the fallback glyph of `font` at `size`.
    pub fn insert_fallback(&mut self, font: FontKey, size: Size, g: Glyph)
        ensures
            final(self)@ == old(self)@,
            final(self).fallbacks() == old(self).fallbacks().insert((font, size), g),
    {
        let code = Self::face_code(font, size);
        self.map.insert(code, g);
        proof {
            assert forall|j: GlyphKey| #[trigger] key_code(j) != fallback_code((font, size)) by {
                lemma_fallback_code((font, size), (font, size), j);
            }
            assert forall|f: (FontKey, Size)| #[trigger] fallback_code(f) == fallback_code((font, size)) implies f == (font, size) by {
                lemma_fallback_code(f, (font, size), GlyphKey { character: ' ', font_key: font, size });
            }
            assert(self@ =~= old(self)@);
            assert(self.fallbacks() =~= old(self).fallbacks().insert((font, size), g));
        }
    }

    /// The fallback glyph of `font` at `size`, if it is cached.
    pub fn get_fallback(&self, font: FontKey, size: Size) -> (r: Option<Glyph>)
        ensures
            self.fallbacks().contains_key((font, size)) ==> r == Some(self.fallbacks()[(font, size)]),
            !self.fallbacks().contains_key((font, size)) ==> r.is_none(),
    {
        let code = Self::face_code(font, size);
        match self.map.get(&code) {
            Some(g) => Some(*g),
            None => None,
        }
    }

    pub fn clear(&mut self)
        ensures
            final(self)@ == Map::<GlyphKey, Glyph>::empty(),
            final(self).fallbacks() == Map::<(FontKey, Size), Glyph>::empty(),
    {
        self.map.clear();
        assert(self@ =~= Map::<GlyphKey, Glyph>::empty());
        assert(self.fallbacks() =~= Map::<(FontKey, Size), Glyph>::empty());
    }
}

/// Glyphs packed so far, by glyph key, and the fonts they are drawn from.
pub struct GlyphCache<R: Rasterize> {
    pub cache: GlyphMap,
    pub rasterizer: R,
    pub font_key: FontKey,
    pub bold_key: FontKey,
    pub italic_key: FontKey,
    pub bold_italic_key: FontKey,
    pub font_size: Size,
    pub metrics: Metrics,
}

impl<R: Rasterize> GlyphCache<R> {
    /// The same fonts, size and metrics.
    pub open spec fn same_keys(&self, other: &Self) -> bool {
        &&& self.font_key == other.font_key
        &&& self.bold_key == other.bold_key
        &&& self.italic_key == other.italic_key
        &&& self.bold_italic_key == other.bold_italic_key
        &&& self.font_size == other.font_size
        &&& self.metrics == other.metrics
    }

    /// Corrects the bearing of a rasterized glyph and packs it into the atlases.
    pub fn load_glyph(&self, loader: &mut AtlasSet, glyph: RasterizedGlyph) -> (r: Result<Glyph, GlyphError>)
        requires
            old(loader)@.wf(),
        ensures
            final(loader)@.wf(),
            (final(loader)@, r) == load_outcome(old(loader)@, self.metrics, glyph),
    {
        let zero_width = match char_width(glyph.character) {
            Some(w) => w == 0,
            None => false,
        };
        let glyph = correct_bitmap(glyph, &self.metrics, zero_width);
        match loader.load_glyph(glyph) {
            Ok(g) => Ok(g),
            Err(_) => Err(GlyphError::GlyphTooLarge),
        }
    }

    /// Resolves `glyph_key` from what the rasterizer answered for it, and caches the
    /// result; see [`outcome`].
    pub fn cache_rasterized(
        &mut self,
        glyph_key: GlyphKey,
        rasterized: Result<RasterizedGlyph, Error>,
        loader: &mut AtlasSet,
        show_missing: bool,
    ) -> (r: Result<Glyph, GlyphError>)
        requires
            old(loader)@.wf(),
        ensures
            final(loader)@.wf(),
            (final(self).cache@, final(self).cache.fallbacks(), final(loader)@, r) == outcome(
                old(self).cache@,
                old(self).cache.fallbacks(),
                old(loader)@,
                old(self).metrics,
                glyph_key,
                rasterized,
                show_missing,
            ),
            final(self).same_keys(old(self)),
            final(self).rasterizer == old(self).rasterizer,
    {
        match rasterized {
            Ok(b) => {
                let r = self.load_glyph(loader, b);
                if let Ok(g) = r {
                    self.cache.insert(glyph_key, g);
                }
                r
            },
            Err(Error::MissingGlyph(b)) => {
                if !show_missing {
                    return Err(GlyphError::Rasterizer(Error::MissingGlyph(b)));
                }
                match self.cache.get_fallback(glyph_key.font_key, glyph_key.size) {
                    Some(g) => {
                        self.cache.insert(glyph_key, g);
                        Ok(g)
                    },
                    None => {
                        let r = self.load_glyph(loader, b);
                        if let Ok(g) = r {
                            self.cache.insert_fallback(glyph_key.font_key, glyph_key.size, g);
                            self.cache.insert(glyph_key, g);
                        }
                        r
                    },
                }
            },
            Err(_) => {
                let ghost l0 = loader@;
                let empty = RasterizedGlyph::default();
                let r = self.load_glyph(loader, empty);
                proof {
                    let cur = l0.atlases[l0.current()];
                    assert(cur.wf());
                    assert(l0.atlases.update(l0.current(), cur) =~= l0.atlases);
                }
                match r {
                    Ok(g) => {
                        self.cache.insert(glyph_key, g);
                        Ok(g)
                    },
                    Err(e) => Err(e),
                }
            },
        }
    }

    /// The glyph of `glyph_key`: from the cache when it is there, else rasterized,
    /// packed and cached.
    pub fn get(&mut self, glyph_key: GlyphKey, loader: &mut AtlasSet, show_missing: bool) -> (r: Result<Glyph, GlyphError>)
        requires
            old(loader)@.wf(),
        ensures
            final(loader)@.wf(),
            get_post(*old(self), old(loader)@, glyph_key, show_missing, *final(self), final(loader)@, r),
    {
        if let Some(g) = self.cache.get(&glyph_key) {
            return Ok(g);
        }
        let rasterized = self.rasterizer.get_glyph(glyph_key);
        self.cache_rasterized(glyph_key, rasterized, loader, show_missing)
    }

    /// `f` is one of the four style variants of the cache's font.
    pub open spec fn is_font(&self, f: FontKey) -> bool {
        f == self.font_key || f == self.bold_key || f == self.italic_key || f == self.bold_italic_key
    }

    /// `k` is one of the keys resolved ahead of time: printable ASCII in one of the
    /// four variants at the cache's size.
    pub open spec fn is_common_key(&self, k: GlyphKey) -> bool {
        self.is_font(k.font_key) && k.size == self.font_size && is_printable_ascii(k.character)
    }

    /// Every key resolved ahead of time is in `m`.
    pub open spec fn holds_common(&self, m: Map<GlyphKey, Glyph>) -> bool {
        forall|k: GlyphKey| #[trigger] self.is_common_key(k) ==> m.contains_key(k)
    }

    /// Resolves printable ASCII in the regular, bold, italic and bold italic variants,
    /// so that the first frame does not wait for the rasterizer.
    pub fn load_common_glyphs(&mut self, loader: &mut AtlasSet) -> (r: Result<(), GlyphError>)
        requires
            old(loader)@.wf(),
        ensures
            final(loader)@.wf(),
            final(self).same_keys(old(self)),
            old(self).cache@.submap_of(final(self).cache@),
            forall|k: GlyphKey| #[trigger] final(self).cache@.contains_key(k) ==> old(self).cache@.contains_key(k) || old(self).is_common_key(k),
            forall|f: (FontKey, Size)| #[trigger] final(self).cache.fallbacks().contains_key(f) ==> old(self).cache.fallbacks().contains_key(f) || old(self).is_font(f.0) && f.1 == old(self).font_size,
            r is Ok ==> final(self).holds_common(final(self).cache@),
            r is Err ==> r->Err_0 is GlyphTooLarge,
            old(self).holds_common(old(self).cache@) ==> {
                &&& r is Ok
                &&& *final(self) == *old(self)
                &&& final(loader)@ == old(loader)@
            },
            exists|bs: Seq<RasterizedGlyph>| final(loader)@ == #[trigger] loads(old(loader)@, bs),
    {
        proof {
            assert(loads(old(loader)@, seq![]) == old(loader)@);
        }
        let mut fonts: Vec<FontKey> = Vec::new();
        fonts.push(self.font_key);
        fonts.push(self.bold_key);
        fonts.push(self.italic_key);
        fonts.push(self.bold_italic_key);
        let size = self.font_size;
        let mut fi: usize = 0;
        while fi < 4
            invariant
                0 <= fi <= 4,
                fonts@ == seq![old(self).font_key, old(self).bold_key, old(self).italic_key, old(self).bold_italic_key],
                size == old(self).font_size,
                loader@.wf(),
                self.same_keys(old(self)),
                old(self).cache@.submap_of(self.cache@),
                forall|k: GlyphKey| #[trigger] self.cache@.contains_key(k) ==> old(self).cache@.contains_key(k) || old(self).is_common_key(k),
                forall|f: (FontKey, Size)| #[trigger] self.cache.fallbacks().contains_key(f) ==> old(self).cache.fallbacks().contains_key(f) || old(self).is_font(f.0) && f.1 == old(self).font_size,
                forall|j: int, c: char| 0 <= j < fi && is_printable_ascii(c) ==> #[trigger] self.cache@.contains_key(GlyphKey { character: c, font_key: fonts@[j], size }),
                old(self).holds_common(old(self).cache@) ==> *self == *old(self) && loader@ == old(loader)@,
                exists|bs: Seq<RasterizedGlyph>| loader@ == #[trigger] loads(old(loader)@, bs),
            decreases 4 - fi,
        {
            let font = fonts[fi];
            let mut ch: u8 = 32;
            while ch <= 126
                invariant
                    0 <= fi < 4,
                    32 <= ch <= 127,
                    font == fonts@[fi as int],
                    fonts@ == seq![old(self).font_key, old(self).bold_key, old(self).italic_key, old(self).bold_italic_key],
                    size == old(self).font_size,
                    loader@.wf(),
                    self.same_keys(old(self)),
                    old(self).cache@.submap_of(self.cache@),
                    forall|k: GlyphKey| #[trigger] self.cache@.contains_key(k) ==> old(self).cache@.contains_key(k) || old(self).is_common_key(k),
                    forall|f: (FontKey, Size)| #[trigger] self.cache.fallbacks().contains_key(f) ==> old(self).cache.fallbacks().contains_key(f) || old(self).is_font(f.0) && f.1 == old(self).font_size,
                forall|f: (FontKey, Size)| #[trigger] self.cache.fallbacks().contains_key(f) ==> old(self).cache.fallbacks().contains_key(f) || old(self).is_font(f.0) && f.1 == old(self).font_size,
                    forall|j: int, c: char| 0 <= j < fi && is_printable_ascii(c) ==> #[trigger] self.cache@.contains_key(GlyphKey { character: c, font_key: fonts@[j], size }),
                    forall|c: char| is_printable_ascii(c) && (c as u32) < ch ==> #[trigger] self.cache@.contains_key(GlyphKey { character: c, font_key: font, size }),
                    old(self).holds_common(old(self).cache@) ==> *self == *old(self) && loader@ == old(loader)@,
                    exists|bs: Seq<RasterizedGlyph>| loader@ == #[trigger] loads(old(loader)@, bs),
                decreases 127 - ch,
            {
                let key = GlyphKey { character: ch as char, font_key: font, size };
                let ghost c0 = *self;
                let ghost l0 = loader@;
                let r = self.get(key, loader, true);
                proof {
                    lemma_get_post(c0, l0, key, true, *self, loader@, r);
                    assert(old(self).is_common_key(key));
                    let bs0 = choose|bs: Seq<RasterizedGlyph>| l0 == #[trigger] loads(old(loader)@, bs);
                    if loader@ == l0 {
                        assert(loader@ == loads(old(loader)@, bs0));
                    } else {
                        let b = choose|b: RasterizedGlyph| loader@ == #[trigger] l0.loaded(b);
                        lemma_loads_push(old(loader)@, bs0, b);
                        assert(loader@ == loads(old(loader)@, bs0.push(b)));
                    }
                    assert forall|k: GlyphKey| #[trigger] self.cache@.contains_key(k) implies old(self).cache@.contains_key(k) || old(self).is_common_key(k) by {
                    }
                }
                if r.is_err() {
                    return match r {
                        Ok(_) => Ok(()),
                        Err(e) => Err(e),
                    };
                }
                proof {
                    assert forall|c: char| is_printable_ascii(c) && (c as u32) < ch + 1 implies #[trigger] self.cache@.contains_key(GlyphKey { character: c, font_key: font, size }) by {
                        if (c as u32) < ch {
                            assert(c0.cache@.contains_key(GlyphKey { character: c, font_key: font, size }));
                        } else {
                            assert(c == ch as char);
                        }
                    }
                }
                ch = ch + 1;
            }
            fi = fi + 1;
        }
        proof {
            assert forall|k: GlyphKey| #[trigger] self.is_common_key(k) implies self.cache@.contains_key(k) by {
                let j: int = if k.font_key == fonts@[0] { 0 } else if k.font_key == fonts@[1] { 1 } else if k.font_key == fonts@[2] { 2 } else { 3 };
                assert(k == GlyphKey { character: k.character, font_key: fonts@[j], size });
            }
        }
        Ok(())
    }

    /// Drops every cached glyph and every atlas, then resolves the common glyphs again.
    pub fn clear_glyph_cache(&mut self, loader: &mut AtlasSet) -> (r: Result<(), GlyphError>)
        requires
            old(loader)@.wf(),
        ensures
            final(loader)@.wf(),
            final(self).same_keys(old(self)),
            forall|k: GlyphKey| #[trigger] final(self).cache@.contains_key(k) ==> old(self).is_common_key(k),
            forall|f: (FontKey, Size)| #[trigger] final(self).cache.fallbacks().contains_key(f) ==> old(self).is_font(f.0) && f.1 == old(self).font_size,
            r is Ok ==> final(self).holds_common(final(self).cache@),
            r is Err ==> r->Err_0 is GlyphTooLarge,
            exists|bs: Seq<RasterizedGlyph>| final(loader)@ == #[trigger] loads(AtlasSetState::fresh(old(loader)@.size), bs),
    {
        self.cache.clear();
        loader.clear();
        self.load_common_glyphs(loader)
    }

    /// A cache over the regular, bold, italic and bold italic faces of `font_name` at
    /// `font_size`, with the common glyphs already resolved.
    pub fn new(rasterizer: R, font_name: &str, font_size: Size, loader: &mut AtlasSet) -> (r: Result<GlyphCache<R>, GlyphError>)
        requires
            old(loader)@.wf(),
        ensures
            final(loader)@.wf(),
            r is Ok ==> {
                let c = r->Ok_0;
                &&& c.font_size == font_size
                &&& c.holds_common(c.cache@)
                &&& forall|k: GlyphKey| #[trigger] c.cache@.contains_key(k) ==> c.is_common_key(k)
                &&& forall|f: (FontKey, Size)| #[trigger] c.cache.fallbacks().contains_key(f) ==> c.is_font(f.0) && f.1 == c.font_size
            },
    {
        let mut rasterizer = rasterizer;
        let regular = FontDesc::new(font_name.to_owned(), Style::Specific("Regular".to_owned()));
        let bold = FontDesc::new(font_name.to_owned(), Style::Specific("Bold".to_owned()));
        let italic = FontDesc::new(font_name.to_owned(), Style::Specific("Italic".to_owned()));
        let bold_italic = FontDesc::new(font_name.to_owned(), Style::Specific("Bold Italic".to_owned()));
        let font_key = match rasterizer.load_font(&regular, font_size) {
            Ok(k) => k,
            Err(e) => return Err(GlyphError::Rasterizer(e)),
        };
        let bold_key = match rasterizer.load_font(&bold, font_size) {
            Ok(k) => k,
            Err(e) => return Err(GlyphError::Rasterizer(e)),
        };
        let italic_key = match rasterizer.load_font(&italic, font_size) {
            Ok(k) => k,
            Err(e) => return Err(GlyphError::Rasterizer(e)),
        };
        let bold_italic_key = match rasterizer.load_font(&bold_italic, font_size) {
            Ok(k) => k,
            Err(e) => return Err(GlyphError::Rasterizer(e)),
        };
        let metrics = rasterizer.metrics(font_key, font_size);
        let mut cache = GlyphCache {
            cache: GlyphMap::new(),
            rasterizer,
            font_key,
            bold_key,
            italic_key,
            bold_italic_key,
            font_size,
            metrics,
        };
        match cache.load_common_glyphs(loader) {
            Ok(()) => Ok(cache),
            Err(e) => Err(e),
        }
    }
}

/// What a call of [`GlyphCache::get`] does: a cached key is answered from the cache
/// and nothing changes; any other key is resolved from whatever the rasterizer
/// answered, as [`outcome`] says.
pub open spec fn get_post<R: Rasterize>(
    c0: GlyphCache<R>,
    l0: AtlasSetState,
    key: GlyphKey,
    show_missing: bool,
    c1: GlyphCache<R>,
    l1: AtlasSetState,
    r: Result<Glyph, GlyphError>,
) -> bool {
    if c0.cache@.contains_key(key) {
        &&& r == Ok::<Glyph, GlyphError>(c0.cache@[key])
        &&& c1 == c0
        &&& l1 == l0
    } else {
        &&& c1.same_keys(&c0)
        &&& exists|res: Result<RasterizedGlyph, Error>|
            #[trigger] outcome(c0.cache@, c0.cache.fallbacks(), l0, c0.metrics, key, res, show_missing) == (
            c1.cache@,
            c1.cache.fallbacks(),
            l1,
            r,
        )
    }
}

/// `c` is printable ASCII: a space up to a tilde.
pub open spec fn is_printable_ascii(c: char) -> bool {
    ' ' <= c && c <= '~'
}


/// What any call of [`GlyphCache::get`] leaves behind: no cached glyph is lost or
/// changed, a successful call leaves its key cached with the glyph it returned, the
/// only keys added are the requested key and the fallback key of its font and size,
/// and with `show_missing` the only failure is a glyph too large for an atlas.
pub proof fn lemma_get_post<R: Rasterize>(
    c0: GlyphCache<R>,
    l0: AtlasSetState,
    key: GlyphKey,
    show_missing: bool,
    c1: GlyphCache<R>,
    l1: AtlasSetState,
    r: Result<Glyph, GlyphError>,
)
    requires
        get_post(c0, l0, key, show_missing, c1, l1, r),
    ensures
        c1.same_keys(&c0),
        c0.cache@.submap_of(c1.cache@),
        r is Ok ==> c1.cache@.contains_key(key) && r == Ok::<Glyph, GlyphError>(c1.cache@[key]),
        forall|k: GlyphKey| #[trigger] c1.cache@.contains_key(k) ==> c0.cache@.contains_key(k) || k == key,
        c0.cache.fallbacks().submap_of(c1.cache.fallbacks()),
        forall|f: (FontKey, Size)| #[trigger] c1.cache.fallbacks().contains_key(f) ==> c0.cache.fallbacks().contains_key(f) || f == face_of(key),
        show_missing && r is Err ==> r->Err_0 is GlyphTooLarge,
        l1 == l0 || exists|b: RasterizedGlyph| l1 == #[trigger] l0.loaded(b),
{
    if !c0.cache@.contains_key(key) {
        let res = choose|res: Result<RasterizedGlyph, Error>|
            #[trigger] outcome(c0.cache@, c0.cache.fallbacks(), l0, c0.metrics, key, res, show_missing) == (
            c1.cache@,
            c1.cache.fallbacks(),
            l1,
            r,
        );
        assert(outcome(c0.cache@, c0.cache.fallbacks(), l0, c0.metrics, key, res, show_missing) == (
        c1.cache@,
        c1.cache.fallbacks(),
        l1,
        r,
        ));
        match res {
            Ok(b) => {
                if l1 != l0 {
                    assert(l1 == l0.loaded(adjusted(b, c0.metrics)));
                }
            },
            Err(Error::MissingGlyph(b)) => {
                if l1 != l0 {
                    assert(l1 == l0.loaded(adjusted(b, c0.metrics)));
                }
            },
            Err(_) => {},
        }
    }
}

/// Asking twice for one key: once the first call has produced a glyph, the second call
/// returns the very same glyph and changes nothing, so it neither calls the rasterizer
/// nor touches the atlases.
pub proof fn lemma_get_idempotent<R: Rasterize>(
    c0: GlyphCache<R>,
    l0: AtlasSetState,
    key: GlyphKey,
    show_missing: bool,
    c1: GlyphCache<R>,
    l1: AtlasSetState,
    r1: Result<Glyph, GlyphError>,
    show_missing2: bool,
    c2: GlyphCache<R>,
    l2: AtlasSetState,
    r2: Result<Glyph, GlyphError>,
)
    requires
        get_post(c0, l0, key, show_missing, c1, l1, r1),
        get_post(c1, l1, key, show_missing2, c2, l2, r2),
        r1 is Ok,
    ensures
        r2 == r1,
        c2 == c1,
        l2 == l1,
{
    lemma_get_post(c0, l0, key, show_missing, c1, l1, r1);
}

/// Two characters that no font has, in one font and size, share one fallback glyph.
///
/// The first request succeeds exactly when the fallback of that face is already
/// cached or its bitmap fits into an empty atlas. Then both keys end up cached with
/// the face's fallback glyph, the fallback bitmap is packed at most once (by the first
/// request, if the fallback was not cached yet), and the second request packs nothing.
pub proof fn lemma_fallback_shared(
    cached: Map<GlyphKey, Glyph>,
    fallbacks: Map<(FontKey, Size), Glyph>,
    atl: AtlasSetState,
    m: Metrics,
    k1: GlyphKey,
    b1: RasterizedGlyph,
    k2: GlyphKey,
    b2: RasterizedGlyph,
)
    requires
        k1.font_key == k2.font_key,
        k1.size == k2.size,
    ensures
        ({
            let o1 = outcome(cached, fallbacks, atl, m, k1, Err(Error::MissingGlyph(b1)), true);
            let o2 = outcome(o1.0, o1.1, o1.2, m, k2, Err(Error::MissingGlyph(b2)), true);
            let a1 = adjusted(b1, m);
            &&& o1.3 is Ok <==> (fallbacks.contains_key(face_of(k1)) || atl.accepts(
                a1.width as int,
                a1.height as int,
            ))
            &&& fallbacks.contains_key(face_of(k1)) ==> o1.2 == atl
            &&& !fallbacks.contains_key(face_of(k1)) && o1.3 is Ok ==> o1.2 == atl.loaded(a1)
            &&& o1.3 is Ok ==> {
                &&& o2.3 == o1.3
                &&& o2.2 == o1.2
                &&& o2.0.contains_key(k1)
                &&& o2.0.contains_key(k2)
                &&& o2.1.contains_key(face_of(k2))
                &&& o2.0[k1] == o2.0[k2]
                &&& o2.1[face_of(k2)] == o2.0[k2]
                &&& o2.3 == Ok::<Glyph, GlyphError>(o2.0[k2])
            }
        }),
{
    assert(face_of(k1) == face_of(k2));
}

} // verus!
