use glyph_render::atlas::AtlasSet;
use glyph_render::font::{
    BitmapBuffer, Error, FontDesc, FontKey, GlyphKey, Metrics, RasterizedGlyph, Rasterize, Size,
    Style,
};
use glyph_render::glyph_cache::{correct_bitmap, GlyphCache, GlyphError, GlyphMap};

/// A font system that knows every character but the ones listed as missing, and
/// counts how often it is asked for a glyph.
struct FakeRasterizer {
    calls: Vec<GlyphKey>,
    missing: Vec<char>,
    broken: Vec<char>,
    next_key: u32,
    refuse_fonts: bool,
    glyph_side: i32,
}

impl FakeRasterizer {
    fn new() -> Self {
        FakeRasterizer {
            calls: Vec::new(),
            missing: Vec::new(),
            broken: Vec::new(),
            next_key: 10,
            refuse_fonts: false,
            glyph_side: 8,
        }
    }
}

fn bitmap(character: char, side: i32) -> RasterizedGlyph {
    RasterizedGlyph {
        character,
        width: side,
        height: side,
        top: 12,
        left: 1,
        advance: (side, 0),
        buffer: BitmapBuffer::Rgb(vec![0u8; (side * side * 3) as usize]),
    }
}

impl Rasterize for FakeRasterizer {
    fn metrics(&self, _key: FontKey, _size: Size) -> Metrics {
        Metrics {
            average_advance: 9,
            line_height: 20,
            descent: -4,
            underline_position: -2,
            underline_thickness: 1,
            strikeout_position: 6,
            strikeout_thickness: 1,
        }
    }

    fn load_font(&mut self, desc: &FontDesc, _size: Size) -> Result<FontKey, Error> {
        if self.refuse_fonts {
            return Err(Error::FontNotFound(desc.clone()));
        }
        self.next_key += 1;
        Ok(FontKey { token: self.next_key })
    }

    fn get_glyph(&mut self, glyph: GlyphKey) -> Result<RasterizedGlyph, Error> {
        self.calls.push(glyph);
        if self.broken.contains(&glyph.character) {
            return Err(Error::PlatformError(String::from("no outline")));
        }
        if self.missing.contains(&glyph.character) {
            return Err(Error::MissingGlyph(bitmap(glyph.character, 6)));
        }
        Ok(bitmap(glyph.character, self.glyph_side))
    }
}

fn cache_with(r: FakeRasterizer, atlases: &mut AtlasSet) -> GlyphCache<FakeRasterizer> {
    match GlyphCache::new(r, "Source Code Pro", Size(32), atlases) {
        Ok(c) => c,
        Err(_) => panic!("cache construction failed"),
    }
}

fn key(cache: &GlyphCache<FakeRasterizer>, character: char) -> GlyphKey {
    GlyphKey { character, font_key: cache.font_key, size: cache.font_size }
}

#[test]
fn construction_preloads_printable_ascii_in_four_variants() {
    let mut atlases = AtlasSet::new(1024);
    let cache = cache_with(FakeRasterizer::new(), &mut atlases);
    assert_eq!(cache.rasterizer.calls.len(), 4 * 95);
    for font in [cache.font_key, cache.bold_key, cache.italic_key, cache.bold_italic_key] {
        for c in ' '..='~' {
            let k = GlyphKey { character: c, font_key: font, size: Size(32) };
            assert!(cache.cache.get(&k).is_some());
        }
    }
    let distinct: std::collections::HashSet<u32> =
        [cache.font_key, cache.bold_key, cache.italic_key, cache.bold_italic_key]
            .iter()
            .map(|k| k.token)
            .collect();
    assert_eq!(distinct.len(), 4);
    assert_eq!(cache.metrics.descent, -4);
}

#[test]
fn construction_reports_a_font_that_cannot_be_loaded() {
    let mut atlases = AtlasSet::new(1024);
    let mut r = FakeRasterizer::new();
    r.refuse_fonts = true;
    match GlyphCache::new(r, "Nowhere Sans", Size(32), &mut atlases) {
        Err(GlyphError::Rasterizer(Error::FontNotFound(desc))) => {
            assert_eq!(desc.name, "Nowhere Sans");
            assert_eq!(desc.style, Style::Specific(String::from("Regular")));
        },
        _ => panic!("expected a missing font"),
    }
}

#[test]
fn construction_fails_on_glyphs_larger_than_the_atlas() {
    let mut atlases = AtlasSet::new(16);
    let mut r = FakeRasterizer::new();
    r.glyph_side = 17;
    assert!(matches!(
        GlyphCache::new(r, "Source Code Pro", Size(32), &mut atlases),
        Err(GlyphError::GlyphTooLarge)
    ));
}

#[test]
fn same_glyph_twice_rasterizes_once() {
    let mut atlases = AtlasSet::new(1024);
    let mut cache = cache_with(FakeRasterizer::new(), &mut atlases);
    let before = cache.rasterizer.calls.len();
    let k = key(&cache, 'A');
    let first = cache.get(k, &mut atlases, true).unwrap();
    let second = cache.get(k, &mut atlases, true).unwrap();
    assert_eq!(first, second);
    assert_eq!(first.tex_id, second.tex_id);
    assert_eq!(
        (first.uv_left, first.uv_bot, first.uv_width, first.uv_height),
        (second.uv_left, second.uv_bot, second.uv_width, second.uv_height)
    );
    // 'A' was resolved while preloading: no further rasterizer call.
    assert_eq!(cache.rasterizer.calls.len(), before);
}

#[test]
fn uncached_glyph_rasterized_only_on_first_call() {
    let mut atlases = AtlasSet::new(1024);
    let mut cache = cache_with(FakeRasterizer::new(), &mut atlases);
    let before = cache.rasterizer.calls.len();
    let k = key(&cache, 'é');
    let first = cache.get(k, &mut atlases, true).unwrap();
    assert_eq!(cache.rasterizer.calls.len(), before + 1);
    let second = cache.get(k, &mut atlases, true).unwrap();
    assert_eq!(cache.rasterizer.calls.len(), before + 1);
    assert_eq!(first, second);
    assert_eq!(cache.cache.get(&k), Some(first));
}

#[test]
fn glyph_a_at_other_size_is_rasterized_once() {
    let mut atlases = AtlasSet::new(1024);
    let mut cache = cache_with(FakeRasterizer::new(), &mut atlases);
    let before = cache.rasterizer.calls.len();
    let k = GlyphKey { character: 'A', font_key: cache.font_key, size: Size(40) };
    let first = cache.get(k, &mut atlases, true).unwrap();
    let second = cache.get(k, &mut atlases, true).unwrap();
    assert_eq!(cache.rasterizer.calls.len(), before + 1);
    assert_eq!((first.tex_id, first.uv_left, first.uv_bot), (second.tex_id, second.uv_left, second.uv_bot));
}

#[test]
fn bearing_is_moved_up_by_the_descent() {
    let mut atlases = AtlasSet::new(1024);
    let cache = cache_with(FakeRasterizer::new(), &mut atlases);
    let g = cache.cache.get(&key(&cache, 'x')).unwrap();
    // top 12, descent -4.
    assert_eq!(g.top, 16);
    assert_eq!(g.left, 1);
}

#[test]
fn zero_width_character_moves_right_by_one_advance() {
    let mut atlases = AtlasSet::new(1024);
    let mut cache = cache_with(FakeRasterizer::new(), &mut atlases);
    let k = key(&cache, '\u{301}');
    let g = cache.get(k, &mut atlases, true).unwrap();
    assert_eq!(g.left, 1 + 9);
    assert_eq!(g.top, 16);
}

#[test]
fn correct_bitmap_shifts_bearings() {
    let m = Metrics {
        average_advance: 7,
        line_height: 18,
        descent: -3,
        underline_position: 0,
        underline_thickness: 1,
        strikeout_position: 0,
        strikeout_thickness: 1,
    };
    let plain = correct_bitmap(bitmap('q', 2), &m, false);
    assert_eq!((plain.top, plain.left), (15, 1));
    let mark = correct_bitmap(bitmap('q', 2), &m, true);
    assert_eq!((mark.top, mark.left), (15, 8));
}

#[test]
fn unmappable_characters_share_one_fallback() {
    let mut atlases = AtlasSet::new(1024);
    let mut r = FakeRasterizer::new();
    r.missing = vec!['\u{e000}', '\u{e001}'];
    let mut cache = cache_with(r, &mut atlases);
    atlases.take_uploads();
    let k1 = key(&cache, '\u{e000}');
    let k2 = key(&cache, '\u{e001}');
    let g1 = cache.get(k1, &mut atlases, true).unwrap();
    let g2 = cache.get(k2, &mut atlases, true).unwrap();
    assert_eq!(g1, g2);
    assert_eq!(cache.cache.get(&k1), Some(g1));
    assert_eq!(cache.cache.get(&k2), Some(g1));
    assert_eq!(cache.cache.get_fallback(k1.font_key, k1.size), Some(g1));
    assert!(cache.cache.get(&GlyphKey { character: '\0', ..k1 }).is_none());
    // The fallback bitmap is packed once.
    assert_eq!(atlases.take_uploads().len(), 1);
    assert_eq!((g1.width, g1.height), (6, 6));
}

#[test]
fn missing_glyph_is_reported_when_not_substituted() {
    let mut atlases = AtlasSet::new(1024);
    let mut r = FakeRasterizer::new();
    r.missing = vec!['\u{e000}'];
    let mut cache = cache_with(r, &mut atlases);
    let k = key(&cache, '\u{e000}');
    match cache.get(k, &mut atlases, false) {
        Err(GlyphError::Rasterizer(Error::MissingGlyph(b))) => assert_eq!(b.character, '\u{e000}'),
        _ => panic!("expected the missing glyph"),
    }
    assert!(cache.cache.get(&k).is_none());
}

#[test]
fn other_failures_cache_an_empty_glyph() {
    let mut atlases = AtlasSet::new(1024);
    let mut r = FakeRasterizer::new();
    r.broken = vec!['\u{e100}'];
    let mut cache = cache_with(r, &mut atlases);
    let before = cache.rasterizer.calls.len();
    let k = key(&cache, '\u{e100}');
    let g = cache.get(k, &mut atlases, true).unwrap();
    assert_eq!((g.width, g.height, g.uv_width, g.uv_height), (0, 0, 0, 0));
    assert_eq!((g.top, g.left), (4, 0));
    assert!(!g.multicolor);
    let again = cache.get(k, &mut atlases, false).unwrap();
    assert_eq!(g, again);
    assert_eq!(cache.rasterizer.calls.len(), before + 1);
}

#[test]
fn oversized_glyph_is_not_cached() {
    let mut atlases = AtlasSet::new(32);
    let mut cache = cache_with(FakeRasterizer::new(), &mut atlases);
    cache.rasterizer.glyph_side = 40;
    let k = key(&cache, 'é');
    assert!(matches!(cache.get(k, &mut atlases, true), Err(GlyphError::GlyphTooLarge)));
    assert!(cache.cache.get(&k).is_none());
}

#[test]
fn clearing_the_cache_reloads_common_glyphs_only() {
    let mut atlases = AtlasSet::new(64);
    let mut cache = cache_with(FakeRasterizer::new(), &mut atlases);
    let k = key(&cache, 'é');
    cache.get(k, &mut atlases, true).unwrap();
    assert!(atlases.len() > 1);
    cache.clear_glyph_cache(&mut atlases).unwrap();
    assert!(cache.cache.get(&k).is_none());
    assert!(cache.cache.get(&key(&cache, 'A')).is_some());
    assert_eq!(cache.rasterizer.calls.len(), 2 * 4 * 95 + 1);
}

#[test]
fn glyph_a_twice_on_an_empty_cache() {
    let mut atlases = AtlasSet::new(1024);
    let font_key = FontKey { token: 1 };
    let mut cache = GlyphCache {
        cache: GlyphMap::new(),
        rasterizer: FakeRasterizer::new(),
        font_key,
        bold_key: font_key,
        italic_key: font_key,
        bold_italic_key: font_key,
        font_size: Size(32),
        metrics: FakeRasterizer::new().metrics(font_key, Size(32)),
    };
    let k = GlyphKey { character: 'A', font_key, size: Size(32) };
    let first = cache.get(k, &mut atlases, true).unwrap();
    assert_eq!(cache.rasterizer.calls, vec![k]);
    let second = cache.get(k, &mut atlases, true).unwrap();
    assert_eq!(cache.rasterizer.calls, vec![k]);
    assert_eq!(first.tex_id, second.tex_id);
    assert_eq!(
        (first.uv_left, first.uv_bot, first.uv_width, first.uv_height),
        (second.uv_left, second.uv_bot, second.uv_width, second.uv_height)
    );
    assert_eq!((first.uv_left, first.uv_bot, first.uv_width, first.uv_height), (0, 0, 8, 8));
    assert_eq!(atlases.take_uploads().len(), 1);
}

#[test]
fn preloading_a_preloaded_cache_changes_nothing() {
    let mut atlases = AtlasSet::new(1024);
    let mut cache = cache_with(FakeRasterizer::new(), &mut atlases);
    atlases.take_uploads();
    let calls = cache.rasterizer.calls.len();
    cache.load_common_glyphs(&mut atlases).unwrap();
    assert_eq!(cache.rasterizer.calls.len(), calls);
    assert!(atlases.take_uploads().is_empty());
}

#[test]
fn clearing_the_cache_discards_the_atlases() {
    let mut atlases = AtlasSet::new(16);
    let mut cache = cache_with(FakeRasterizer::new(), &mut atlases);
    let before = atlases.len();
    // 8x8 glyphs, four per atlas: the preload fills 95 atlases.
    assert_eq!(before, 95);
    cache.get(key(&cache, 'é'), &mut atlases, true).unwrap();
    assert_eq!(atlases.len(), 96);
    cache.clear_glyph_cache(&mut atlases).unwrap();
    assert_eq!(atlases.len(), 95);
    let uploads = atlases.take_uploads();
    assert_eq!(uploads.len(), 4 * 95);
    assert_eq!((uploads[0].atlas, uploads[0].x, uploads[0].y), (0, 0, 0));
}

#[test]
fn a_nul_character_does_not_become_the_fallback() {
    let mut atlases = AtlasSet::new(1024);
    let mut r = FakeRasterizer::new();
    r.missing = vec!['\u{e000}'];
    let mut cache = cache_with(r, &mut atlases);
    let nul = cache.get(key(&cache, '\0'), &mut atlases, true).unwrap();
    assert_eq!((nul.width, nul.height), (8, 8));
    let missing = cache.get(key(&cache, '\u{e000}'), &mut atlases, true).unwrap();
    assert_eq!((missing.width, missing.height), (6, 6));
    assert_ne!(nul, missing);
}
