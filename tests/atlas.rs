use glyph_render::atlas::{Atlas, AtlasInsertError, AtlasSet, ATLAS_SIZE};
use glyph_render::font::{BitmapBuffer, RasterizedGlyph};

fn bitmap(character: char, width: i32, height: i32) -> RasterizedGlyph {
    RasterizedGlyph {
        character,
        width,
        height,
        top: 7,
        left: 1,
        advance: (width, 0),
        buffer: BitmapBuffer::Rgb(vec![0u8; (width.max(0) * height.max(0) * 3) as usize]),
    }
}

#[test]
fn four_glyphs_fill_a_small_atlas_then_overflow() {
    let mut atlases = AtlasSet::new(4);
    let mut placed = Vec::new();
    for c in ['a', 'b', 'c', 'd'] {
        let g = atlases.load_glyph(bitmap(c, 2, 2)).unwrap();
        placed.push((g.tex_id, g.uv_left, g.uv_bot));
    }
    assert_eq!(placed, vec![(0, 0, 0), (0, 2, 0), (0, 0, 2), (0, 2, 2)]);
    assert_eq!(atlases.len(), 1);

    let fifth = atlases.load_glyph(bitmap('e', 2, 2)).unwrap();
    assert_eq!(atlases.len(), 2);
    assert_eq!((fifth.tex_id, fifth.uv_left, fifth.uv_bot), (1, 0, 0));
}

#[test]
fn fifth_glyph_reports_full_on_the_atlas_itself() {
    let mut atlas = Atlas::new(0, 4);
    for c in ['a', 'b', 'c', 'd'] {
        assert!(atlas.insert_inner(&bitmap(c, 2, 2)).is_ok());
    }
    assert_eq!(atlas.insert_inner(&bitmap('e', 2, 2)).unwrap_err(), AtlasInsertError::Full);
}

#[test]
fn glyph_larger_than_atlas_is_refused() {
    let mut atlas = Atlas::new(3, 4);
    assert_eq!(atlas.insert_inner(&bitmap('w', 5, 1)).unwrap_err(), AtlasInsertError::GlyphTooLarge);
    assert_eq!(atlas.insert_inner(&bitmap('w', 1, 5)).unwrap_err(), AtlasInsertError::GlyphTooLarge);
    assert_eq!(atlas.insert_inner(&bitmap('w', -1, 1)).unwrap_err(), AtlasInsertError::GlyphTooLarge);
    let mut atlases = AtlasSet::new(4);
    assert_eq!(atlases.load_glyph(bitmap('w', 5, 5)).unwrap_err(), AtlasInsertError::GlyphTooLarge);
    assert_eq!(atlases.len(), 1);
    assert!(atlases.take_uploads().is_empty());
}

#[test]
fn row_height_is_the_tallest_glyph_of_the_row() {
    let mut atlas = Atlas::new(0, 10);
    let a = atlas.insert_inner(&bitmap('a', 4, 3)).unwrap();
    let b = atlas.insert_inner(&bitmap('b', 4, 5)).unwrap();
    let c = atlas.insert_inner(&bitmap('c', 4, 2)).unwrap();
    assert_eq!((a.uv_left, a.uv_bot), (0, 0));
    assert_eq!((b.uv_left, b.uv_bot), (4, 0));
    // Does not fit in the 2 texels left of the first row: the next row starts at 5.
    assert_eq!((c.uv_left, c.uv_bot), (0, 5));
    let d = atlas.insert_inner(&bitmap('d', 6, 2)).unwrap();
    assert_eq!((d.uv_left, d.uv_bot), (4, 5));
    assert_eq!(atlas.id(), 0);
}

#[test]
fn glyph_fields_come_from_the_bitmap() {
    let mut atlas = Atlas::new(2, 16);
    let mut b = bitmap('x', 3, 4);
    b.top = -2;
    b.left = 5;
    b.buffer = BitmapBuffer::Rgba(vec![0u8; 48]);
    let g = atlas.insert_inner(&b).unwrap();
    assert_eq!(g.tex_id, 2);
    assert_eq!((g.top, g.left, g.width, g.height), (-2, 5, 3, 4));
    assert_eq!((g.uv_width, g.uv_height), (3, 4));
    assert!(g.multicolor);
}

#[test]
fn uv_rectangles_stay_inside_the_atlas() {
    let mut atlases = AtlasSet::new(64);
    for i in 0..500 {
        let w = (i * 7) % 23 + 1;
        let h = (i * 11) % 19 + 1;
        let g = atlases.load_glyph(bitmap('g', w, h)).unwrap();
        assert!(g.uv_left >= 0 && g.uv_bot >= 0);
        assert!(g.uv_left as i32 + g.uv_width as i32 <= 64);
        assert!(g.uv_bot as i32 + g.uv_height as i32 <= 64);
        assert!(g.tex_id < atlases.len());
    }
    assert!(atlases.len() > 1);
}

#[test]
fn uploads_are_queued_in_order_with_their_offsets() {
    let mut atlases = AtlasSet::new(4);
    atlases.load_glyph(bitmap('a', 3, 1)).unwrap();
    atlases.load_glyph(bitmap('b', 0, 0)).unwrap();
    atlases.load_glyph(bitmap('c', 2, 2)).unwrap();
    let uploads = atlases.take_uploads();
    let got: Vec<(usize, i32, i32, char)> =
        uploads.iter().map(|u| (u.atlas, u.x, u.y, u.bitmap.character)).collect();
    assert_eq!(got, vec![(0, 0, 0, 'a'), (0, 0, 1, 'c')]);
    assert!(atlases.take_uploads().is_empty());
}

#[test]
fn clear_starts_over_with_one_empty_atlas() {
    let mut atlases = AtlasSet::new(4);
    for c in ['a', 'b', 'c', 'd', 'e'] {
        atlases.load_glyph(bitmap(c, 2, 2)).unwrap();
    }
    assert_eq!(atlases.len(), 2);
    atlases.clear();
    assert_eq!(atlases.len(), 1);
    assert!(atlases.take_uploads().is_empty());
    let g = atlases.load_glyph(bitmap('f', 2, 2)).unwrap();
    assert_eq!((g.tex_id, g.uv_left, g.uv_bot), (0, 0, 0));
    assert_eq!(atlases.size(), 4);
}

#[test]
fn default_atlas_side() {
    let atlases = AtlasSet::new(ATLAS_SIZE);
    assert_eq!(atlases.size(), 1024);
}

#[test]
fn baseline_advances_once_per_full_row() {
    let mut atlas = Atlas::new(0, 10);
    let mut bottoms = Vec::new();
    for (i, h) in [2, 4, 3, 1, 1, 2, 2, 2].iter().enumerate() {
        let g = atlas.insert_inner(&bitmap(char::from(b'a' + i as u8), 3, *h)).unwrap();
        bottoms.push((g.uv_left, g.uv_bot));
    }
    // Rows of three: the second starts on the tallest glyph of the first (4), the
    // third on the tallest of the second (2).
    assert_eq!(bottoms, vec![(0, 0), (3, 0), (6, 0), (0, 4), (3, 4), (6, 4), (0, 6), (3, 6)]);
}

#[test]
fn default_bitmap_is_empty() {
    let b = RasterizedGlyph::default();
    assert_eq!((b.character, b.width, b.height, b.top, b.left, b.advance), (' ', 0, 0, 0, 0, (0, 0)));
    assert!(matches!(b.buffer, BitmapBuffer::Rgb(ref v) if v.is_empty()));
}

#[test]
fn insert_inner_closes_rows_and_reports_full() {
    let mut atlas = Atlas::new(0, 4);
    let mut placed = Vec::new();
    for c in ['a', 'b', 'c', 'd'] {
        let g = atlas.insert_inner(&bitmap(c, 2, 2)).unwrap();
        placed.push((g.tex_id, g.uv_left, g.uv_bot, g.uv_width, g.uv_height));
    }
    assert_eq!(placed, vec![(0, 0, 0, 2, 2), (0, 2, 0, 2, 2), (0, 0, 2, 2, 2), (0, 2, 2, 2, 2)]);
    assert_eq!(atlas.insert_inner(&bitmap('e', 2, 2)).unwrap_err(), AtlasInsertError::Full);
}
