//! Font identities and the rasterizer interface.
use vstd::prelude::*;

verus! {

/// Identifier of a loaded font.
#[derive(Clone, Copy, Debug, PartialEq, Eq, Hash, Structural)]
pub struct FontKey {
    pub token: u32,
}

impl FontKey {
    /// The key that follows this one, or `None` once the tokens are exhausted.
    ///
    /// Keys handed out one after another from a first key are pairwise distinct.
    pub fn next(&self) -> (r: Option<FontKey>)
        ensures
            self.token < u32::MAX ==> r == Some(FontKey { token: (self.token + 1) as u32 }),
            self.token == u32::MAX ==> r.is_none(),
    {
        if self.token < u32::MAX {
            Some(FontKey { token: self.token + 1 })
        } else {
            None
        }
    }
}

/// Font size, in half points.
#[derive(Clone, Copy, Debug, PartialEq, Eq, Hash, Structural)]
pub struct Size(pub i16);

/// Everything that identifies one rasterized glyph.
#[derive(Clone, Copy, Debug, PartialEq, Eq, Hash, Structural)]
pub struct GlyphKey {
    pub character: char,
    pub font_key: FontKey,
    pub size: Size,
}

#[derive(Clone, Copy, Debug, PartialEq, Eq, Hash, Structural)]
pub enum Slant {
    Normal,
    Italic,
    Oblique,
}

#[derive(Clone, Copy, Debug, PartialEq, Eq, Hash, Structural)]
pub enum Weight {
    Normal,
    Bold,
}

/// Style of a font.
#[derive(Clone, Debug, PartialEq, Eq, Hash)]
pub enum Style {
    Specific(String),
    Description { slant: Slant, weight: Weight },
}

/// Description of a font: a family name and a style.
#[derive(Clone, Debug, PartialEq, Eq, Hash)]
pub struct FontDesc {
    pub name: String,
    pub style: Style,
}

impl FontDesc {
    pub fn new(name: String, style: Style) -> (r: FontDesc)
        ensures
            r.name@ == name@,
            r.style == style,
    {
        FontDesc { name, style }
    }
}

/// Pixel data of a rasterized glyph.
#[derive(Clone, Debug)]
pub enum BitmapBuffer {
    /// Alpha mask, three bytes per pixel.
    Rgb(Vec<u8>),
    /// Full color with premultiplied alpha, four bytes per pixel.
    Rgba(Vec<u8>),
}

/// A glyph bitmap as the rasterizer produces it.
#[derive(Debug)]
pub struct RasterizedGlyph {
    pub character: char,
    pub width: i32,
    pub height: i32,
    pub top: i32,
    pub left: i32,
    pub advance: (i32, i32),
    pub buffer: BitmapBuffer,
}

impl Default for RasterizedGlyph {
    /// The empty glyph: no pixels, no bearing, no advance.
    fn default() -> (r: RasterizedGlyph)
        ensures
            r.character == ' ',
            r.width == 0 && r.height == 0,
            r.top == 0 && r.left == 0,
            r.advance == (0i32, 0i32),
            r.buffer is Rgb,
            r.buffer->Rgb_0@.len() == 0,
    {
        RasterizedGlyph {
            character: ' ',
            width: 0,
            height: 0,
            top: 0,
            left: 0,
            advance: (0, 0),
            buffer: BitmapBuffer::Rgb(Vec::new()),
        }
    }
}

impl RasterizedGlyph {
    /// Whether the bitmap holds full-color pixels.
    pub open spec fn is_multicolor(&self) -> bool {
        self.buffer is Rgba
    }
}

/// Font-wide metrics, in whole pixels.
#[derive(Clone, Copy, Debug, PartialEq, Eq, Structural)]
pub struct Metrics {
    pub average_advance: i32,
    pub line_height: i32,
    /// Distance of the lowest descender below the baseline; negative below it.
    pub descent: i32,
    pub underline_position: i32,
    pub underline_thickness: i32,
    pub strikeout_position: i32,
    pub strikeout_thickness: i32,
}

/// Failures of the rasterizer.
#[derive(Debug)]
pub enum Error {
    /// No font matches the description.
    FontNotFound(FontDesc),
    /// No metrics could be found for a font face.
    MetricsNotFound,
    /// The character is present in no font; the bitmap stands in for it.
    MissingGlyph(RasterizedGlyph),
    /// The font key is not known to the rasterizer.
    UnknownFontKey,
    /// The platform's font system failed.
    PlatformError(String),
}

/// The font system that turns a glyph key into a bitmap.
pub trait Rasterize {
    /// Metrics of a loaded font.
    fn metrics(&self, key: FontKey, size: Size) -> Metrics;

    /// Loads the font that `desc` describes at `size`.
    fn load_font(&mut self, desc: &FontDesc, size: Size) -> Result<FontKey, Error>;

    /// Rasterizes one glyph.
    fn get_glyph(&mut self, glyph: GlyphKey) -> Result<RasterizedGlyph, Error>;
}

} // verus!
