//! Per-glyph draw records, and the batch that collects them for one instanced draw.
use vstd::prelude::*;

use crate::atlas::Glyph;

verus! {

/// Most draw records that one batch takes before it is flushed.
pub const BATCH_MAX: usize = 0x1_0000;

/// Bytes of one draw record in the GPU instance buffer.
pub const INSTANCE_SIZE: usize = 36;

/// Record flag: the glyph holds full-color pixels.
pub const COLORED: u8 = 1;

/// Record flag: the cell is a double-width character.
pub const WIDE_CHAR: u8 = 2;

/// An RGB color.
#[derive(Clone, Copy, Debug, PartialEq, Eq, Structural)]
pub struct Rgb {
    pub r: u8,
    pub g: u8,
    pub b: u8,
}

impl Rgb {
    pub fn new(r: u8, g: u8, b: u8) -> (c: Rgb)
        ensures
            c == (Rgb { r, g, b }),
    {
        Rgb { r, g, b }
    }
}

/// A grid cell ready for rendering.
#[derive(Clone, Copy, Debug, PartialEq, Eq, Structural)]
pub struct RenderableCell {
    pub character: char,
    pub line: usize,
    pub column: usize,
    pub fg: Rgb,
    pub bg: Rgb,
    /// Background opacity, 255 for opaque.
    pub bg_alpha: u8,
    pub underline: Rgb,
    pub bold: bool,
    pub italic: bool,
    /// The character takes two columns.
    pub wide: bool,
}

/// One glyph's draw record, laid out field for field as the GPU reads it.
///
/// The UV rectangle is in texels of the batch's atlas.
#[derive(Clone, Copy, Debug, PartialEq, Eq, Structural)]
pub struct InstanceData {
    pub col: u16,
    pub row: u16,
    pub left: i16,
    pub top: i16,
    pub width: i16,
    pub height: i16,
    pub uv_left: i16,
    pub uv_bot: i16,
    pub uv_width: i16,
    pub uv_height: i16,
    pub r: u8,
    pub g: u8,
    pub b: u8,
    pub cell_flags: u8,
    pub bg_r: u8,
    pub bg_g: u8,
    pub bg_b: u8,
    pub bg_a: u8,
}

/// The record flags of `glyph` drawn in `cell`.
pub open spec fn flags_of(cell: RenderableCell, glyph: Glyph) -> u8 {
    ((if glyph.multicolor { COLORED } else { 0u8 }) + (if cell.wide { WIDE_CHAR } else { 0u8 })) as u8
}

/// The draw record of `glyph` drawn in `cell`. Grid positions are taken modulo 2^16.
pub open spec fn instance_of(cell: RenderableCell, glyph: Glyph) -> InstanceData {
    InstanceData {
        col: cell.column as u16,
        row: cell.line as u16,
        left: glyph.left,
        top: glyph.top,
        width: glyph.width,
        height: glyph.height,
        uv_left: glyph.uv_left,
        uv_bot: glyph.uv_bot,
        uv_width: glyph.uv_width,
        uv_height: glyph.uv_height,
        r: cell.fg.r,
        g: cell.fg.g,
        b: cell.fg.b,
        cell_flags: flags_of(cell, glyph),
        bg_r: cell.bg.r,
        bg_g: cell.bg.g,
        bg_b: cell.bg.b,
        bg_a: cell.bg_alpha,
    }
}

/// Draw records that all sample the atlas `tex`, drawn with one instanced call.
#[derive(Debug)]
pub struct Batch {
    pub tex: usize,
    pub instances: Vec<InstanceData>,
}

impl Batch {
    pub fn new() -> (b: Batch)
        ensures
            b.tex == 0,
            b.instances@ == Seq::<InstanceData>::empty(),
    {
        Batch { tex: 0, instances: Vec::new() }
    }

    /// Appends the record of `glyph` drawn in `cell`; an empty batch takes the glyph's
    /// atlas as its own.
    pub fn add_item(&mut self, cell: &RenderableCell, glyph: &Glyph)
        ensures
            final(self).tex == if old(self).instances@.len() == 0 { glyph.tex_id } else { old(self).tex },
            final(self).instances@ == old(self).instances@.push(instance_of(*cell, *glyph)),
    {
        if self.len() == 0 {
            self.tex = glyph.tex_id;
        }
        let colored: u8 = if glyph.multicolor { COLORED } else { 0 };
        let wide: u8 = if cell.wide { WIDE_CHAR } else { 0 };
        self.instances.push(InstanceData {
            col: #[verifier::truncate] (cell.column as u16),
            row: #[verifier::truncate] (cell.line as u16),
            left: glyph.left,
            top: glyph.top,
            width: glyph.width,
            height: glyph.height,
            uv_left: glyph.uv_left,
            uv_bot: glyph.uv_bot,
            uv_width: glyph.uv_width,
            uv_height: glyph.uv_height,
            r: cell.fg.r,
            g: cell.fg.g,
            b: cell.fg.b,
            cell_flags: colored + wide,
            bg_r: cell.bg.r,
            bg_g: cell.bg.g,
            bg_b: cell.bg.b,
            bg_a: cell.bg_alpha,
        });
    }

    pub fn len(&self) -> (r: usize)
        ensures
            r == self.instances@.len(),
    {
        self.instances.len()
    }

    /// Bytes that the records take in the GPU instance buffer.
    pub fn size(&self) -> (r: usize)
        requires
            self.instances@.len() * INSTANCE_SIZE <= usize::MAX,
        ensures
            r == self.instances@.len() * INSTANCE_SIZE,
    {
        self.len() * INSTANCE_SIZE
    }

    /// The batch holds as many records as one draw takes.
    pub fn is_full(&self) -> (r: bool)
        ensures
            r == (self.instances@.len() >= BATCH_MAX),
    {
        self.len() >= BATCH_MAX
    }

    /// Empties the batch and forgets its atlas.
    pub fn clear(&mut self)
        ensures
            final(self).tex == 0,
            final(self).instances@ == Seq::<InstanceData>::empty(),
    {
        self.tex = 0;
        self.instances.clear();
    }
}

} // verus!
