//! The font table: per-character glyph metrics and the metrics of the
//! font as a whole.
//!
//! Glyph metrics are whole atlas pixels, as a bitmap-font descriptor gives
//! them. The fallback advance is in thousandths of a pixel, so that a
//! quarter of a line height is exact.

use vstd::prelude::*;
use std::collections::HashMap;
use crate::fixed::floor_div;

verus! {

/// The code point of the space character.
pub const SPACE: u32 = 32;

/// Where one character sits in the atlas and how the pen moves for it.
#[derive(Debug, Clone, Copy, PartialEq, Eq, Structural)]
pub struct Glyph {
    pub x: u16,
    pub y: u16,
    pub width: u16,
    pub height: u16,
    pub x_offset: i16,
    pub y_offset: i16,
    pub x_advance: i16,
}

/// The metrics of a font and its glyphs, keyed by Unicode scalar value.
#[derive(Debug)]
pub struct BitmapFont {
    pub line_height: u16,
    pub texture_width: u32,
    pub texture_height: u32,
    pub glyphs: HashMap<u32, Glyph>,
    pub space_advance: i32,
}

/// A font table as plain mathematical values.
pub struct FontView {
    pub line_height: u16,
    pub texture_width: u32,
    pub texture_height: u32,
    pub glyphs: Map<u32, Glyph>,
    pub space_advance: i32,
}

impl View for BitmapFont {
    type V = FontView;

    open spec fn view(&self) -> FontView {
        FontView {
            line_height: self.line_height,
            texture_width: self.texture_width,
            texture_height: self.texture_height,
            glyphs: self.glyphs@,
            space_advance: self.space_advance,
        }
    }
}

/// The font that stands in when no descriptor can be had: no glyphs, a
/// line height of 32 and a fallback advance of 8 pixels.
pub open spec fn fallback_font() -> FontView {
    FontView {
        line_height: 32,
        texture_width: 256,
        texture_height: 256,
        glyphs: Map::empty(),
        space_advance: 8000,
    }
}

/// The fallback advance of a font with the given glyphs: the advance of
/// the space glyph where there is one, else a quarter of the line height.
/// In thousandths of a pixel.
pub open spec fn spec_space_advance(glyphs: Map<u32, Glyph>, line_height: u16) -> int {
    if glyphs.contains_key(SPACE) {
        1000 * glyphs[SPACE].x_advance
    } else {
        250 * line_height
    }
}

impl FontView {
    /// How far the pen moves for `c` at `scale` (in millionths), in
    /// millionths of a pixel: the glyph's advance where the font has the
    /// character, else the fallback advance.
    pub open spec fn advance(self, c: char, scale: int) -> int {
        if self.glyphs.contains_key(c as u32) {
            self.glyphs[c as u32].x_advance * scale
        } else {
            floor_div(self.space_advance * scale, 1000)
        }
    }

    /// The height of one line at `scale`, in millionths of a pixel.
    pub open spec fn line_step(self, scale: int) -> int {
        self.line_height * scale
    }
}

impl BitmapFont {
    /// The font that stands in when no descriptor can be had.
    pub fn fallback() -> (font: BitmapFont)
        ensures
            font@ == fallback_font(),
    {
        BitmapFont {
            line_height: 32,
            texture_width: 256,
            texture_height: 256,
            glyphs: HashMap::new(),
            space_advance: 8000,
        }
    }

    /// Records the size of the atlas that belongs to the font.
    pub fn set_texture_size(&mut self, width: u32, height: u32)
        ensures
            final(self)@ == (FontView {
                texture_width: width,
                texture_height: height,
                ..old(self)@
            }),
    {
        self.texture_width = width;
        self.texture_height = height;
    }

    /// The glyph of `c`, if the font has one.
    pub fn glyph(&self, c: char) -> (glyph: Option<Glyph>)
        ensures
            glyph == (if self@.glyphs.contains_key(c as u32) {
                Some(self@.glyphs[c as u32])
            } else {
                None
            }),
    {
        broadcast use vstd::std_specs::hash::group_hash_axioms;

        match self.glyphs.get(&(c as u32)) {
            Some(glyph) => Some(*glyph),
            None => None,
        }
    }

    /// How far the pen moves for `c` at `scale`.
    pub fn advance(&self, c: char, scale: u32) -> (step: i64)
        ensures
            step == self@.advance(c, scale as int),
    {
        match self.glyph(c) {
            Some(glyph) => {
                assert(-0x8000 * 0x1_0000_0000 <= glyph.x_advance * scale <= 0x8000
                    * 0x1_0000_0000) by (nonlinear_arith)
                    requires
                        -0x8000 <= glyph.x_advance <= 0x7fff,
                        0 <= scale <= 0xffff_ffff,
                ;
                (glyph.x_advance as i64) * (scale as i64)
            },
            None => {
                assert(-0x8000_0000 * 0x1_0000_0000 <= self.space_advance * scale <= 0x8000_0000
                    * 0x1_0000_0000) by (nonlinear_arith)
                    requires
                        -0x8000_0000 <= self.space_advance <= 0x7fff_ffff,
                        0 <= scale <= 0xffff_ffff,
                ;
                let product: i128 = (self.space_advance as i128) * (scale as i128);
                let step: i128 = crate::fixed::floor_div_i128(product, 1000);
                step as i64
            },
        }
    }
}

} // verus!
