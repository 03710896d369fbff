//! The glyph atlas: the decoded texture that the font table points into.

use vstd::prelude::*;
use crate::font::{BitmapFont, FontView};

verus! {

/// An RGBA8 texture, row by row, four bytes per pixel.
#[derive(Debug)]
pub struct FontAtlas {
    pixels: Vec<u8>,
    width: u32,
    height: u32,
}

/// An atlas as plain mathematical values.
pub struct AtlasView {
    pub pixels: Seq<u8>,
    pub width: u32,
    pub height: u32,
}

impl AtlasView {
    /// There are four bytes for every pixel.
    pub open spec fn wf(self) -> bool {
        self.pixels.len() == 4 * self.width * self.height
    }

    /// Where the pixel in column `x` of row `y` starts.
    pub open spec fn offset(self, x: int, y: int) -> int {
        4 * (y * self.width + x)
    }
}

/// The atlas that stands in when no texture can be had: one fully
/// transparent pixel.
pub open spec fn empty_atlas() -> AtlasView {
    AtlasView { pixels: seq![0u8, 0u8, 0u8, 0u8], width: 1, height: 1 }
}

impl View for FontAtlas {
    type V = AtlasView;

    closed spec fn view(&self) -> AtlasView {
        AtlasView { pixels: self.pixels@, width: self.width, height: self.height }
    }
}

impl FontAtlas {
    #[verifier::type_invariant]
    spec fn sized(&self) -> bool {
        self@.wf()
    }

    /// The atlas that stands in when no texture can be had.
    pub fn empty() -> (atlas: FontAtlas)
        ensures
            atlas@ == empty_atlas(),
            atlas@.wf(),
    {
        let mut pixels: Vec<u8> = Vec::new();
        pixels.push(0);
        pixels.push(0);
        pixels.push(0);
        pixels.push(0);
        assert(pixels@ =~= seq![0u8, 0u8, 0u8, 0u8]);
        FontAtlas { pixels, width: 1, height: 1 }
    }

    /// Takes a decoded texture into use and records its size in the font.
    /// Pixels that do not fill `width` times `height` are no texture: the
    /// result is the empty atlas, and the font is left as it is.
    pub fn load(pixels: Vec<u8>, width: u32, height: u32, font: &mut BitmapFont) -> (atlas:
        FontAtlas)
        ensures
            atlas@.wf(),
            pixels@.len() == 4 * width * height ==> atlas@ == (AtlasView {
                pixels: pixels@,
                width,
                height,
            }) && final(font)@ == (FontView {
                texture_width: width,
                texture_height: height,
                ..old(font)@
            }),
            pixels@.len() != 4 * width * height ==> atlas@ == empty_atlas() && final(font)@ == old(
                font,
            )@,
    {
        assert(4 * (width as int) * (height as int) <= 4 * 0xffff_ffff * 0xffff_ffff)
            by (nonlinear_arith)
            requires
                0 <= width <= 0xffff_ffff,
                0 <= height <= 0xffff_ffff,
        ;
        let needed: u128 = 4 * (width as u128) * (height as u128);
        if pixels.len() as u128 == needed {
            font.set_texture_size(width, height);
            FontAtlas { pixels, width, height }
        } else {
            FontAtlas::empty()
        }
    }

    /// The number of columns.
    pub fn width(&self) -> (width: u32)
        ensures
            width == self@.width,
    {
        self.width
    }

    /// The number of rows.
    pub fn height(&self) -> (height: u32)
        ensures
            height == self@.height,
    {
        self.height
    }

    /// The four bytes, red, green, blue and alpha, of the pixel in column
    /// `x` of row `y`.
    pub fn pixel(&self, x: u32, y: u32) -> (rgba: (u8, u8, u8, u8))
        requires
            x < self@.width,
            y < self@.height,
        ensures
            self@.wf(),
            rgba.0 == self@.pixels[self@.offset(x as int, y as int)],
            rgba.1 == self@.pixels[self@.offset(x as int, y as int) + 1],
            rgba.2 == self@.pixels[self@.offset(x as int, y as int) + 2],
            rgba.3 == self@.pixels[self@.offset(x as int, y as int) + 3],
    {
        let size: usize = self.pixels.len();
        proof {
            use_type_invariant(self);
            let w = self.width as int;
            let h = self.height as int;
            assert(0 <= y * w <= y * w + x && y * w + x < w * h && 4 * (w * h) == 4 * w * h)
                by (nonlinear_arith)
                requires
                    0 <= x < w,
                    0 <= y < h,
            ;
            assert(size == 4 * w * h);
        }
        let at: usize = 4 * ((y as usize) * (self.width as usize) + (x as usize));
        (self.pixels[at], self.pixels[at + 1], self.pixels[at + 2], self.pixels[at + 3])
    }
}

} // verus!
