//! Font and atlas together, with the fallbacks for what could not be had.

use vstd::prelude::*;
use crate::atlas::{empty_atlas, AtlasView, FontAtlas};
use crate::descriptor::{load_bitmap_font, spec_load_bitmap_font};
use crate::font::{fallback_font, BitmapFont, FontView};

verus! {

/// A decoded image: RGBA8, row by row.
#[derive(Debug)]
pub struct Texture {
    pub pixels: Vec<u8>,
    pub width: u32,
    pub height: u32,
}

/// The font for a descriptor, or the fallback font where there is none.
pub open spec fn font_or_fallback(descriptor: Option<Seq<char>>) -> FontView {
    match descriptor {
        Some(content) => spec_load_bitmap_font(content),
        None => fallback_font(),
    }
}

/// Whether a decoded image can serve as an atlas: it has four bytes for
/// every pixel.
pub open spec fn usable(pixels: Seq<u8>, width: u32, height: u32) -> bool {
    pixels.len() == 4 * width * height
}

/// Puts font and atlas together from what could be read. `None` stands
/// for a file that could not be read or decoded. Without a descriptor the
/// font is the fallback font; without a usable texture the atlas is the
/// empty atlas; with one, the font records its size.
pub fn load_assets(descriptor: Option<&str>, texture: Option<Texture>) -> (assets: (
    BitmapFont,
    FontAtlas,
))
    ensures
        assets.1@.wf(),
        match texture {
            Some(t) => if usable(t.pixels@, t.width, t.height) {
                &&& assets.0@ == (FontView {
                    texture_width: t.width,
                    texture_height: t.height,
                    ..font_or_fallback(
                        match descriptor {
                            Some(d) => Some(d@),
                            None => None,
                        },
                    )
                })
                &&& assets.1@ == (AtlasView {
                    pixels: t.pixels@,
                    width: t.width,
                    height: t.height,
                })
            } else {
                &&& assets.0@ == font_or_fallback(
                    match descriptor {
                        Some(d) => Some(d@),
                        None => None,
                    },
                )
                &&& assets.1@ == empty_atlas()
            },
            None => {
                &&& assets.0@ == font_or_fallback(
                    match descriptor {
                        Some(d) => Some(d@),
                        None => None,
                    },
                )
                &&& assets.1@ == empty_atlas()
            },
        },
{
    let mut font: BitmapFont = match descriptor {
        Some(content) => load_bitmap_font(content),
        None => BitmapFont::fallback(),
    };
    let atlas: FontAtlas = match texture {
        Some(t) => FontAtlas::load(t.pixels, t.width, t.height, &mut font),
        None => FontAtlas::empty(),
    };
    (font, atlas)
}

} // verus!
