//! Drawing text: every glyph is taken from the atlas, scaled to the
//! nearest neighbour and blended over the canvas.
//!
//! Scales are in millionths, pen positions in millionths of a pixel and
//! opacities in thousandths.

use vstd::prelude::*;
use crate::atlas::{AtlasView, FontAtlas};
use crate::fixed::{floor_div, max_int, round_div, round_div_i128};
use crate::font::{BitmapFont, FontView, Glyph};
use crate::measure::{count_newlines, lemma_advance_bound, lemma_pen_bound, pen_x};
use crate::raster::{blend_pixel, blended, with_pixel};
use crate::text::chars_of;

verus! {

/// The column of the pixel that byte `k` of a canvas belongs to.
pub open spec fn column_of(k: int, width: int) -> int {
    (k / 4) % width
}

/// The row of the pixel that byte `k` of a canvas belongs to.
pub open spec fn row_of(k: int, width: int) -> int {
    (k / 4) / width
}

/// The width or height on the canvas of a glyph cell: the extent in the
/// atlas times the scale, rounded, and at least one pixel.
pub open spec fn cell_size(extent: u16, scale: int) -> int {
    max_int(round_div(extent as int * scale, 1_000_000), 1)
}

/// The atlas offset that feeds the canvas offset `d` of a cell: `d`
/// divided by the scale, rounded down.
pub open spec fn source_offset(d: int, scale: int) -> int {
    floor_div(d * 1_000_000, scale)
}

/// The atlas pixel that the canvas offset `(dx, dy)` within the cell of
/// `glyph` is drawn from, if it is drawn at all: the offset lies in the
/// cell, its source lies in the glyph and in the atlas, and the source
/// pixel is not fully transparent.
pub open spec fn texel(glyph: Glyph, atlas: AtlasView, scale: int, dx: int, dy: int) -> Option<
    (int, int),
> {
    let sx = source_offset(dx, scale);
    let sy = source_offset(dy, scale);
    let tx = glyph.x + sx;
    let ty = glyph.y + sy;
    if 0 <= dx < cell_size(glyph.width, scale) && 0 <= dy < cell_size(glyph.height, scale) && sx
        < glyph.width && sy < glyph.height && tx < atlas.width && ty < atlas.height
        && atlas.pixels[atlas.offset(tx, ty) + 3] != 0 {
        Some((tx, ty))
    } else {
        None
    }
}

/// Byte `k` of the canvas after `glyph` was drawn with the corner of its
/// cell at column `x` and row `y`.
pub open spec fn stamped_byte(
    canvas: Seq<u8>,
    width: int,
    glyph: Glyph,
    atlas: AtlasView,
    scale: int,
    x: int,
    y: int,
    opacity: u16,
    k: int,
) -> u8 {
    match texel(glyph, atlas, scale, column_of(k, width) - x, row_of(k, width) - y) {
        Some((tx, ty)) => {
            let at = atlas.offset(tx, ty);
            blended(
                canvas.subrange(4 * (k / 4), 4 * (k / 4) + 4),
                atlas.pixels[at],
                atlas.pixels[at + 1],
                atlas.pixels[at + 2],
                atlas.pixels[at + 3],
                opacity,
            )[k % 4]
        },
        None => canvas[k],
    }
}

/// The canvas after `glyph` was drawn with the corner of its cell at
/// column `x` and row `y`: every pixel that the cell covers with a source
/// pixel has that pixel blended over it, and all others are as before.
pub open spec fn stamped(
    canvas: Seq<u8>,
    width: int,
    glyph: Glyph,
    atlas: AtlasView,
    scale: int,
    x: int,
    y: int,
    opacity: u16,
) -> Seq<u8> {
    Seq::new(
        canvas.len(),
        |k: int| stamped_byte(canvas, width, glyph, atlas, scale, x, y, opacity, k),
    )
}

/// Whether the pixel of byte `k` comes before the offset `(dx, dy)` of a
/// cell at `(x, y)`, row by row.
pub open spec fn reached(k: int, width: int, x: int, y: int, dx: int, dy: int) -> bool {
    let row = row_of(k, width) - y;
    let col = column_of(k, width) - x;
    row < dy || (row == dy && col < dx)
}

/// `canvas` is `base` with the glyph drawn as far as offset `(dx, dy)`.
pub open spec fn stamped_until(
    canvas: Seq<u8>,
    base: Seq<u8>,
    width: int,
    glyph: Glyph,
    atlas: AtlasView,
    scale: int,
    x: int,
    y: int,
    opacity: u16,
    dx: int,
    dy: int,
) -> bool {
    &&& canvas.len() == base.len()
    &&& forall|k: int|
        0 <= k < base.len() ==> #[trigger] canvas[k] == if reached(k, width, x, y, dx, dy) {
            stamped_byte(base, width, glyph, atlas, scale, x, y, opacity, k)
        } else {
            base[k]
        }
}

/// The bytes of the pixel in column `px` of row `py` are those whose
/// column is `px` and whose row is `py`.
pub proof fn lemma_pixel_bytes(k: int, width: int, px: int, py: int)
    requires
        width > 0,
        0 <= px < width,
        0 <= k,
    ensures
        (4 * (py * width + px) <= k < 4 * (py * width + px) + 4) <==> (column_of(k, width) == px
            && row_of(k, width) == py),
        column_of(k, width) == px && row_of(k, width) == py ==> k / 4 == py * width + px && k % 4
            == k - 4 * (py * width + px),
{
    let p = k / 4;
    vstd::arithmetic::div_mod::lemma_fundamental_div_mod(p, width);
    if 4 * (py * width + px) <= k < 4 * (py * width + px) + 4 {
        assert(p == py * width + px);
        vstd::arithmetic::div_mod::lemma_fundamental_div_mod_converse(p, width, py, px);
    }
    if column_of(k, width) == px && row_of(k, width) == py {
        assert(p == width * py + px);
        assert(width * py == py * width) by (nonlinear_arith);
    }
}

/// A byte of a canvas of `width` by `height` pixels belongs to a pixel
/// within these bounds.
pub proof fn lemma_byte_in_canvas(k: int, width: int, height: int)
    requires
        0 <= k < 4 * width * height,
        width >= 0,
        height >= 0,
    ensures
        width > 0,
        0 <= column_of(k, width) < width,
        0 <= row_of(k, width) < height,
{
    assert(width > 0 && height > 0) by (nonlinear_arith)
        requires
            0 <= k < 4 * width * height,
            width >= 0,
            height >= 0,
    ;
    let p = k / 4;
    assert(p < width * height) by (nonlinear_arith)
        requires
            k < 4 * width * height,
            p == k / 4,
    ;
    vstd::arithmetic::div_mod::lemma_fundamental_div_mod(p, width);
    vstd::arithmetic::div_mod::lemma_mod_bound(p, width);
    vstd::arithmetic::div_mod::lemma_div_pos_is_pos(p, width);
    let q = p / width;
    assert(q < height) by (nonlinear_arith)
        requires
            p == width * q + p % width,
            0 <= p % width < width,
            p < width * height,
            width > 0,
            q >= 0,
    ;
}

/// Nothing is drawn before the first offset.
pub proof fn lemma_stamp_start(
    base: Seq<u8>,
    width: int,
    glyph: Glyph,
    atlas: AtlasView,
    scale: int,
    x: int,
    y: int,
    opacity: u16,
)
    ensures
        stamped_until(base, base, width, glyph, atlas, scale, x, y, opacity, 0, 0),
{
}

/// An offset from which nothing is drawn can be passed over.
pub proof fn lemma_stamp_skip(
    canvas: Seq<u8>,
    base: Seq<u8>,
    width: int,
    height: int,
    glyph: Glyph,
    atlas: AtlasView,
    scale: int,
    x: int,
    y: int,
    opacity: u16,
    dx: int,
    dy: int,
)
    requires
        base.len() == 4 * width * height,
        width >= 0,
        height >= 0,
        stamped_until(canvas, base, width, glyph, atlas, scale, x, y, opacity, dx, dy),
        texel(glyph, atlas, scale, dx, dy) is None || !(0 <= x + dx < width) || !(0 <= y + dy
            < height),
    ensures
        stamped_until(canvas, base, width, glyph, atlas, scale, x, y, opacity, dx + 1, dy),
{
    assert forall|k: int| 0 <= k < base.len() implies #[trigger] canvas[k] == if reached(
        k,
        width,
        x,
        y,
        dx + 1,
        dy,
    ) {
        stamped_byte(base, width, glyph, atlas, scale, x, y, opacity, k)
    } else {
        base[k]
    } by {
        lemma_byte_in_canvas(k, width, height);
    }
}

/// After the last offset of a row comes the first one of the next row.
pub proof fn lemma_stamp_next_row(
    canvas: Seq<u8>,
    base: Seq<u8>,
    width: int,
    glyph: Glyph,
    atlas: AtlasView,
    scale: int,
    x: int,
    y: int,
    opacity: u16,
    dx: int,
    dy: int,
)
    requires
        stamped_until(canvas, base, width, glyph, atlas, scale, x, y, opacity, dx, dy),
        dx >= cell_size(glyph.width, scale),
    ensures
        stamped_until(canvas, base, width, glyph, atlas, scale, x, y, opacity, 0, dy + 1),
{
}

/// A row from which nothing is drawn can be passed over.
pub proof fn lemma_stamp_skip_row(
    canvas: Seq<u8>,
    base: Seq<u8>,
    width: int,
    height: int,
    glyph: Glyph,
    atlas: AtlasView,
    scale: int,
    x: int,
    y: int,
    opacity: u16,
    dy: int,
)
    requires
        base.len() == 4 * width * height,
        width >= 0,
        height >= 0,
        stamped_until(canvas, base, width, glyph, atlas, scale, x, y, opacity, 0, dy),
        source_offset(dy, scale) >= glyph.height || !(0 <= y + dy < height),
    ensures
        stamped_until(canvas, base, width, glyph, atlas, scale, x, y, opacity, 0, dy + 1),
{
    assert forall|k: int| 0 <= k < base.len() implies #[trigger] canvas[k] == if reached(
        k,
        width,
        x,
        y,
        0,
        dy + 1,
    ) {
        stamped_byte(base, width, glyph, atlas, scale, x, y, opacity, k)
    } else {
        base[k]
    } by {
        lemma_byte_in_canvas(k, width, height);
    }
}

/// Blending the source pixel of an offset over its canvas pixel draws
/// that offset.
pub proof fn lemma_stamp_blend(
    canvas: Seq<u8>,
    after: Seq<u8>,
    base: Seq<u8>,
    width: int,
    height: int,
    glyph: Glyph,
    atlas: AtlasView,
    scale: int,
    x: int,
    y: int,
    opacity: u16,
    dx: int,
    dy: int,
)
    requires
        base.len() == 4 * width * height,
        width >= 0,
        height >= 0,
        stamped_until(canvas, base, width, glyph, atlas, scale, x, y, opacity, dx, dy),
        texel(glyph, atlas, scale, dx, dy) is Some,
        0 <= x + dx < width,
        0 <= y + dy < height,
        after == ({
            let (tx, ty) = texel(glyph, atlas, scale, dx, dy)->0;
            let from = atlas.offset(tx, ty);
            let at = 4 * ((y + dy) * width + (x + dx));
            with_pixel(
                canvas,
                at,
                blended(
                    canvas.subrange(at, at + 4),
                    atlas.pixels[from],
                    atlas.pixels[from + 1],
                    atlas.pixels[from + 2],
                    atlas.pixels[from + 3],
                    opacity,
                ),
            )
        }),
    ensures
        stamped_until(after, base, width, glyph, atlas, scale, x, y, opacity, dx + 1, dy),
{
    let at = 4 * ((y + dy) * width + (x + dx));
    assert(0 <= at && at + 4 <= base.len()) by (nonlinear_arith)
        requires
            at == 4 * ((y + dy) * width + (x + dx)),
            0 <= x + dx < width,
            0 <= y + dy < height,
            base.len() == 4 * width * height,
    ;
    assert forall|k: int| at <= k < at + 4 implies canvas[k] == base[k] by {
        lemma_pixel_bytes(k, width, x + dx, y + dy);
    }
    assert(canvas.subrange(at, at + 4) =~= base.subrange(at, at + 4));
    assert forall|k: int| 0 <= k < base.len() implies #[trigger] after[k] == if reached(
        k,
        width,
        x,
        y,
        dx + 1,
        dy,
    ) {
        stamped_byte(base, width, glyph, atlas, scale, x, y, opacity, k)
    } else {
        base[k]
    } by {
        lemma_pixel_bytes(k, width, x + dx, y + dy);
        if at <= k < at + 4 {
            assert(4 * (k / 4) == at);
        }
    }
}

/// Once all rows of the cell are passed, the glyph is drawn.
pub proof fn lemma_stamp_done(
    canvas: Seq<u8>,
    base: Seq<u8>,
    width: int,
    glyph: Glyph,
    atlas: AtlasView,
    scale: int,
    x: int,
    y: int,
    opacity: u16,
    dy: int,
)
    requires
        stamped_until(canvas, base, width, glyph, atlas, scale, x, y, opacity, 0, dy),
        dy >= cell_size(glyph.height, scale),
    ensures
        canvas == stamped(base, width, glyph, atlas, scale, x, y, opacity),
{
    assert(canvas =~= stamped(base, width, glyph, atlas, scale, x, y, opacity));
}

/// Where a glyph is drawn at full opacity from a fully opaque source
/// pixel, the canvas pixel becomes the source pixel: its colour, and the
/// alpha 255, whatever was there before.
pub proof fn lemma_opaque_glyph_pixel(
    canvas: Seq<u8>,
    width: int,
    height: int,
    glyph: Glyph,
    atlas: AtlasView,
    scale: int,
    x: int,
    y: int,
    px: int,
    py: int,
)
    requires
        canvas.len() == 4 * width * height,
        0 <= px < width,
        0 <= py < height,
        texel(glyph, atlas, scale, px - x, py - y) is Some,
        ({
            let (tx, ty) = texel(glyph, atlas, scale, px - x, py - y)->0;
            atlas.pixels[atlas.offset(tx, ty) + 3] == 255
        }),
    ensures
        ({
            let (tx, ty) = texel(glyph, atlas, scale, px - x, py - y)->0;
            let from = atlas.offset(tx, ty);
            let at = 4 * (py * width + px);
            stamped(canvas, width, glyph, atlas, scale, x, y, 1000).subrange(at, at + 4) == seq![
                atlas.pixels[from + 2],
                atlas.pixels[from + 1],
                atlas.pixels[from],
                255u8,
            ]
        }),
{
    let (tx, ty) = texel(glyph, atlas, scale, px - x, py - y)->0;
    let from = atlas.offset(tx, ty);
    let at = 4 * (py * width + px);
    let after = stamped(canvas, width, glyph, atlas, scale, x, y, 1000);
    assert(0 <= at && at + 4 <= canvas.len()) by (nonlinear_arith)
        requires
            at == 4 * (py * width + px),
            0 <= px < width,
            0 <= py < height,
            canvas.len() == 4 * width * height,
    ;
    crate::raster::lemma_opaque_source_replaces(
        canvas.subrange(at, at + 4),
        atlas.pixels[from],
        atlas.pixels[from + 1],
        atlas.pixels[from + 2],
    );
    let source = seq![atlas.pixels[from + 2], atlas.pixels[from + 1], atlas.pixels[from], 255u8];
    assert forall|i: int| 0 <= i < 4 implies after.subrange(at, at + 4)[i] == source[i] by {
        let k = at + i;
        lemma_pixel_bytes(k, width, px, py);
        assert(4 * (k / 4) == at);
        assert(k % 4 == i);
    }
    assert(after.subrange(at, at + 4) =~= source);
}

/// The size on the canvas of a glyph cell.
pub fn cell_extent(extent: u16, scale: u32) -> (size: u64)
    ensures
        size == cell_size(extent, scale as int),
        1 <= size <= 0x1_0000_0000,
{
    assert(0 <= extent as int * scale as int <= 0xffff * 0xffff_ffff) by (nonlinear_arith)
        requires
            0 <= extent <= 0xffff,
            0 <= scale <= 0xffff_ffff,
    ;
    let product: u64 = (extent as u64) * (scale as u64);
    proof {
        crate::fixed::lemma_round_div_bounds(product as int, 1_000_000, 0, 0x1_0000_0000);
    }
    let rounded: u64 = (2 * product + 1_000_000) / 2_000_000;
    if rounded < 1 {
        1
    } else {
        rounded
    }
}

/// The atlas offset that feeds a canvas offset.
pub fn source_of(d: u64, scale: u32) -> (offset: u64)
    requires
        scale > 0,
        d <= 0x1_0000_0000,
    ensures
        offset == source_offset(d as int, scale as int),
{
    (d * 1_000_000) / (scale as u64)
}

/// Draws one glyph with the corner of its cell at column `x` and row `y`
/// of the canvas. What falls outside the canvas or the atlas is left out.
pub fn draw_glyph(
    canvas: &mut [u8],
    canvas_w: u32,
    canvas_h: u32,
    glyph: Glyph,
    atlas: &FontAtlas,
    scale: u32,
    x: i128,
    y: i128,
    opacity: u16,
)
    requires
        old(canvas)@.len() == 4 * canvas_w * canvas_h,
        scale > 0,
        opacity <= 1000,
        -0x1_0000_0000_0000_0000_0000_0000_0000 <= x <= 0x1_0000_0000_0000_0000_0000_0000_0000,
        -0x1_0000_0000_0000_0000_0000_0000_0000 <= y <= 0x1_0000_0000_0000_0000_0000_0000_0000,
    ensures
        final(canvas)@ == stamped(
            old(canvas)@,
            canvas_w as int,
            glyph,
            atlas@,
            scale as int,
            x as int,
            y as int,
            opacity,
        ),
{
    let ghost base = canvas@;
    let ghost w = canvas_w as int;
    let ghost h = canvas_h as int;
    let size: usize = canvas.len();
    let dest_w: u64 = cell_extent(glyph.width, scale);
    let dest_h: u64 = cell_extent(glyph.height, scale);
    proof {
        lemma_stamp_start(base, w, glyph, atlas@, scale as int, x as int, y as int, opacity);
    }
    let mut dy: u64 = 0;
    while dy < dest_h
        invariant
            base.len() == 4 * w * h,
            base.len() == size,
            w == canvas_w,
            h == canvas_h,
            scale > 0,
            opacity <= 1000,
            -0x1_0000_0000_0000_0000_0000_0000_0000 <= x <= 0x1_0000_0000_0000_0000_0000_0000_0000,
            -0x1_0000_0000_0000_0000_0000_0000_0000 <= y <= 0x1_0000_0000_0000_0000_0000_0000_0000,
            dest_w == cell_size(glyph.width, scale as int),
            dest_h == cell_size(glyph.height, scale as int),
            dest_w <= 0x1_0000_0000,
            dest_h <= 0x1_0000_0000,
            dy <= dest_h,
            stamped_until(
                canvas@,
                base,
                w,
                glyph,
                atlas@,
                scale as int,
                x as int,
                y as int,
                opacity,
                0,
                dy as int,
            ),
        decreases dest_h - dy,
    {
        let src_y: u64 = source_of(dy, scale);
        let dest_y: i128 = y + dy as i128;
        if src_y < glyph.height as u64 && 0 <= dest_y && dest_y < canvas_h as i128 {
            let mut dx: u64 = 0;
            while dx < dest_w
                invariant
                    base.len() == 4 * w * h,
                    base.len() == size,
                    w == canvas_w,
                    h == canvas_h,
                    scale > 0,
                    opacity <= 1000,
                    -0x1_0000_0000_0000_0000_0000_0000_0000 <= x
                        <= 0x1_0000_0000_0000_0000_0000_0000_0000,
                    dest_w == cell_size(glyph.width, scale as int),
                    dest_h == cell_size(glyph.height, scale as int),
                    dest_w <= 0x1_0000_0000,
                    dy < dest_h,
                    dx <= dest_w,
                    src_y == source_offset(dy as int, scale as int),
                    src_y < glyph.height,
                    dest_y == y + dy,
                    0 <= dest_y < canvas_h,
                    stamped_until(
                        canvas@,
                        base,
                        w,
                        glyph,
                        atlas@,
                        scale as int,
                        x as int,
                        y as int,
                        opacity,
                        dx as int,
                        dy as int,
                    ),
                decreases dest_w - dx,
            {
                let src_x: u64 = source_of(dx, scale);
                let dest_x: i128 = x + dx as i128;
                let tex_x: u64 = glyph.x as u64 + src_x;
                let tex_y: u64 = glyph.y as u64 + src_y;
                let mut drawn: bool = false;
                if src_x < glyph.width as u64 && 0 <= dest_x && dest_x < canvas_w as i128 && tex_x
                    < atlas.width() as u64 && tex_y < atlas.height() as u64 {
                    let (r, g, b, a) = atlas.pixel(tex_x as u32, tex_y as u32);
                    if a != 0 {
                        proof {
                            assert(0 <= dest_y * w <= dest_y * w + dest_x && 4 * (dest_y * w
                                + dest_x) + 4 <= 4 * w * h) by (nonlinear_arith)
                                requires
                                    0 <= dest_x < w,
                                    0 <= dest_y < h,
                            ;
                        }
                        let at: usize = 4 * ((dest_y as usize) * (canvas_w as usize)
                            + dest_x as usize);
                        let ghost before = canvas@;
                        blend_pixel(canvas, at, r, g, b, a, opacity);
                        proof {
                            lemma_stamp_blend(
                                before,
                                canvas@,
                                base,
                                w,
                                h,
                                glyph,
                                atlas@,
                                scale as int,
                                x as int,
                                y as int,
                                opacity,
                                dx as int,
                                dy as int,
                            );
                        }
                        drawn = true;
                    }
                }
                if !drawn {
                    proof {
                        lemma_stamp_skip(
                            canvas@,
                            base,
                            w,
                            h,
                            glyph,
                            atlas@,
                            scale as int,
                            x as int,
                            y as int,
                            opacity,
                            dx as int,
                            dy as int,
                        );
                    }
                }
                dx = dx + 1;
            }
            proof {
                lemma_stamp_next_row(
                    canvas@,
                    base,
                    w,
                    glyph,
                    atlas@,
                    scale as int,
                    x as int,
                    y as int,
                    opacity,
                    dx as int,
                    dy as int,
                );
            }
        } else {
            proof {
                lemma_stamp_skip_row(
                    canvas@,
                    base,
                    w,
                    h,
                    glyph,
                    atlas@,
                    scale as int,
                    x as int,
                    y as int,
                    opacity,
                    dy as int,
                );
            }
        }
        dy = dy + 1;
    }
    proof {
        lemma_stamp_done(
            canvas@,
            base,
            w,
            glyph,
            atlas@,
            scale as int,
            x as int,
            y as int,
            opacity,
            dy as int,
        );
    }
}

/// Where the pen stands after `text`, in millionths of a pixel: a line
/// feed takes it back to the origin column and one line down, every other
/// character moves it right by its advance.
pub open spec fn pen_after(
    font: FontView,
    text: Seq<char>,
    scale: int,
    origin_x: int,
    origin_y: int,
) -> (int, int) {
    (origin_x + pen_x(font, text, scale), origin_y + count_newlines(text) * font.line_step(scale))
}

/// The canvas pixel at which the cell of `glyph` starts when the pen
/// stands at `pen`: the pen moved by the glyph's offset, rounded.
pub open spec fn cell_corner(glyph: Glyph, pen: (int, int), scale: int) -> (int, int) {
    (
        round_div(pen.0 + glyph.x_offset * scale, 1_000_000),
        round_div(pen.1 + glyph.y_offset * scale, 1_000_000),
    )
}

/// The canvas after `text` was drawn, character by character. A line feed
/// and a character without a glyph draw nothing.
pub open spec fn drawn(
    canvas: Seq<u8>,
    width: int,
    font: FontView,
    atlas: AtlasView,
    text: Seq<char>,
    scale: int,
    origin_x: int,
    origin_y: int,
    opacity: u16,
) -> Seq<u8>
    decreases text.len(),
{
    if text.len() == 0 {
        canvas
    } else {
        let before = drawn(
            canvas,
            width,
            font,
            atlas,
            text.drop_last(),
            scale,
            origin_x,
            origin_y,
            opacity,
        );
        let c = text.last();
        if c != '\n' && font.glyphs.contains_key(c as u32) {
            let glyph = font.glyphs[c as u32];
            let corner = cell_corner(
                glyph,
                pen_after(font, text.drop_last(), scale, origin_x, origin_y),
                scale,
            );
            stamped(before, width, glyph, atlas, scale, corner.0, corner.1, opacity)
        } else {
            before
        }
    }
}

/// A character that the font has no glyph for moves the pen by the
/// fallback advance and leaves every pixel as it is.
pub proof fn lemma_unmapped_character(
    canvas: Seq<u8>,
    width: int,
    font: FontView,
    atlas: AtlasView,
    text: Seq<char>,
    c: char,
    scale: int,
    origin_x: int,
    origin_y: int,
    opacity: u16,
)
    requires
        c != '\n',
        !font.glyphs.contains_key(c as u32),
    ensures
        pen_after(font, text.push(c), scale, origin_x, origin_y).0 == pen_after(
            font,
            text,
            scale,
            origin_x,
            origin_y,
        ).0 + floor_div(font.space_advance * scale, 1000),
        pen_after(font, text.push(c), scale, origin_x, origin_y).1 == pen_after(
            font,
            text,
            scale,
            origin_x,
            origin_y,
        ).1,
        drawn(canvas, width, font, atlas, text.push(c), scale, origin_x, origin_y, opacity)
            == drawn(canvas, width, font, atlas, text, scale, origin_x, origin_y, opacity),
{
    assert(text.push(c).drop_last() =~= text);
    assert(text.push(c).last() == c);
}

/// Drawing keeps the size of the canvas.
pub proof fn lemma_drawn_len(
    canvas: Seq<u8>,
    width: int,
    font: FontView,
    atlas: AtlasView,
    text: Seq<char>,
    scale: int,
    origin_x: int,
    origin_y: int,
    opacity: u16,
)
    ensures
        drawn(canvas, width, font, atlas, text, scale, origin_x, origin_y, opacity).len()
            == canvas.len(),
    decreases text.len(),
{
    if text.len() > 0 {
        lemma_drawn_len(
            canvas,
            width,
            font,
            atlas,
            text.drop_last(),
            scale,
            origin_x,
            origin_y,
            opacity,
        );
    }
}

/// Draws `text` onto the canvas with the pen starting at the origin.
pub fn draw_chars(
    canvas: &mut [u8],
    canvas_w: u32,
    canvas_h: u32,
    font: &BitmapFont,
    atlas: &FontAtlas,
    text: &Vec<char>,
    scale: u32,
    origin_x: i64,
    origin_y: i64,
    opacity: u16,
)
    requires
        old(canvas)@.len() == 4 * canvas_w * canvas_h,
        scale > 0,
        opacity <= 1000,
    ensures
        final(canvas)@ == drawn(
            old(canvas)@,
            canvas_w as int,
            font@,
            atlas@,
            text@,
            scale as int,
            origin_x as int,
            origin_y as int,
            opacity,
        ),
{
    let ghost base = canvas@;
    let mut cursor_x: i128 = origin_x as i128;
    let mut cursor_y: i128 = origin_y as i128;
    assert(0 <= font.line_height as int * scale as int <= 0xffff * 0xffff_ffff)
        by (nonlinear_arith)
        requires
            0 <= font.line_height <= 0xffff,
            0 <= scale <= 0xffff_ffff,
    ;
    let line_step: i128 = (font.line_height as i128) * (scale as i128);
    let mut i: usize = 0;
    proof {
        let none = text@.subrange(0, 0);
        assert(none.len() == 0);
        assert(count_newlines(none) == 0);
        assert(count_newlines(none) * line_step == 0) by (nonlinear_arith)
            requires
                count_newlines(none) == 0,
        ;
    }
    while i < text.len()
        invariant
            i <= text.len(),
            canvas@.len() == 4 * canvas_w * canvas_h,
            scale > 0,
            opacity <= 1000,
            0 <= line_step <= 0xffff * 0xffff_ffff,
            line_step == font@.line_step(scale as int),
            cursor_x == origin_x + pen_x(font@, text@.subrange(0, i as int), scale as int),
            cursor_y == origin_y + count_newlines(text@.subrange(0, i as int)) * line_step,
            canvas@ == drawn(
                base,
                canvas_w as int,
                font@,
                atlas@,
                text@.subrange(0, i as int),
                scale as int,
                origin_x as int,
                origin_y as int,
                opacity,
            ),
        decreases text.len() - i,
    {
        let ghost before = text@.subrange(0, i as int);
        let ghost after = text@.subrange(0, i + 1);
        let ghost lines = count_newlines(before);
        proof {
            assert(after.drop_last() =~= before);
            assert(after.last() == text@[i as int]);
            lemma_pen_bound(font@, before, scale as int);
            lemma_pen_bound(font@, after, scale as int);
            lemma_advance_bound(font@, text@[i as int], scale as int);
            assert(0 <= lines * line_step <= 0x1_0000_0000_0000_0000 * (0xffff * 0xffff_ffff))
                by (nonlinear_arith)
                requires
                    0 <= lines <= 0x1_0000_0000_0000_0000,
                    0 <= line_step <= 0xffff * 0xffff_ffff,
            ;
            assert((lines + 1) * line_step == lines * line_step + line_step)
                by (nonlinear_arith);
        }
        let ch: char = text[i];
        if ch == '\n' {
            cursor_x = origin_x as i128;
            cursor_y = cursor_y + line_step;
        } else {
            match font.glyph(ch) {
                Some(glyph) => {
                    assert(-0x8000 * 0x1_0000_0000 <= glyph.x_offset * scale <= 0x8000
                        * 0x1_0000_0000 && -0x8000 * 0x1_0000_0000 <= glyph.y_offset * scale
                        <= 0x8000 * 0x1_0000_0000) by (nonlinear_arith)
                        requires
                            -0x8000 <= glyph.x_offset <= 0x7fff,
                            -0x8000 <= glyph.y_offset <= 0x7fff,
                            0 <= scale <= 0xffff_ffff,
                    ;
                    let x0: i128 = cursor_x + (glyph.x_offset as i128) * (scale as i128);
                    let y0: i128 = cursor_y + (glyph.y_offset as i128) * (scale as i128);
                    proof {
                        let bound = 0x1_0000_0000_0000_0000_0000_0000_0000int;
                        crate::fixed::lemma_round_div_bounds(x0 as int, 1_000_000, -bound, bound);
                        crate::fixed::lemma_round_div_bounds(y0 as int, 1_000_000, -bound, bound);
                    }
                    let x: i128 = round_div_i128(x0, 1_000_000);
                    let y: i128 = round_div_i128(y0, 1_000_000);
                    draw_glyph(canvas, canvas_w, canvas_h, glyph, atlas, scale, x, y, opacity);
                    cursor_x = cursor_x + font.advance(ch, scale) as i128;
                },
                None => {
                    cursor_x = cursor_x + font.advance(ch, scale) as i128;
                },
            }
        }
        i = i + 1;
    }
    assert(text@.subrange(0, i as int) =~= text@);
}

/// Draws `text` onto a canvas of `canvas_w` by `canvas_h` pixels. The pen
/// starts at the origin, given in millionths of a pixel; `scale` is in
/// millionths and `opacity` in thousandths.
pub fn draw_text(
    canvas: &mut [u8],
    canvas_w: u32,
    canvas_h: u32,
    font: &BitmapFont,
    atlas: &FontAtlas,
    text: &str,
    scale: u32,
    origin_x: i64,
    origin_y: i64,
    opacity: u16,
)
    requires
        old(canvas)@.len() == 4 * canvas_w * canvas_h,
        scale > 0,
        opacity <= 1000,
    ensures
        final(canvas)@ == drawn(
            old(canvas)@,
            canvas_w as int,
            font@,
            atlas@,
            text@,
            scale as int,
            origin_x as int,
            origin_y as int,
            opacity,
        ),
        final(canvas)@.len() == old(canvas)@.len(),
{
    let chars: Vec<char> = chars_of(text);
    proof {
        lemma_drawn_len(
            canvas@,
            canvas_w as int,
            font@,
            atlas@,
            text@,
            scale as int,
            origin_x as int,
            origin_y as int,
            opacity,
        );
    }
    draw_chars(canvas, canvas_w, canvas_h, font, atlas, &chars, scale, origin_x, origin_y, opacity);
}

} // verus!
