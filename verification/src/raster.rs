//! Pixels: clearing the canvas, source-over blending and packing.
//!
//! The canvas holds four bytes per pixel in the order blue, green, red,
//! alpha. Opacities are in thousandths.

use vstd::prelude::*;
use crate::fixed::{clamp, lemma_round_div_bounds, lemma_round_div_exact, round_div};

verus! {

/// The denominator of a source alpha: 255 steps of coverage times 1000
/// steps of opacity.
pub const ALPHA_ONE: u32 = 255_000;

/// The alpha of a cleared canvas: opaque where that is forced, else the
/// configured opacity, limited to one, in steps of 1/255.
pub open spec fn background_alpha(force_opaque: bool, opacity: u16) -> int {
    if force_opaque {
        255
    } else {
        round_div(clamp(opacity as int, 0, 1000) * 255, 1000)
    }
}

/// The canvas with every whole pixel set to black with the given alpha.
/// Bytes after the last whole pixel stay.
pub open spec fn cleared(canvas: Seq<u8>, alpha: u8) -> Seq<u8> {
    Seq::new(
        canvas.len(),
        |k: int|
            if k >= canvas.len() - canvas.len() % 4 {
                canvas[k]
            } else if k % 4 == 3 {
                alpha
            } else {
                0u8
            },
    )
}

/// Clears the canvas to black with the configured background alpha.
pub fn fill_background(canvas: &mut [u8], force_opaque: bool, opacity: u16)
    ensures
        0 <= background_alpha(force_opaque, opacity) <= 255,
        final(canvas)@ == cleared(old(canvas)@, background_alpha(force_opaque, opacity) as u8),
{
    let limited: u32 = if opacity > 1000 {
        1000
    } else {
        opacity as u32
    };
    proof {
        lemma_round_div_bounds(limited as int * 255, 1000, 0, 255);
    }
    let a: u8 = if force_opaque {
        255
    } else {
        ((2 * (limited * 255) + 1000) / 2000) as u8
    };
    let len: usize = canvas.len();
    let whole: usize = len - len % 4;
    let mut i: usize = 0;
    while i < whole
        invariant
            len == canvas@.len(),
            len == old(canvas)@.len(),
            whole == len - len % 4,
            i <= whole,
            i % 4 == 0,
            forall|k: int| 0 <= k < i ==> canvas@[k] == cleared(old(canvas)@, a)[k],
            forall|k: int| i <= k < len ==> canvas@[k] == old(canvas)@[k],
        decreases whole - i,
    {
        canvas[i] = 0;
        canvas[i + 1] = 0;
        canvas[i + 2] = 0;
        canvas[i + 3] = a;
        i = i + 4;
    }
    assert(canvas@ =~= cleared(old(canvas)@, a));
}

/// One pixel in the presentation format: red, green and blue in the low
/// three bytes, the high byte 0.
pub open spec fn packed_pixel(blue: u8, green: u8, red: u8) -> u32 {
    (red as u32 * 65536 + green as u32 * 256 + blue as u32) as u32
}

/// The whole pixels of a canvas in the presentation format.
pub open spec fn packed(src: Seq<u8>) -> Seq<u32> {
    Seq::new(
        (src.len() / 4) as nat,
        |i: int| packed_pixel(src[4 * i], src[4 * i + 1], src[4 * i + 2]),
    )
}

/// Packs a canvas into one word per pixel. The alpha is left out.
pub fn pack_bgra_to_xrgb(src: &[u8], dst: &mut Vec<u32>)
    ensures
        final(dst)@ == packed(src@),
{
    let count: usize = src.len() / 4;
    dst.clear();
    let mut i: usize = 0;
    while i < count
        invariant
            count == src@.len() / 4,
            src@.len() <= usize::MAX,
            i <= count,
            dst@.len() == i,
            forall|k: int| 0 <= k < i ==> dst@[k] == packed(src@)[k],
        decreases count - i,
    {
        let b: u32 = src[4 * i] as u32;
        let g: u32 = src[4 * i + 1] as u32;
        let r: u32 = src[4 * i + 2] as u32;
        assert((r << 16) | (g << 8) | b == r * 65536 + g * 256 + b) by (bit_vector)
            requires
                r < 256,
                g < 256,
                b < 256,
        ;
        dst.push((r << 16) | (g << 8) | b);
        i = i + 1;
    }
    assert(dst@ =~= packed(src@));
}

/// The share of the source in a blend, as a numerator over `ALPHA_ONE`:
/// its coverage times the opacity of the text.
pub open spec fn source_alpha(src_a: u8, opacity: u16) -> int {
    src_a as int * opacity as int
}

/// One colour channel after source-over blending: `src * sa + dst * (1 -
/// sa)`, rounded.
pub open spec fn blend_channel(src: u8, dst: u8, sa: int) -> int {
    round_div(src as int * sa + dst as int * (ALPHA_ONE as int - sa), ALPHA_ONE as int)
}

/// The alpha after source-over blending: `sa + dst_a * (1 - sa)`,
/// rounded.
pub open spec fn blend_alpha(dst_a: u8, sa: int) -> int {
    round_div(255 * sa + dst_a as int * (ALPHA_ONE as int - sa), ALPHA_ONE as int)
}

/// A canvas pixel after a source pixel was blended over it.
pub open spec fn blended(
    dst: Seq<u8>,
    src_r: u8,
    src_g: u8,
    src_b: u8,
    src_a: u8,
    opacity: u16,
) -> Seq<u8> {
    let sa = source_alpha(src_a, opacity);
    seq![
        blend_channel(src_b, dst[0], sa) as u8,
        blend_channel(src_g, dst[1], sa) as u8,
        blend_channel(src_r, dst[2], sa) as u8,
        blend_alpha(dst[3], sa) as u8,
    ]
}

/// The canvas with the four bytes from `at` on replaced by `pixel`.
pub open spec fn with_pixel(canvas: Seq<u8>, at: int, pixel: Seq<u8>) -> Seq<u8> {
    Seq::new(
        canvas.len(),
        |k: int|
            if at <= k < at + 4 {
                pixel[k - at]
            } else {
                canvas[k]
            },
    )
}

/// A blend stays within a byte.
pub proof fn lemma_blend_range(src: u8, dst: u8, sa: int)
    requires
        0 <= sa <= ALPHA_ONE,
    ensures
        0 <= blend_channel(src, dst, sa) <= 255,
        0 <= blend_alpha(dst, sa) <= 255,
{
    let one = ALPHA_ONE as int;
    assert(0 <= src as int * sa + dst as int * (one - sa) <= 255 * one) by (nonlinear_arith)
        requires
            0 <= sa <= one,
            0 <= src <= 255,
            0 <= dst <= 255,
    ;
    assert(0 <= 255 * sa + dst as int * (one - sa) <= 255 * one) by (nonlinear_arith)
        requires
            0 <= sa <= one,
            0 <= dst <= 255,
    ;
    lemma_round_div_bounds(src as int * sa + dst as int * (one - sa), one, 0, 255);
    lemma_round_div_bounds(255 * sa + dst as int * (one - sa), one, 0, 255);
}

/// A fully covering source pixel at full opacity replaces what is under
/// it: the colour is that of the source and the alpha is 255.
pub proof fn lemma_opaque_source_replaces(dst: Seq<u8>, src_r: u8, src_g: u8, src_b: u8)
    requires
        dst.len() == 4,
    ensures
        blended(dst, src_r, src_g, src_b, 255, 1000) == seq![src_b, src_g, src_r, 255u8],
{
    let one = ALPHA_ONE as int;
    assert(source_alpha(255, 1000) == one);
    lemma_round_div_exact(src_b as int, one);
    lemma_round_div_exact(src_g as int, one);
    lemma_round_div_exact(src_r as int, one);
    lemma_round_div_exact(255, one);
    assert(blended(dst, src_r, src_g, src_b, 255, 1000) =~= seq![src_b, src_g, src_r, 255u8]);
}

/// A source pixel without coverage, or a text without opacity, leaves
/// what is under it.
pub proof fn lemma_transparent_source_keeps(
    dst: Seq<u8>,
    src_r: u8,
    src_g: u8,
    src_b: u8,
    src_a: u8,
    opacity: u16,
)
    requires
        dst.len() == 4,
        src_a == 0 || opacity == 0,
    ensures
        blended(dst, src_r, src_g, src_b, src_a, opacity) == dst,
{
    let one = ALPHA_ONE as int;
    assert(source_alpha(src_a, opacity) == 0) by (nonlinear_arith)
        requires
            src_a == 0 || opacity == 0,
    ;
    lemma_round_div_exact(dst[0] as int, one);
    lemma_round_div_exact(dst[1] as int, one);
    lemma_round_div_exact(dst[2] as int, one);
    lemma_round_div_exact(dst[3] as int, one);
    assert(blended(dst, src_r, src_g, src_b, src_a, opacity) =~= dst);
}

/// Blends one channel.
pub fn mix(src: u8, dst: u8, sa: u32) -> (out: u8)
    requires
        sa <= ALPHA_ONE,
    ensures
        out == blend_channel(src, dst, sa as int),
{
    proof {
        lemma_blend_range(src, dst, sa as int);
        let one = ALPHA_ONE as int;
        assert(0 <= src as int * sa as int && 0 <= dst as int * (one - sa) && src as int
            * sa as int + dst as int * (one - sa) <= 255 * one) by (nonlinear_arith)
            requires
                0 <= sa <= one,
                0 <= src <= 255,
                0 <= dst <= 255,
        ;
    }
    let sum: u64 = (src as u64) * (sa as u64) + (dst as u64) * ((ALPHA_ONE - sa) as u64);
    ((2 * sum + ALPHA_ONE as u64) / (2 * ALPHA_ONE as u64)) as u8
}

/// Blends a source pixel over the canvas pixel that starts at `at`.
pub fn blend_pixel(
    canvas: &mut [u8],
    at: usize,
    src_r: u8,
    src_g: u8,
    src_b: u8,
    src_a: u8,
    opacity: u16,
)
    requires
        at + 4 <= old(canvas)@.len(),
        opacity <= 1000,
    ensures
        final(canvas)@ == with_pixel(
            old(canvas)@,
            at as int,
            blended(
                old(canvas)@.subrange(at as int, at + 4),
                src_r,
                src_g,
                src_b,
                src_a,
                opacity,
            ),
        ),
{
    assert(0 <= src_a as int * opacity as int <= 255 * 1000) by (nonlinear_arith)
        requires
            0 <= src_a <= 255,
            0 <= opacity <= 1000,
    ;
    let sa: u32 = (src_a as u32) * (opacity as u32);
    if sa == 0 {
        proof {
            assert(src_a == 0 || opacity == 0) by (nonlinear_arith)
                requires
                    src_a as int * opacity as int == 0,
            ;
            lemma_transparent_source_keeps(
                old(canvas)@.subrange(at as int, at + 4),
                src_r,
                src_g,
                src_b,
                src_a,
                opacity,
            );
            assert(canvas@ =~= with_pixel(
                old(canvas)@,
                at as int,
                old(canvas)@.subrange(at as int, at + 4),
            ));
        }
        return ;
    }
    let db: u8 = canvas[at];
    let dg: u8 = canvas[at + 1];
    let dr: u8 = canvas[at + 2];
    let da: u8 = canvas[at + 3];
    proof {
        lemma_blend_range(255, da, sa as int);
        let one = ALPHA_ONE as int;
        assert(0 <= da as int * (one - sa) && 255 * sa as int + da as int * (one - sa) <= 255
            * one) by (nonlinear_arith)
            requires
                0 <= sa <= one,
                0 <= da <= 255,
        ;
    }
    let alpha_sum: u64 = 255 * (sa as u64) + (da as u64) * ((ALPHA_ONE - sa) as u64);
    let out_a: u8 = ((2 * alpha_sum + ALPHA_ONE as u64) / (2 * ALPHA_ONE as u64)) as u8;
    canvas[at] = mix(src_b, db, sa);
    canvas[at + 1] = mix(src_g, dg, sa);
    canvas[at + 2] = mix(src_r, dr, sa);
    canvas[at + 3] = out_a;
    assert(canvas@ =~= with_pixel(
        old(canvas)@,
        at as int,
        blended(old(canvas)@.subrange(at as int, at + 4), src_r, src_g, src_b, src_a, opacity),
    ));
}

} // verus!
