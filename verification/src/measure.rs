//! The size of a text on screen.
//!
//! Scales are in millionths; widths and heights in millionths of a pixel.

use vstd::prelude::*;
use crate::fixed::{floor_div, max_int};
use crate::font::{BitmapFont, FontView};
use crate::text::chars_of;

verus! {

/// How many line feeds `text` holds.
pub open spec fn count_newlines(text: Seq<char>) -> nat
    decreases text.len(),
{
    if text.len() == 0 {
        0
    } else if text.last() == '\n' {
        count_newlines(text.drop_last()) + 1
    } else {
        count_newlines(text.drop_last())
    }
}

/// How far the pen has moved along the last line of `text`.
pub open spec fn pen_x(font: FontView, text: Seq<char>, scale: int) -> int
    decreases text.len(),
{
    if text.len() == 0 || text.last() == '\n' {
        0
    } else {
        pen_x(font, text.drop_last(), scale) + font.advance(text.last(), scale)
    }
}

/// The width of the widest line of `text` that a line feed has ended,
/// and at least 0.
pub open spec fn ended_width(font: FontView, text: Seq<char>, scale: int) -> int
    decreases text.len(),
{
    if text.len() == 0 {
        0
    } else if text.last() == '\n' {
        max_int(
            ended_width(font, text.drop_last(), scale),
            pen_x(font, text.drop_last(), scale),
        )
    } else {
        ended_width(font, text.drop_last(), scale)
    }
}

/// The width of the widest line of `text`, and at least 0.
pub open spec fn text_width(font: FontView, text: Seq<char>, scale: int) -> int {
    max_int(ended_width(font, text, scale), pen_x(font, text, scale))
}

/// The height of the lines of `text`: one more than it holds line feeds.
pub open spec fn text_height(font: FontView, text: Seq<char>, scale: int) -> int {
    (count_newlines(text) + 1) * font.line_height * scale
}

/// The pen never moves further for one character than 2 to the 54th.
pub proof fn lemma_advance_bound(font: FontView, c: char, scale: int)
    requires
        0 <= scale <= u32::MAX,
    ensures
        -0x40_0000_0000_0000 <= font.advance(c, scale) <= 0x40_0000_0000_0000,
{
    if font.glyphs.contains_key(c as u32) {
        let a = font.glyphs[c as u32].x_advance as int;
        assert(-0x8000 * 0x1_0000_0000 <= a * scale <= 0x8000 * 0x1_0000_0000)
            by (nonlinear_arith)
            requires
                -0x8000 <= a <= 0x7fff,
                0 <= scale <= 0xffff_ffff,
        ;
    } else {
        let a = font.space_advance as int;
        assert(-0x8000_0000 * 0x1_0000_0000 <= a * scale <= 0x8000_0000 * 0x1_0000_0000)
            by (nonlinear_arith)
            requires
                -0x8000_0000 <= a <= 0x7fff_ffff,
                0 <= scale <= 0xffff_ffff,
        ;
    }
}

/// The pen stays within 2 to the 54th for each character of the text.
pub proof fn lemma_pen_bound(font: FontView, text: Seq<char>, scale: int)
    requires
        0 <= scale <= u32::MAX,
    ensures
        -0x40_0000_0000_0000 * text.len() <= pen_x(font, text, scale) <= 0x40_0000_0000_0000
            * text.len(),
        0 <= ended_width(font, text, scale) <= 0x40_0000_0000_0000 * text.len(),
        count_newlines(text) <= text.len(),
    decreases text.len(),
{
    if text.len() > 0 {
        lemma_pen_bound(font, text.drop_last(), scale);
        lemma_advance_bound(font, text.last(), scale);
    }
}

/// A single line of characters that the font has no glyphs for is as wide
/// as that many fallback advances, where the fallback advance is not
/// negative. (Where it is negative the pen moves left, and the width is
/// 0.)
pub proof fn lemma_unmapped_line_width(font: FontView, text: Seq<char>, scale: int)
    requires
        scale >= 0,
        forall|i: int|
            0 <= i < text.len() ==> #[trigger] text[i] != '\n' && !font.glyphs.contains_key(
                text[i] as u32,
            ),
    ensures
        pen_x(font, text, scale) == text.len() * floor_div(font.space_advance * scale, 1000),
        ended_width(font, text, scale) == 0,
        font.space_advance >= 0 ==> text_width(font, text, scale) == text.len() * floor_div(
            font.space_advance * scale,
            1000,
        ),
        font.space_advance < 0 ==> text_width(font, text, scale) == 0,
    decreases text.len(),
{
    let step = floor_div(font.space_advance * scale, 1000);
    if text.len() > 0 {
        let front = text.drop_last();
        assert forall|i: int| 0 <= i < front.len() implies #[trigger] front[i] != '\n'
            && !font.glyphs.contains_key(front[i] as u32) by {
            assert(front[i] == text[i]);
        }
        lemma_unmapped_line_width(font, front, scale);
        assert(text.last() == text[text.len() - 1]);
        assert(text.len() * step == front.len() * step + step) by (nonlinear_arith)
            requires
                text.len() == front.len() + 1,
        ;
    } else {
        assert(text.len() * step == 0) by (nonlinear_arith)
            requires
                text.len() == 0,
        ;
    }
    if font.space_advance >= 0 {
        assert(font.space_advance * scale >= 0) by (nonlinear_arith)
            requires
                font.space_advance >= 0,
                scale >= 0,
        ;
        crate::fixed::lemma_div_between(font.space_advance * scale, 1000, 0, font.space_advance * scale);
        assert(text.len() * step >= 0) by (nonlinear_arith)
            requires
                text.len() >= 0,
                step >= 0,
        ;
    } else {
        assert(font.space_advance * scale <= 0) by (nonlinear_arith)
            requires
                font.space_advance < 0,
                scale >= 0,
        ;
        crate::fixed::lemma_div_between(font.space_advance * scale, 1000, font.space_advance * scale, 0);
        assert(text.len() * step <= 0) by (nonlinear_arith)
            requires
                text.len() >= 0,
                step <= 0,
        ;
    }
}

/// Measures `text` at `scale`: the width of its widest line and the
/// height of all its lines.
pub fn measure_chars(text: &Vec<char>, font: &BitmapFont, scale: u32) -> (size: (u128, u128))
    ensures
        size.0 == text_width(font@, text@, scale as int),
        size.1 == text_height(font@, text@, scale as int),
{
    let mut max_width: i128 = 0;
    let mut current_width: i128 = 0;
    let mut lines: u128 = 1;
    let mut i: usize = 0;
    while i < text.len()
        invariant
            i <= text.len(),
            max_width == ended_width(font@, text@.subrange(0, i as int), scale as int),
            current_width == pen_x(font@, text@.subrange(0, i as int), scale as int),
            lines == count_newlines(text@.subrange(0, i as int)) + 1,
        decreases text.len() - i,
    {
        let ghost before = text@.subrange(0, i as int);
        let ghost after = text@.subrange(0, i + 1);
        proof {
            assert(after.drop_last() =~= before);
            assert(after.last() == text@[i as int]);
            lemma_pen_bound(font@, before, scale as int);
            lemma_pen_bound(font@, after, scale as int);
            lemma_advance_bound(font@, text@[i as int], scale as int);
        }
        let ch: char = text[i];
        if ch == '\n' {
            if current_width > max_width {
                max_width = current_width;
            }
            current_width = 0;
            lines = lines + 1;
        } else {
            current_width = current_width + font.advance(ch, scale) as i128;
        }
        i = i + 1;
    }
    proof {
        assert(text@.subrange(0, i as int) =~= text@);
        lemma_pen_bound(font@, text@, scale as int);
        assert(lines * font.line_height * scale <= 0x1_0000_0000_0000_0000 * 0xffff * 0xffff_ffff)
            by (nonlinear_arith)
            requires
                0 <= lines <= 0x1_0000_0000_0000_0000,
                0 <= font.line_height <= 0xffff,
                0 <= scale <= 0xffff_ffff,
        ;
        assert(lines * font.line_height <= 0x1_0000_0000_0000_0000 * 0xffff) by (nonlinear_arith)
            requires
                0 <= lines <= 0x1_0000_0000_0000_0000,
                0 <= font.line_height <= 0xffff,
        ;
    }
    if current_width > max_width {
        max_width = current_width;
    }
    let height: u128 = lines * (font.line_height as u128) * (scale as u128);
    (max_width as u128, height)
}

/// Measures `text` at `scale`, a factor in millionths. The result is the
/// width of the widest line and the height of all lines, in millionths of
/// a pixel.
pub fn measure_text(text: &str, font: &BitmapFont, scale: u32) -> (size: (u128, u128))
    ensures
        size.0 == text_width(font@, text@, scale as int),
        size.1 == text_height(font@, text@, scale as int),
        size.1 == (count_newlines(text@) + 1) * font@.line_height * scale,
{
    let chars: Vec<char> = chars_of(text);
    measure_chars(&chars, font, scale)
}

} // verus!
