//! One frame of the overlay: how large it is and what it shows.

use vstd::prelude::*;
use crate::atlas::{AtlasView, FontAtlas};
use crate::controller::{DisplayController, DisplayControllerView};
use crate::display::{DisplaySlot, DisplaySlotView, DisplayState};
use crate::draw::{draw_text, drawn};
use crate::fixed::{clamp, lemma_round_div_bounds, max_int, round_div};
use crate::font::{BitmapFont, FontView};
use crate::measure::{measure_text, text_height, text_width};
use crate::raster::{background_alpha, cleared, fill_background};
use crate::settings::Settings;

verus! {

/// The margin around the text, in pixels at scale 1.
pub const PADDING: u32 = 12;

/// Whether a slot has anything to show: it is not hidden, not fully
/// transparent and its text is not empty.
pub open spec fn slot_shown(slot: DisplaySlotView) -> bool {
    slot.state != DisplayState::Hidden && slot.opacity > 0 && slot.text.len() > 0
}

/// The width that the texts on screen need, in millionths of a pixel: that
/// of the widest shown text, and at least one pixel.
pub open spec fn content_width(slots: Seq<DisplaySlotView>, font: FontView, scale: int) -> int
    decreases slots.len(),
{
    if slots.len() == 0 {
        1_000_000
    } else if slot_shown(slots.last()) {
        max_int(
            content_width(slots.drop_last(), font, scale),
            text_width(font, slots.last().text, scale),
        )
    } else {
        content_width(slots.drop_last(), font, scale)
    }
}

/// The height that the texts on screen need, in millionths of a pixel:
/// that of the tallest shown text, and at least one line.
pub open spec fn content_height(slots: Seq<DisplaySlotView>, font: FontView, scale: int) -> int
    decreases slots.len(),
{
    if slots.len() == 0 {
        font.line_step(scale)
    } else if slot_shown(slots.last()) {
        max_int(
            content_height(slots.drop_last(), font, scale),
            text_height(font, slots.last().text, scale),
        )
    } else {
        content_height(slots.drop_last(), font, scale)
    }
}

/// The extent of the frame in pixels along one axis: the content with the
/// padding on both sides, times the factor of that axis (in thousandths),
/// rounded, and between one pixel and the largest extent there is.
pub open spec fn frame_extent(content: int, factor: u16) -> int {
    clamp(
        round_div((content + 2 * PADDING * 1_000_000) * factor, 1_000_000_000),
        1,
        u32::MAX as int,
    )
}

/// The size in pixels of the frame that shows the controller.
pub open spec fn spec_frame_size(
    c: DisplayControllerView,
    font: FontView,
    settings: Settings,
) -> (int, int) {
    let scale = settings.spec_text_scale();
    (
        frame_extent(content_width(c.slots, font, scale), settings.scale_x),
        frame_extent(content_height(c.slots, font, scale), settings.scale_y),
    )
}

/// The canvas after a slot was drawn onto it: its text, at its offset and
/// with its opacity, where it has anything to show.
pub open spec fn painted(
    canvas: Seq<u8>,
    width: int,
    slot: DisplaySlotView,
    font: FontView,
    atlas: AtlasView,
    scale: int,
) -> Seq<u8> {
    if slot_shown(slot) && scale > 0 {
        drawn(
            canvas,
            width,
            font,
            atlas,
            slot.text,
            scale,
            PADDING * 1_000_000 + slot.offset_x,
            PADDING as int * 1_000_000,
            slot.opacity,
        )
    } else {
        canvas
    }
}

/// The frame: the cleared canvas with the first slot drawn onto it and
/// the second slot over that.
pub open spec fn spec_render_frame(
    canvas: Seq<u8>,
    width: int,
    c: DisplayControllerView,
    font: FontView,
    atlas: AtlasView,
    settings: Settings,
) -> Seq<u8> {
    let scale = settings.spec_text_scale();
    let blank = cleared(
        canvas,
        background_alpha(settings.force_opaque_background, settings.background_opacity) as u8,
    );
    painted(painted(blank, width, c.slots[0], font, atlas, scale), width, c.slots[1], font, atlas, scale)
}

/// Whether a slot has anything to show.
pub fn is_shown(slot: &DisplaySlot) -> (shown: bool)
    ensures
        shown == slot_shown(slot@),
{
    !(slot.state == DisplayState::Hidden || slot.opacity == 0 || slot.text.as_str().is_empty())
}

/// The extent of the frame along one axis.
pub fn extent(content: u128, factor: u16) -> (pixels: u32)
    ensures
        pixels == frame_extent(content as int, factor),
{
    if factor == 0 {
        assert((content + 2 * PADDING * 1_000_000) * 0 == 0);
        return 1;
    }
    if content >= 0x8000_0000_0000_0000 {
        proof {
            let n = (content + 2 * PADDING * 1_000_000) * factor;
            assert(n >= 0xffff_ffff * 1_000_000_000) by (nonlinear_arith)
                requires
                    n == (content + 2 * PADDING * 1_000_000) * factor,
                    content >= 0x8000_0000_0000_0000,
                    factor >= 1,
            ;
            lemma_round_div_bounds(n, 1_000_000_000, 0xffff_ffff, n);
        }
        return u32::MAX;
    }
    let padded: u128 = content + 2 * (PADDING as u128) * 1_000_000;
    assert(0 <= padded * factor <= 0x1_0000_0000_0000_0000 * 0xffff) by (nonlinear_arith)
        requires
            0 <= padded <= 0x1_0000_0000_0000_0000,
            0 <= factor <= 0xffff,
    ;
    let product: u128 = padded * (factor as u128);
    let rounded: u128 = crate::fixed::round_div_u128(product, 1_000_000_000);
    if rounded < 1 {
        1
    } else if rounded > u32::MAX as u128 {
        u32::MAX
    } else {
        rounded as u32
    }
}

/// The size in pixels of the frame that shows the controller: room for
/// the widest and the tallest text on screen and the padding around them.
pub fn frame_size(controller: &DisplayController, font: &BitmapFont, settings: &Settings) -> (size:
    (u32, u32))
    ensures
        size.0 == spec_frame_size(controller@, font@, *settings).0,
        size.1 == spec_frame_size(controller@, font@, *settings).1,
        size.0 >= 1,
        size.1 >= 1,
{
    let scale: u32 = settings.effective_text_scale();
    assert(0 <= font.line_height as int * scale as int <= 0xffff * 0xffff_ffff)
        by (nonlinear_arith)
        requires
            0 <= font.line_height <= 0xffff,
            0 <= scale <= 0xffff_ffff,
    ;
    let mut max_width: u128 = 1_000_000;
    let mut max_height: u128 = (font.line_height as u128) * (scale as u128);
    let ghost slots = controller@.slots;
    assert(slots.subrange(0, 0) =~= Seq::<DisplaySlotView>::empty());
    let mut i: usize = 0;
    while i < 2
        invariant
            i <= 2,
            slots == controller@.slots,
            scale == settings.spec_text_scale(),
            max_width == content_width(slots.subrange(0, i as int), font@, scale as int),
            max_height == content_height(slots.subrange(0, i as int), font@, scale as int),
        decreases 2 - i,
    {
        proof {
            let before = slots.subrange(0, i as int);
            let after = slots.subrange(0, i + 1);
            assert(after.drop_last() =~= before);
            assert(after.last() == controller.slots[i as int]@);
        }
        if is_shown(&controller.slots[i]) {
            let (w, h) = measure_text(controller.slots[i].text.as_str(), font, scale);
            if w > max_width {
                max_width = w;
            }
            if h > max_height {
                max_height = h;
            }
        }
        i = i + 1;
    }
    assert(slots.subrange(0, 2) =~= slots);
    (extent(max_width, settings.scale_x), extent(max_height, settings.scale_y))
}

/// Draws a slot onto the canvas where it has anything to show.
pub fn paint_slot(
    canvas: &mut [u8],
    width: u32,
    height: u32,
    slot: &DisplaySlot,
    font: &BitmapFont,
    atlas: &FontAtlas,
    scale: u32,
)
    requires
        old(canvas)@.len() == 4 * width * height,
        slot@.wf(),
    ensures
        final(canvas)@ == painted(old(canvas)@, width as int, slot@, font@, atlas@, scale as int),
        final(canvas)@.len() == old(canvas)@.len(),
{
    if is_shown(slot) && scale > 0 {
        let origin_x: i64 = (PADDING as i64) * 1_000_000 + slot.offset_x;
        let origin_y: i64 = (PADDING as i64) * 1_000_000;
        draw_text(
            canvas,
            width,
            height,
            font,
            atlas,
            slot.text.as_str(),
            scale,
            origin_x,
            origin_y,
            slot.opacity,
        );
    }
}

/// Renders the frame onto a canvas of `width` by `height` pixels: clears
/// it to the configured background and draws both slots.
pub fn render_frame(
    canvas: &mut [u8],
    width: u32,
    height: u32,
    controller: &DisplayController,
    font: &BitmapFont,
    atlas: &FontAtlas,
    settings: &Settings,
)
    requires
        old(canvas)@.len() == 4 * width * height,
        controller@.slots[0].wf(),
        controller@.slots[1].wf(),
    ensures
        final(canvas)@ == spec_render_frame(
            old(canvas)@,
            width as int,
            controller@,
            font@,
            atlas@,
            *settings,
        ),
{
    let scale: u32 = settings.effective_text_scale();
    fill_background(canvas, settings.force_opaque_background, settings.background_opacity);
    paint_slot(canvas, width, height, &controller.slots[0], font, atlas, scale);
    paint_slot(canvas, width, height, &controller.slots[1], font, atlas, scale);
}

} // verus!
