//! The animation of one display slot: a timer-driven walk through
//! hidden, delayed, appearing, visible and disappearing.
//!
//! Time is in milliseconds, opacity in thousandths, the horizontal offset
//! in millionths of a pixel.

use vstd::prelude::*;
use crate::fixed::{clamp, floor_div, floor_div_i128, lemma_div_between};
use crate::media::MediaStatus;
use crate::settings::Settings;

verus! {

/// How long an incoming text waits while the outgoing one starts to fade.
pub const APPEAR_DELAY: u64 = 500;

/// How long fading and sliding in takes.
pub const APPEAR_DURATION: u64 = 750;

/// How long fading and sliding out takes.
pub const DISAPPEAR_DURATION: u64 = 750;

/// How long a text stays when no auto-hide timeout is configured and
/// nothing is playing.
pub const STAY_TIME: u64 = 2500;

/// Distance in pixels, at scale 1, from which a text slides in.
pub const SLIDE_IN_DISTANCE: u32 = 24;

/// Distance in pixels, at scale 1, to which a text slides out.
pub const SLIDE_OUT_DISTANCE: u32 = 24;

/// The longest slide at the largest scale, in millionths of a pixel.
pub const MAX_SLIDE: i64 = 0x18_0000_0000;

/// Opacity of a fully visible text.
pub const FULL_OPACITY: u16 = 1000;

/// Where a slot is in its animation.
#[derive(Debug, Clone, Copy, PartialEq, Eq, Structural)]
pub enum DisplayState {
    Hidden,
    AppearingDelay,
    Appearing,
    Visible,
    Disappearing,
}

/// One animated text.
#[derive(Debug)]
pub struct DisplaySlot {
    pub text: String,
    pub state: DisplayState,
    pub timer: u64,
    pub opacity: u16,
    pub offset_x: i64,
}

/// A slot as plain mathematical values.
pub struct DisplaySlotView {
    pub text: Seq<char>,
    pub state: DisplayState,
    pub timer: u64,
    pub opacity: u16,
    pub offset_x: i64,
}

impl View for DisplaySlot {
    type V = DisplaySlotView;

    open spec fn view(&self) -> DisplaySlotView {
        DisplaySlotView {
            text: self.text@,
            state: self.state,
            timer: self.timer,
            opacity: self.opacity,
            offset_x: self.offset_x,
        }
    }
}

impl DisplaySlotView {
    /// The opacity is a fraction of one, the offset is within the longest
    /// slide, and a hidden slot is fully transparent and at rest.
    pub open spec fn wf(self) -> bool {
        &&& self.opacity <= FULL_OPACITY
        &&& -MAX_SLIDE <= self.offset_x <= MAX_SLIDE
        &&& self.state == DisplayState::Hidden ==> self.opacity == 0 && self.offset_x == 0
    }
}

impl DisplaySlot {
    /// Whether the slot is well-formed.
    pub fn is_well_formed(&self) -> (ok: bool)
        ensures
            ok == self@.wf(),
    {
        self.opacity <= FULL_OPACITY && -MAX_SLIDE <= self.offset_x && self.offset_x <= MAX_SLIDE
            && (self.state != DisplayState::Hidden || (self.opacity == 0 && self.offset_x == 0))
    }
}

/// The fade curve `clamp(1.5 * p - 0.25, 0, 1)` in thousandths, where `p`
/// is `elapsed / duration` limited to the interval from 0 to 1.
pub open spec fn ramp_opacity(elapsed: int, duration: int) -> int
    recommends
        duration > 0,
{
    clamp(floor_div(1500 * clamp(elapsed, 0, duration), duration) - 250, 0, 1000)
}

/// The ease-out-quadratic weight `1 - (1 - p)^2` as a numerator over
/// `duration * duration`, where `p` is `elapsed / duration` limited to the
/// interval from 0 to 1.
pub open spec fn ease_out_weight(elapsed: int, duration: int) -> int {
    let rest = duration - clamp(elapsed, 0, duration);
    duration * duration - rest * rest
}

/// The value that eases from `a` to `b` as `elapsed` goes from 0 to
/// `duration`, rounded down.
pub open spec fn spec_interpolate_quadratic(a: int, b: int, elapsed: int, duration: int) -> int
    recommends
        duration > 0,
{
    a + floor_div((b - a) * ease_out_weight(elapsed, duration), duration * duration)
}

/// The slide-in distance at the configured scale.
pub open spec fn slide_in_offset(settings: Settings) -> int {
    SLIDE_IN_DISTANCE as int * settings.spec_text_scale()
}

/// The slide-out distance at the configured scale, leftwards.
pub open spec fn slide_out_offset(settings: Settings) -> int {
    -(SLIDE_OUT_DISTANCE as int * settings.spec_text_scale())
}

/// Whether a visible text is due to leave.
pub open spec fn hide_due(timer: u64, settings: Settings, status: MediaStatus) -> bool {
    match settings.hide_automatically {
        Some(hide_after) => timer >= hide_after,
        None => !settings.show_playback_status && timer >= STAY_TIME && (status
            == MediaStatus::Stopped || status == MediaStatus::Paused),
    }
}

/// What a frame does to a slot before time passes: the curves of the
/// current state and the move to the next state once its time is up.
pub open spec fn advance_state(
    slot: DisplaySlotView,
    settings: Settings,
    status: MediaStatus,
) -> DisplaySlotView {
    match slot.state {
        DisplayState::Hidden => DisplaySlotView { opacity: 0, offset_x: 0, ..slot },
        DisplayState::AppearingDelay => {
            let held = if slot.timer == 0 {
                DisplaySlotView { opacity: 0, offset_x: 0, ..slot }
            } else {
                slot
            };
            if slot.timer >= APPEAR_DELAY {
                DisplaySlotView { state: DisplayState::Appearing, timer: 0, ..held }
            } else {
                held
            }
        },
        DisplayState::Appearing => {
            let moved = DisplaySlotView {
                opacity: ramp_opacity(slot.timer as int, APPEAR_DURATION as int) as u16,
                offset_x: spec_interpolate_quadratic(
                    slide_in_offset(settings),
                    0,
                    slot.timer as int,
                    APPEAR_DURATION as int,
                ) as i64,
                ..slot
            };
            if slot.timer >= APPEAR_DURATION {
                DisplaySlotView { state: DisplayState::Visible, timer: 0, ..moved }
            } else {
                moved
            }
        },
        DisplayState::Visible => {
            let pinned = if slot.timer == 0 {
                DisplaySlotView { opacity: FULL_OPACITY, offset_x: 0, ..slot }
            } else {
                slot
            };
            if hide_due(slot.timer, settings, status) {
                DisplaySlotView { state: DisplayState::Disappearing, timer: 0, ..pinned }
            } else {
                pinned
            }
        },
        DisplayState::Disappearing => {
            if slot.timer >= DISAPPEAR_DURATION {
                DisplaySlotView { state: DisplayState::Hidden, opacity: 0, offset_x: 0, ..slot }
            } else {
                DisplaySlotView {
                    opacity: ramp_opacity(
                        DISAPPEAR_DURATION - slot.timer,
                        DISAPPEAR_DURATION as int,
                    ) as u16,
                    offset_x: spec_interpolate_quadratic(
                        slide_out_offset(settings),
                        0,
                        DISAPPEAR_DURATION - slot.timer,
                        DISAPPEAR_DURATION as int,
                    ) as i64,
                    ..slot
                }
            }
        },
    }
}

/// The timer after `dt` more milliseconds; it stops at the largest value
/// it can hold.
pub open spec fn timer_after(timer: u64, dt: u32) -> u64 {
    if timer + dt > u64::MAX {
        u64::MAX
    } else {
        (timer + dt) as u64
    }
}

/// One frame of a slot: `advance_state`, after which every slot that is
/// not hidden accumulates the elapsed time.
pub open spec fn step_slot(
    slot: DisplaySlotView,
    settings: Settings,
    status: MediaStatus,
    dt: u32,
) -> DisplaySlotView {
    let advanced = advance_state(slot, settings, status);
    if advanced.state != DisplayState::Hidden {
        DisplaySlotView { timer: timer_after(advanced.timer, dt), ..advanced }
    } else {
        advanced
    }
}

/// The fade curve stays between transparent and opaque.
pub proof fn lemma_ramp_opacity_range(elapsed: int, duration: int)
    ensures
        0 <= ramp_opacity(elapsed, duration) <= 1000,
{
}

/// The ease-out curve starts at `a`, ends at `b` and stays between them.
pub proof fn lemma_interpolate_range(a: int, b: int, elapsed: int, duration: int)
    requires
        duration > 0,
    ensures
        elapsed <= 0 ==> spec_interpolate_quadratic(a, b, elapsed, duration) == a,
        elapsed >= duration ==> spec_interpolate_quadratic(a, b, elapsed, duration) == b,
        a <= b ==> a <= spec_interpolate_quadratic(a, b, elapsed, duration) <= b,
        b <= a ==> b <= spec_interpolate_quadratic(a, b, elapsed, duration) <= a,
{
    let w = ease_out_weight(elapsed, duration);
    let dd = duration * duration;
    let rest = duration - clamp(elapsed, 0, duration);
    assert(0 <= w <= dd && dd > 0 && (rest == 0 ==> w == dd) && (rest == duration ==> w == 0))
        by (nonlinear_arith)
        requires
            0 <= rest <= duration,
            duration > 0,
            dd == duration * duration,
            w == dd - rest * rest,
    ;
    lemma_weighted_part(b - a, w, dd);
}

proof fn lemma_weighted_part(delta: int, w: int, dd: int)
    requires
        0 <= w <= dd,
        dd > 0,
    ensures
        w == 0 ==> (delta * w) / dd == 0,
        w == dd ==> (delta * w) / dd == delta,
        delta >= 0 ==> 0 <= (delta * w) / dd <= delta,
        delta <= 0 ==> delta <= (delta * w) / dd <= 0,
{
    let a = delta * w;
    assert((delta + 1) * dd == delta * dd + dd) by (nonlinear_arith);
    assert(0 * dd == 0);
    assert(1 * dd == dd);
    assert(a == w * delta) by (nonlinear_arith)
        requires
            a == delta * w,
    ;
    assert(delta * dd == dd * delta) by (nonlinear_arith);
    if delta >= 0 {
        vstd::arithmetic::mul::lemma_mul_inequality(0, w, delta);
        vstd::arithmetic::mul::lemma_mul_inequality(w, dd, delta);
        assert(0 * delta == 0);
        lemma_div_between(a, dd, 0, delta);
        if w == dd {
            lemma_div_between(a, dd, delta, delta);
        }
    }
    if delta <= 0 {
        vstd::arithmetic::mul::lemma_mul_inequality(0, w, -delta);
        vstd::arithmetic::mul::lemma_mul_inequality(w, dd, -delta);
        assert(0 * (-delta) == 0);
        assert(w * (-delta) == -(w * delta)) by (nonlinear_arith);
        assert(dd * (-delta) == -(dd * delta)) by (nonlinear_arith);
        lemma_div_between(a, dd, delta, 0);
        if w == dd {
            lemma_div_between(a, dd, delta, delta);
        }
    }
    if w == 0 {
        assert(a == 0) by (nonlinear_arith)
            requires
                a == delta * w,
                w == 0,
        ;
    }
}

/// Eases from `a` to `b` along `1 - (1 - p)^2`, where `p` is
/// `elapsed / duration` limited to the interval from 0 to 1.
pub fn interpolate_quadratic(a: i64, b: i64, elapsed: u64, duration: u64) -> (value: i64)
    requires
        0 < duration <= 0xf_ffff,
    ensures
        value == spec_interpolate_quadratic(a as int, b as int, elapsed as int, duration as int),
{
    let e: u64 = if elapsed > duration {
        duration
    } else {
        elapsed
    };
    let rest: u64 = duration - e;
    proof {
        assert(rest * rest <= duration * duration <= 0xf_ffff * 0xf_ffff)
            by (nonlinear_arith)
            requires
                0 <= rest <= duration <= 0xf_ffff,
        ;
    }
    let dd: u64 = duration * duration;
    let w: u64 = dd - rest * rest;
    let delta: i128 = b as i128 - a as i128;
    proof {
        assert(-0x1_0000_0000_0000_0000 * 0x100_0000_0000 <= delta * w
            <= 0x1_0000_0000_0000_0000 * 0x100_0000_0000) by (nonlinear_arith)
            requires
                -0x1_0000_0000_0000_0000 <= delta <= 0x1_0000_0000_0000_0000,
                0 <= w <= 0x100_0000_0000,
        ;
        assert(dd > 0) by (nonlinear_arith)
            requires
                dd == duration * duration,
                duration > 0,
        ;
        lemma_interpolate_range(a as int, b as int, elapsed as int, duration as int);
    }
    let part: i128 = floor_div_i128(delta * (w as i128), dd as i128);
    (a as i128 + part) as i64
}

/// Moves one slot through one frame that lasted `dt` milliseconds.
pub fn update_display_slot(
    slot: &mut DisplaySlot,
    settings: &Settings,
    status: MediaStatus,
    dt: u32,
)
    ensures
        final(slot)@ == step_slot(old(slot)@, *settings, status, dt),
        old(slot)@.wf() ==> final(slot)@.wf(),
{
    let scale: u32 = settings.effective_text_scale();
    proof {
        lemma_ramp_opacity_range(slot.timer as int, APPEAR_DURATION as int);
        lemma_ramp_opacity_range(DISAPPEAR_DURATION - slot.timer, DISAPPEAR_DURATION as int);
        lemma_slide_range(*settings);
    }
    match slot.state {
        DisplayState::AppearingDelay => {
            if slot.timer == 0 {
                slot.opacity = 0;
                slot.offset_x = 0;
            }
            if slot.timer >= APPEAR_DELAY {
                slot.state = DisplayState::Appearing;
                slot.timer = 0;
            }
        },
        DisplayState::Appearing => {
            let from: i64 = (SLIDE_IN_DISTANCE as i64) * (scale as i64);
            proof {
                lemma_interpolate_range(
                    from as int,
                    0,
                    slot.timer as int,
                    APPEAR_DURATION as int,
                );
            }
            slot.opacity = fade(slot.timer, APPEAR_DURATION);
            slot.offset_x = interpolate_quadratic(from, 0, slot.timer, APPEAR_DURATION);
            if slot.timer >= APPEAR_DURATION {
                slot.state = DisplayState::Visible;
                slot.timer = 0;
            }
        },
        DisplayState::Visible => {
            if slot.timer == 0 {
                slot.opacity = FULL_OPACITY;
                slot.offset_x = 0;
            }
            let due: bool = match settings.hide_automatically {
                Some(hide_after) => slot.timer >= hide_after as u64,
                None => !settings.show_playback_status && slot.timer >= STAY_TIME && (status
                    == MediaStatus::Stopped || status == MediaStatus::Paused),
            };
            if due {
                slot.state = DisplayState::Disappearing;
                slot.timer = 0;
            }
        },
        DisplayState::Disappearing => {
            if slot.timer >= DISAPPEAR_DURATION {
                slot.state = DisplayState::Hidden;
                slot.opacity = 0;
                slot.offset_x = 0;
            } else {
                let to: i64 = -((SLIDE_OUT_DISTANCE as i64) * (scale as i64));
                let left: u64 = DISAPPEAR_DURATION - slot.timer;
                proof {
                    lemma_interpolate_range(
                        to as int,
                        0,
                        left as int,
                        DISAPPEAR_DURATION as int,
                    );
                }
                slot.opacity = fade(left, DISAPPEAR_DURATION);
                slot.offset_x = interpolate_quadratic(to, 0, left, DISAPPEAR_DURATION);
            }
        },
        DisplayState::Hidden => {
            slot.opacity = 0;
            slot.offset_x = 0;
        },
    }
    if slot.state != DisplayState::Hidden {
        slot.timer = slot.timer.saturating_add(dt as u64);
    }
}

/// The fade curve `clamp(1.5 * p - 0.25, 0, 1)` in thousandths.
pub fn fade(elapsed: u64, duration: u64) -> (opacity: u16)
    requires
        0 < duration <= 0xffff_ffff,
    ensures
        opacity == ramp_opacity(elapsed as int, duration as int),
{
    let e: u64 = if elapsed > duration {
        duration
    } else {
        elapsed
    };
    proof {
        lemma_div_between(1500 * e, duration as int, 0, 1500);
    }
    let ramp: u64 = (1500 * e) / duration;
    if ramp <= 250 {
        0
    } else if ramp >= 1250 {
        1000
    } else {
        (ramp - 250) as u16
    }
}

/// Replaces the text of a slot.
pub fn update_slot_text(slot: &mut DisplaySlot, text: String)
    ensures
        final(slot)@ == (DisplaySlotView { text: text@, ..old(slot)@ }),
{
    if slot.text == text {
        return ;
    }
    slot.text = text;
}

/// A frame leaves a well-formed slot well-formed.
pub proof fn lemma_step_keeps_slot_wf(
    slot: DisplaySlotView,
    settings: Settings,
    status: MediaStatus,
    dt: u32,
)
    requires
        slot.wf(),
    ensures
        step_slot(slot, settings, status, dt).wf(),
{
    lemma_ramp_opacity_range(slot.timer as int, APPEAR_DURATION as int);
    lemma_ramp_opacity_range(DISAPPEAR_DURATION - slot.timer, DISAPPEAR_DURATION as int);
    lemma_slide_range(settings);
    lemma_interpolate_range(
        slide_in_offset(settings),
        0,
        slot.timer as int,
        APPEAR_DURATION as int,
    );
    lemma_interpolate_range(
        slide_out_offset(settings),
        0,
        DISAPPEAR_DURATION - slot.timer,
        DISAPPEAR_DURATION as int,
    );
}

/// No slide is longer than `MAX_SLIDE`.
pub proof fn lemma_slide_range(settings: Settings)
    ensures
        0 <= slide_in_offset(settings) <= MAX_SLIDE,
        -MAX_SLIDE <= slide_out_offset(settings) <= 0,
{
    assert(0 <= settings.scale_factor as int * settings.text_scale as int <= 0xffff * 0xffff)
        by (nonlinear_arith)
        requires
            0 <= settings.scale_factor <= 0xffff,
            0 <= settings.text_scale <= 0xffff,
    ;
}

/// An appearing slot whose timer has reached the appear duration becomes
/// visible in the next frame, fully opaque and at rest.
pub proof fn lemma_appearing_completes(
    slot: DisplaySlotView,
    settings: Settings,
    status: MediaStatus,
    dt: u32,
)
    requires
        slot.state == DisplayState::Appearing,
        slot.timer >= APPEAR_DURATION,
    ensures
        step_slot(slot, settings, status, dt).state == DisplayState::Visible,
        step_slot(slot, settings, status, dt).opacity == FULL_OPACITY,
        step_slot(slot, settings, status, dt).offset_x == 0,
        step_slot(slot, settings, status, dt).timer == dt,
{
    lemma_interpolate_range(
        slide_in_offset(settings),
        0,
        slot.timer as int,
        APPEAR_DURATION as int,
    );
    assert(floor_div(1500int * 750int, 750int) == 1500int);
}

/// A slot that waits out the delay starts to appear in the frame after
/// its timer has reached the delay.
pub proof fn lemma_delay_completes(
    slot: DisplaySlotView,
    settings: Settings,
    status: MediaStatus,
    dt: u32,
)
    requires
        slot.state == DisplayState::AppearingDelay,
        slot.timer >= APPEAR_DELAY,
    ensures
        step_slot(slot, settings, status, dt).state == DisplayState::Appearing,
        step_slot(slot, settings, status, dt).timer == dt,
{
}

/// With an auto-hide timeout configured, a visible slot whose timer has
/// reached the timeout starts to disappear in the next frame, whatever
/// the playback status is.
pub proof fn lemma_auto_hide(
    slot: DisplaySlotView,
    settings: Settings,
    status: MediaStatus,
    dt: u32,
)
    requires
        slot.state == DisplayState::Visible,
        settings.hide_automatically is Some,
        slot.timer >= settings.hide_automatically->0,
    ensures
        step_slot(slot, settings, status, dt).state == DisplayState::Disappearing,
        step_slot(slot, settings, status, dt).timer == dt,
{
}

/// With an auto-hide timeout configured, a visible slot stays visible
/// until its timer reaches the timeout.
pub proof fn lemma_stays_before_timeout(
    slot: DisplaySlotView,
    settings: Settings,
    status: MediaStatus,
    dt: u32,
)
    requires
        slot.state == DisplayState::Visible,
        settings.hide_automatically is Some,
        slot.timer < settings.hide_automatically->0,
    ensures
        step_slot(slot, settings, status, dt).state == DisplayState::Visible,
{
}

/// The slot after a run of frames with the given durations.
pub open spec fn run_slot(
    slot: DisplaySlotView,
    settings: Settings,
    status: MediaStatus,
    frames: Seq<u32>,
) -> DisplaySlotView
    decreases frames.len(),
{
    if frames.len() == 0 {
        slot
    } else {
        step_slot(
            run_slot(slot, settings, status, frames.drop_last()),
            settings,
            status,
            frames.last(),
        )
    }
}

/// The time that a run of frames takes.
pub open spec fn total_time(frames: Seq<u32>) -> int
    decreases frames.len(),
{
    if frames.len() == 0 {
        0
    } else {
        total_time(frames.drop_last()) + frames.last()
    }
}

/// A slot that starts to appear keeps count of the time for as long as it
/// appears, and never waits again.
pub proof fn lemma_appearing_keeps_time(
    slot: DisplaySlotView,
    settings: Settings,
    status: MediaStatus,
    frames: Seq<u32>,
)
    requires
        slot.state == DisplayState::Appearing,
        slot.timer == 0,
    ensures
        run_slot(slot, settings, status, frames).state != DisplayState::AppearingDelay,
        run_slot(slot, settings, status, frames).state == DisplayState::Appearing ==> run_slot(
            slot,
            settings,
            status,
            frames,
        ).timer == (if total_time(frames) > u64::MAX {
            u64::MAX as int
        } else {
            total_time(frames)
        }),
    decreases frames.len(),
{
    if frames.len() > 0 {
        lemma_appearing_keeps_time(slot, settings, status, frames.drop_last());
        lemma_total_time_nonnegative(frames.drop_last());
    }
}

proof fn lemma_total_time_nonnegative(frames: Seq<u32>)
    ensures
        total_time(frames) >= 0,
    decreases frames.len(),
{
    if frames.len() > 0 {
        lemma_total_time_nonnegative(frames.drop_last());
    }
}

/// A slot that started to appear and still appears after frames that
/// took the appear duration or longer is visible after the next frame,
/// fully opaque and at rest.
pub proof fn lemma_appearing_lands_visible(
    slot: DisplaySlotView,
    settings: Settings,
    status: MediaStatus,
    frames: Seq<u32>,
    dt: u32,
)
    requires
        slot.state == DisplayState::Appearing,
        slot.timer == 0,
        total_time(frames) >= APPEAR_DURATION,
        run_slot(slot, settings, status, frames).state == DisplayState::Appearing,
    ensures
        run_slot(slot, settings, status, frames.push(dt)).state == DisplayState::Visible,
        run_slot(slot, settings, status, frames.push(dt)).opacity == FULL_OPACITY,
        run_slot(slot, settings, status, frames.push(dt)).offset_x == 0,
{
    lemma_appearing_keeps_time(slot, settings, status, frames);
    lemma_appearing_completes(run_slot(slot, settings, status, frames), settings, status, dt);
    assert(frames.push(dt).drop_last() =~= frames);
    assert(frames.push(dt).last() == dt);
}

} // verus!
