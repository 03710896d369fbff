//! The two-slot display controller: which text is incoming, which is
//! outgoing, and when a change of the media starts a new transition.

use vstd::prelude::*;
use crate::display::{
    lemma_step_keeps_slot_wf, step_slot, update_display_slot, update_slot_text, DisplaySlot,
    DisplaySlotView, DisplayState, APPEAR_DELAY,
};
use crate::media::{idle_media, MediaInfo, MediaInfoView, MediaStatus};
use crate::settings::Settings;
use crate::text::{format_media_text, spec_format_media_text};

verus! {

/// Two slots, of which one is the primary: the one that holds the current
/// or incoming text. The other holds what is on its way out.
#[derive(Debug)]
pub struct DisplayController {
    pub slots: [DisplaySlot; 2],
    pub primary_index: usize,
    pub current_media: MediaInfo,
}

/// A controller as plain mathematical values.
pub struct DisplayControllerView {
    pub slots: Seq<DisplaySlotView>,
    pub primary_index: int,
    pub current_media: MediaInfoView,
}

impl View for DisplayController {
    type V = DisplayControllerView;

    open spec fn view(&self) -> DisplayControllerView {
        DisplayControllerView {
            slots: seq![self.slots[0]@, self.slots[1]@],
            primary_index: self.primary_index as int,
            current_media: self.current_media@,
        }
    }
}

/// A slot that shows nothing.
pub open spec fn hidden_slot() -> DisplaySlotView {
    DisplaySlotView {
        text: Seq::empty(),
        state: DisplayState::Hidden,
        timer: 0,
        opacity: 0,
        offset_x: 0,
    }
}

/// How the phases of the two slots fit together. While the primary waits
/// or appears, the secondary is hidden or has been disappearing for at
/// least as long; in every other phase of the primary it is hidden.
pub open spec fn phases_agree(primary: DisplaySlotView, secondary: DisplaySlotView) -> bool {
    match primary.state {
        DisplayState::AppearingDelay => secondary.state == DisplayState::Hidden || (
        secondary.state == DisplayState::Disappearing && secondary.timer >= primary.timer),
        DisplayState::Appearing => secondary.state == DisplayState::Hidden || (secondary.state
            == DisplayState::Disappearing && secondary.timer >= primary.timer + APPEAR_DELAY),
        _ => secondary.state == DisplayState::Hidden,
    }
}

impl DisplayControllerView {
    /// The slot of the current or incoming text.
    pub open spec fn primary(self) -> DisplaySlotView {
        self.slots[self.primary_index]
    }

    /// The slot of the outgoing text.
    pub open spec fn secondary(self) -> DisplaySlotView {
        self.slots[1 - self.primary_index]
    }

    /// There are two well-formed slots, one of them primary, and their
    /// phases fit together.
    pub open spec fn wf(self) -> bool {
        &&& self.slots.len() == 2
        &&& 0 <= self.primary_index < 2
        &&& self.slots[0].wf()
        &&& self.slots[1].wf()
        &&& phases_agree(self.primary(), self.secondary())
    }
}

/// Whether a slot is on its way in.
pub open spec fn is_entering(state: DisplayState) -> bool {
    state == DisplayState::AppearingDelay || state == DisplayState::Appearing
}

/// The controller right after start: both slots hidden, nothing seen yet.
pub open spec fn initial_controller() -> DisplayControllerView {
    DisplayControllerView {
        slots: seq![hidden_slot(), hidden_slot()],
        primary_index: 0,
        current_media: idle_media(),
    }
}

/// The controller after the secondary slot took over with the text of the
/// current media. With nothing on screen the new primary appears at once;
/// otherwise the old primary starts to disappear, unless it already does,
/// and the new one waits out the delay.
pub open spec fn spec_swap_and_show(
    c: DisplayControllerView,
    settings: Settings,
) -> DisplayControllerView {
    let outgoing_index = c.primary_index;
    let incoming_index = 1 - c.primary_index;
    let outgoing = c.slots[outgoing_index];
    let incoming = DisplaySlotView {
        text: spec_format_media_text(settings, c.current_media),
        timer: 0,
        ..c.slots[incoming_index]
    };
    let (new_outgoing, new_incoming) = if outgoing.state == DisplayState::Hidden {
        (outgoing, DisplaySlotView { state: DisplayState::Appearing, ..incoming })
    } else if outgoing.state == DisplayState::Disappearing {
        (outgoing, DisplaySlotView { state: DisplayState::AppearingDelay, ..incoming })
    } else {
        (
            DisplaySlotView { state: DisplayState::Disappearing, timer: 0, ..outgoing },
            DisplaySlotView { state: DisplayState::AppearingDelay, ..incoming },
        )
    };
    DisplayControllerView {
        slots: c.slots.update(outgoing_index, new_outgoing).update(incoming_index, new_incoming),
        primary_index: incoming_index,
        current_media: c.current_media,
    }
}

/// Whether a newly observed snapshot calls for showing the overlay again:
/// title or artist changed, or the status changed and either the status
/// is displayed or playback began. Without status display, a snapshot
/// that is not playing never brings back a hidden overlay.
pub open spec fn transition_warranted(
    previous: MediaInfoView,
    observed: MediaInfoView,
    show_playback_status: bool,
    primary: DisplayState,
) -> bool {
    let text_changed = previous.title != observed.title || previous.artist != observed.artist;
    let status_changed = previous.status != observed.status;
    let wanted = text_changed || (status_changed && (show_playback_status || observed.status
        == MediaStatus::Playing));
    let suppressed = !show_playback_status && observed.status != MediaStatus::Playing && primary
        == DisplayState::Hidden;
    wanted && !suppressed
}

/// Whether a newly observed snapshot starts a transition. From hidden or
/// disappearing a warranted transition always starts; from visible only
/// when title or artist changed; while the primary is on its way in,
/// never.
pub open spec fn transition_starts(
    previous: MediaInfoView,
    observed: MediaInfoView,
    show_playback_status: bool,
    primary: DisplayState,
) -> bool {
    transition_warranted(previous, observed, show_playback_status, primary) && match primary {
        DisplayState::Hidden => true,
        DisplayState::Disappearing => true,
        DisplayState::Visible => previous.title != observed.title || previous.artist
            != observed.artist,
        DisplayState::AppearingDelay => false,
        DisplayState::Appearing => false,
    }
}

/// The controller after it took note of `observed`: the snapshot is
/// remembered, and a transition starts where `transition_starts` says so.
pub open spec fn spec_observe_media(
    c: DisplayControllerView,
    settings: Settings,
    observed: MediaInfoView,
) -> DisplayControllerView {
    let noted = DisplayControllerView { current_media: observed, ..c };
    if transition_starts(
        c.current_media,
        observed,
        settings.show_playback_status,
        c.primary().state,
    ) {
        spec_swap_and_show(noted, settings)
    } else {
        noted
    }
}

/// One frame of the controller: the media are taken note of and both
/// slots move through `dt` milliseconds.
pub open spec fn spec_update_display_state(
    c: DisplayControllerView,
    settings: Settings,
    observed: MediaInfoView,
    dt: u32,
) -> DisplayControllerView {
    let noted = spec_observe_media(c, settings, observed);
    DisplayControllerView {
        slots: seq![
            step_slot(noted.slots[0], settings, observed.status, dt),
            step_slot(noted.slots[1], settings, observed.status, dt),
        ],
        ..noted
    }
}

impl DisplayController {
    /// A controller with both slots hidden and no media seen.
    pub fn new() -> (controller: DisplayController)
        ensures
            controller@ == initial_controller(),
            controller@.wf(),
    {
        let controller = DisplayController {
            slots: [
                DisplaySlot {
                    text: String::new(),
                    state: DisplayState::Hidden,
                    timer: 0,
                    opacity: 0,
                    offset_x: 0,
                },
                DisplaySlot {
                    text: String::new(),
                    state: DisplayState::Hidden,
                    timer: 0,
                    opacity: 0,
                    offset_x: 0,
                },
            ],
            primary_index: 0,
            current_media: MediaInfo::default(),
        };
        assert(controller@.slots =~= initial_controller().slots);
        controller
    }

    /// Whether the controller is well-formed.
    pub fn is_well_formed(&self) -> (ok: bool)
        ensures
            ok == self@.wf(),
    {
        if self.primary_index >= 2 {
            return false;
        }
        let primary: &DisplaySlot = &self.slots[self.primary_index];
        let secondary: &DisplaySlot = &self.slots[1 - self.primary_index];
        let hidden: bool = secondary.state == DisplayState::Hidden;
        let leaving: bool = secondary.state == DisplayState::Disappearing;
        let agree: bool = match primary.state {
            DisplayState::AppearingDelay => hidden || (leaving && secondary.timer
                >= primary.timer),
            DisplayState::Appearing => hidden || (leaving && secondary.timer >= APPEAR_DELAY
                && secondary.timer - APPEAR_DELAY >= primary.timer),
            _ => hidden,
        };
        self.slots[0].is_well_formed() && self.slots[1].is_well_formed() && agree
    }
}

/// Makes the secondary slot the primary one and starts showing the text
/// of the current media in it.
pub fn swap_and_show(controller: &mut DisplayController, settings: &Settings)
    requires
        old(controller).primary_index < 2,
    ensures
        final(controller)@ == spec_swap_and_show(old(controller)@, *settings),
        old(controller)@.wf() ==> final(controller)@.wf(),
{
    let primary_index: usize = controller.primary_index;
    let secondary_index: usize = 1 - primary_index;

    controller.primary_index = secondary_index;
    let new_primary: usize = controller.primary_index;

    let text: String = format_media_text(settings, &controller.current_media);
    update_slot_text(&mut controller.slots[new_primary], text);

    if controller.slots[primary_index].state == DisplayState::Hidden {
        controller.slots[new_primary].state = DisplayState::Appearing;
        controller.slots[new_primary].timer = 0;
    } else {
        if controller.slots[primary_index].state != DisplayState::Disappearing {
            controller.slots[primary_index].state = DisplayState::Disappearing;
            controller.slots[primary_index].timer = 0;
        }
        controller.slots[new_primary].state = DisplayState::AppearingDelay;
        controller.slots[new_primary].timer = 0;
    }
    assert(controller@.slots =~= spec_swap_and_show(old(controller)@, *settings).slots);
}

/// Takes note of the latest snapshot and starts a transition where the
/// change calls for one. Returns whether a transition started.
pub fn observe_media(
    controller: &mut DisplayController,
    settings: &Settings,
    media: &MediaInfo,
) -> (started: bool)
    requires
        old(controller).primary_index < 2,
    ensures
        final(controller)@ == spec_observe_media(old(controller)@, *settings, media@),
        started == transition_starts(
            old(controller)@.current_media,
            media@,
            settings.show_playback_status,
            old(controller)@.primary().state,
        ),
        !started ==> final(controller)@.slots == old(controller)@.slots,
        !started ==> final(controller)@.primary_index == old(controller)@.primary_index,
        old(controller)@.wf() ==> final(controller)@.wf(),
{
    let mut title_changed: bool = false;
    let mut artist_changed: bool = false;
    let mut status_changed: bool = false;

    if !controller.current_media.same_as(media) {
        title_changed = controller.current_media.title != media.title;
        artist_changed = controller.current_media.artist != media.artist;
        status_changed = controller.current_media.status != media.status;
        controller.current_media = media.clone();
    }
    assert(controller@.current_media == media@);

    let mut should_update: bool = if settings.show_playback_status {
        title_changed || artist_changed || status_changed
    } else {
        title_changed || artist_changed
    };

    if !should_update && !settings.show_playback_status && status_changed && media.status
        == MediaStatus::Playing {
        should_update = true;
    }
    let primary_index: usize = controller.primary_index;
    if !settings.show_playback_status && should_update && media.status != MediaStatus::Playing
        && controller.slots[primary_index].state == DisplayState::Hidden {
        should_update = false;
    }
    let mut started: bool = false;
    if should_update {
        match controller.slots[primary_index].state {
            DisplayState::Hidden => {
                started = true;
            },
            DisplayState::Visible => {
                if title_changed || artist_changed {
                    started = true;
                }
            },
            DisplayState::Disappearing => {
                started = true;
            },
            DisplayState::AppearingDelay => {},
            DisplayState::Appearing => {},
        }
    }
    assert(controller@.slots =~= old(controller)@.slots);
    if started {
        swap_and_show(controller, settings);
    }
    started
}

/// One frame of the controller: takes note of the latest snapshot and
/// moves both slots through `dt` milliseconds.
pub fn update_display_state(
    controller: &mut DisplayController,
    settings: &Settings,
    media: &MediaInfo,
    dt: u32,
)
    requires
        old(controller).primary_index < 2,
    ensures
        final(controller)@ == spec_update_display_state(old(controller)@, *settings, media@, dt),
        old(controller)@.wf() ==> final(controller)@.wf(),
{
    let _ = observe_media(controller, settings, media);
    let ghost noted = controller@;
    update_display_slot(&mut controller.slots[0], settings, media.status, dt);
    update_display_slot(&mut controller.slots[1], settings, media.status, dt);
    proof {
        assert(controller@.slots =~= spec_update_display_state(
            old(controller)@,
            *settings,
            media@,
            dt,
        ).slots);
        if old(controller)@.wf() {
            lemma_frame_keeps_phases(noted, *settings, media@.status, dt);
        }
    }
}

/// Moving both slots of a well-formed controller through one frame
/// leaves it well-formed.
pub proof fn lemma_frame_keeps_phases(
    c: DisplayControllerView,
    settings: Settings,
    status: MediaStatus,
    dt: u32,
)
    requires
        c.wf(),
    ensures
        (DisplayControllerView {
            slots: seq![
                step_slot(c.slots[0], settings, status, dt),
                step_slot(c.slots[1], settings, status, dt),
            ],
            ..c
        }).wf(),
{
    let primary = c.primary();
    let secondary = c.secondary();
    lemma_step_keeps_slot_wf(primary, settings, status, dt);
    lemma_step_keeps_slot_wf(secondary, settings, status, dt);
    assert(phases_agree(
        step_slot(primary, settings, status, dt),
        step_slot(secondary, settings, status, dt),
    ));
}

/// In a well-formed controller at most one slot is on its way in, and at
/// most one is on its way out.
pub proof fn lemma_phases_exclusive(c: DisplayControllerView)
    requires
        c.wf(),
    ensures
        !(is_entering(c.slots[0].state) && is_entering(c.slots[1].state)),
        !(c.slots[0].state == DisplayState::Disappearing && c.slots[1].state
            == DisplayState::Disappearing),
{
}

/// While the primary slot is visible, a snapshot with the same title and
/// artist starts no transition: both slots and the primary index stay as
/// they are.
pub proof fn lemma_same_text_keeps_visible(
    c: DisplayControllerView,
    settings: Settings,
    observed: MediaInfoView,
)
    requires
        c.wf(),
        c.primary().state == DisplayState::Visible,
        observed.title == c.current_media.title,
        observed.artist == c.current_media.artist,
    ensures
        spec_observe_media(c, settings, observed).slots == c.slots,
        spec_observe_media(c, settings, observed).primary_index == c.primary_index,
{
}

/// With nothing on screen, a transition makes the hidden secondary slot
/// the primary one and lets it appear at once, with its timer at 0.
pub proof fn lemma_swap_from_hidden(c: DisplayControllerView, settings: Settings)
    requires
        c.wf(),
        c.primary().state == DisplayState::Hidden,
    ensures
        spec_swap_and_show(c, settings).primary_index == 1 - c.primary_index,
        spec_swap_and_show(c, settings).primary().state == DisplayState::Appearing,
        spec_swap_and_show(c, settings).primary().timer == 0,
        spec_swap_and_show(c, settings).secondary().state == DisplayState::Hidden,
        spec_swap_and_show(c, settings).wf(),
{
}

/// A transition leaves a well-formed controller well-formed, and makes
/// the other slot the primary one.
pub proof fn lemma_swap_keeps_wf(c: DisplayControllerView, settings: Settings)
    requires
        c.wf(),
    ensures
        spec_swap_and_show(c, settings).wf(),
        spec_swap_and_show(c, settings).primary_index == 1 - c.primary_index,
        is_entering(spec_swap_and_show(c, settings).primary().state),
{
}

} // verus!
