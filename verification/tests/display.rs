use deltatune::controller::{observe_media, swap_and_show, update_display_state, DisplayController};
use deltatune::display::{
    fade, interpolate_quadratic, update_display_slot, update_slot_text, DisplaySlot, DisplayState,
};
use deltatune::media::{MediaInfo, MediaStatus};
use deltatune::settings::Settings;

fn track(title: &str, status: MediaStatus) -> MediaInfo {
    MediaInfo { title: title.to_string(), artist: "Artist".to_string(), status }
}

fn slot_in(state: DisplayState, timer: u64, opacity: u16, offset_x: i64) -> DisplaySlot {
    DisplaySlot { text: "text".to_string(), state, timer, opacity, offset_x }
}

fn run_frames(c: &mut DisplayController, settings: &Settings, media: &MediaInfo, dt: u32, n: u32) {
    for _ in 0..n {
        update_display_state(c, settings, media, dt);
        assert!(c.is_well_formed());
    }
}

fn states(c: &DisplayController) -> (DisplayState, DisplayState) {
    (c.slots[c.primary_index].state, c.slots[1 - c.primary_index].state)
}

#[test]
fn new_controller_is_hidden_and_idle() {
    let c = DisplayController::new();
    assert_eq!(c.primary_index, 0);
    assert_eq!(c.current_media, MediaInfo::default());
    for slot in c.slots.iter() {
        assert_eq!(slot.text, "");
        assert_eq!(slot.state, DisplayState::Hidden);
        assert_eq!(slot.timer, 0);
        assert_eq!(slot.opacity, 0);
        assert_eq!(slot.offset_x, 0);
    }
    assert!(c.is_well_formed());
}

#[test]
fn hidden_slot_becomes_visible_after_delay_and_duration() {
    let settings = Settings::default();
    let mut c = DisplayController::new();
    c.current_media = track("Song", MediaStatus::Playing);
    swap_and_show(&mut c, &settings);
    assert_eq!(c.primary_index, 1);
    assert_eq!(states(&c), (DisplayState::Appearing, DisplayState::Hidden));
    assert_eq!(c.slots[1].text, "\u{266a}~\u{2009}\u{2009}\u{2009}Song\nArtist");
    let media = track("Song", MediaStatus::Playing);
    run_frames(&mut c, &settings, &media, 50, 25);
    assert_eq!(states(&c), (DisplayState::Visible, DisplayState::Hidden));
    assert_eq!(c.slots[1].opacity, 1000);
    assert_eq!(c.slots[1].offset_x, 0);
}

#[test]
fn hidden_slot_becomes_visible_in_the_frame_after_one_long_step() {
    let settings = Settings::default();
    let mut c = DisplayController::new();
    c.current_media = track("Song", MediaStatus::Playing);
    swap_and_show(&mut c, &settings);
    let media = track("Song", MediaStatus::Playing);
    update_display_state(&mut c, &settings, &media, 1250);
    assert_eq!(states(&c), (DisplayState::Appearing, DisplayState::Hidden));
    assert_eq!(c.slots[1].timer, 1250);
    update_display_state(&mut c, &settings, &media, 0);
    assert_eq!(states(&c), (DisplayState::Visible, DisplayState::Hidden));
    assert_eq!(c.slots[1].opacity, 1000);
    assert_eq!(c.slots[1].offset_x, 0);
    assert_eq!(c.slots[1].timer, 0);
}

#[test]
fn crossfade_waits_out_the_delay_and_then_appears() {
    let settings = Settings { hide_automatically: None, ..Settings::default() };
    let mut c = DisplayController::new();
    let first = track("One", MediaStatus::Playing);
    run_frames(&mut c, &settings, &first, 50, 20);
    assert_eq!(states(&c), (DisplayState::Visible, DisplayState::Hidden));
    assert_eq!(c.primary_index, 1);

    let second = track("Two", MediaStatus::Playing);
    update_display_state(&mut c, &settings, &second, 50);
    assert_eq!(c.primary_index, 0);
    assert_eq!(states(&c), (DisplayState::AppearingDelay, DisplayState::Disappearing));
    assert_eq!(c.slots[0].text, "\u{266a}~\u{2009}\u{2009}\u{2009}Two\nArtist");
    assert_eq!(c.slots[0].opacity, 0);
    assert_eq!(c.slots[0].timer, 50);
    assert_eq!(c.slots[1].timer, 50);
    // At the start of its first frame the outgoing slot is still fully opaque.
    assert_eq!(c.slots[1].opacity, 1000);
    assert_eq!(c.slots[1].offset_x, 0);

    run_frames(&mut c, &settings, &second, 50, 9);
    assert_eq!(states(&c), (DisplayState::AppearingDelay, DisplayState::Disappearing));
    assert_eq!(c.slots[0].timer, 500);
    update_display_state(&mut c, &settings, &second, 50);
    assert_eq!(states(&c), (DisplayState::Appearing, DisplayState::Disappearing));
    assert_eq!(c.slots[0].timer, 50);
    assert_eq!(c.slots[1].timer, 550);

    run_frames(&mut c, &settings, &second, 50, 4);
    assert_eq!(states(&c), (DisplayState::Appearing, DisplayState::Disappearing));
    assert_eq!(c.slots[1].timer, 750);
    update_display_state(&mut c, &settings, &second, 50);
    assert_eq!(states(&c), (DisplayState::Appearing, DisplayState::Hidden));
    assert_eq!(c.slots[1].opacity, 0);
    assert_eq!(c.slots[1].offset_x, 0);

    // 1250 ms after the change the incoming slot has been appearing for 750 ms.
    run_frames(&mut c, &settings, &second, 50, 9);
    assert_eq!(states(&c), (DisplayState::Appearing, DisplayState::Hidden));
    assert_eq!(c.slots[0].timer, 750);
    update_display_state(&mut c, &settings, &second, 0);
    assert_eq!(states(&c), (DisplayState::Visible, DisplayState::Hidden));
    assert_eq!(c.slots[0].opacity, 1000);
    assert_eq!(c.slots[0].offset_x, 0);
}

#[test]
fn status_flip_while_visible_changes_no_slot() {
    let settings = Settings { show_playback_status: true, ..Settings::default() };
    let mut c = DisplayController::new();
    let playing = track("Song", MediaStatus::Playing);
    run_frames(&mut c, &settings, &playing, 50, 20);
    assert_eq!(states(&c), (DisplayState::Visible, DisplayState::Hidden));
    let text = c.slots[1].text.clone();
    let timer = c.slots[1].timer;

    let paused = track("Song", MediaStatus::Paused);
    let started = observe_media(&mut c, &settings, &paused);
    assert!(!started);
    assert_eq!(c.primary_index, 1);
    assert_eq!(states(&c), (DisplayState::Visible, DisplayState::Hidden));
    assert_eq!(c.slots[1].text, text);
    assert_eq!(c.slots[1].timer, timer);
    assert_eq!(c.slots[1].opacity, 1000);
    assert_eq!(c.slots[0].text, "");
    assert_eq!(c.current_media, paused);
}

#[test]
fn title_change_while_visible_starts_a_crossfade() {
    let settings = Settings::default();
    let mut c = DisplayController::new();
    let first = track("One", MediaStatus::Playing);
    run_frames(&mut c, &settings, &first, 50, 20);
    let second = track("Two", MediaStatus::Playing);
    assert!(observe_media(&mut c, &settings, &second));
    assert_eq!(c.primary_index, 0);
    assert_eq!(states(&c), (DisplayState::AppearingDelay, DisplayState::Disappearing));
    assert_eq!(c.slots[1].timer, 0);
    assert_eq!(c.slots[0].timer, 0);
    let mut by_artist = track("Two", MediaStatus::Playing);
    by_artist.artist = "Other".to_string();
    assert!(!observe_media(&mut c, &settings, &by_artist));
    assert_eq!(c.current_media, by_artist);
}

#[test]
fn no_transition_starts_while_the_primary_is_on_its_way_in() {
    let settings = Settings::default();
    let mut c = DisplayController::new();
    let first = track("One", MediaStatus::Playing);
    run_frames(&mut c, &settings, &first, 50, 3);
    assert_eq!(states(&c), (DisplayState::Appearing, DisplayState::Hidden));
    let second = track("Two", MediaStatus::Playing);
    assert!(!observe_media(&mut c, &settings, &second));
    assert_eq!(c.primary_index, 1);
    assert_eq!(c.slots[1].text, "\u{266a}~\u{2009}\u{2009}\u{2009}One\nArtist");
    assert_eq!(c.current_media, second);
    // The change was taken note of, so it does not start anything later either.
    run_frames(&mut c, &settings, &second, 50, 20);
    assert_eq!(c.primary_index, 1);
    assert_eq!(c.slots[1].text, "\u{266a}~\u{2009}\u{2009}\u{2009}One\nArtist");
}

#[test]
fn hidden_overlay_stays_hidden_for_what_is_not_playing() {
    let settings = Settings::default();
    let mut c = DisplayController::new();
    assert!(!observe_media(&mut c, &settings, &track("One", MediaStatus::Paused)));
    assert_eq!(states(&c), (DisplayState::Hidden, DisplayState::Hidden));
    assert!(!observe_media(&mut c, &settings, &track("Two", MediaStatus::Stopped)));
    assert_eq!(states(&c), (DisplayState::Hidden, DisplayState::Hidden));
    assert_eq!(c.primary_index, 0);
    assert!(observe_media(&mut c, &settings, &track("Two", MediaStatus::Playing)));
    assert_eq!(states(&c), (DisplayState::Appearing, DisplayState::Hidden));
}

#[test]
fn hidden_overlay_comes_back_for_what_is_paused_where_status_is_shown() {
    let settings = Settings { show_playback_status: true, ..Settings::default() };
    let mut c = DisplayController::new();
    assert!(observe_media(&mut c, &settings, &track("One", MediaStatus::Paused)));
    assert_eq!(states(&c), (DisplayState::Appearing, DisplayState::Hidden));
    assert_eq!(c.slots[1].text, "\u{23f8}~\u{2009}\u{2009}\u{2009}One\nArtist");
}

#[test]
fn same_snapshot_starts_nothing() {
    let settings = Settings { show_playback_status: true, ..Settings::default() };
    let mut c = DisplayController::new();
    assert!(!observe_media(&mut c, &settings, &MediaInfo::default()));
    let media = track("One", MediaStatus::Playing);
    assert!(observe_media(&mut c, &settings, &media));
    assert!(!observe_media(&mut c, &settings, &media));
}

#[test]
fn pause_without_status_display_starts_nothing_but_resume_does() {
    let settings = Settings { hide_automatically: Some(1000), ..Settings::default() };
    let mut c = DisplayController::new();
    let playing = track("One", MediaStatus::Playing);
    run_frames(&mut c, &settings, &playing, 50, 60);
    assert_eq!(states(&c), (DisplayState::Hidden, DisplayState::Hidden));
    let paused = track("One", MediaStatus::Paused);
    assert!(!observe_media(&mut c, &settings, &paused));
    assert!(observe_media(&mut c, &settings, &playing));
    assert_eq!(states(&c), (DisplayState::Appearing, DisplayState::Hidden));
}

#[test]
fn change_while_disappearing_starts_a_transition_without_restarting_the_fade() {
    let settings = Settings { hide_automatically: Some(100), ..Settings::default() };
    let mut c = DisplayController::new();
    let first = track("One", MediaStatus::Playing);
    run_frames(&mut c, &settings, &first, 50, 22);
    assert_eq!(states(&c), (DisplayState::Disappearing, DisplayState::Hidden));
    let fading = c.slots[1].timer;
    assert!(fading > 0);
    let second = track("Two", MediaStatus::Playing);
    assert!(observe_media(&mut c, &settings, &second));
    assert_eq!(c.primary_index, 0);
    assert_eq!(states(&c), (DisplayState::AppearingDelay, DisplayState::Disappearing));
    assert_eq!(c.slots[1].timer, fading);
    assert!(c.is_well_formed());
}

#[test]
fn auto_hide_timeout_hides_whatever_the_status() {
    let settings = Settings { hide_automatically: Some(2500), ..Settings::default() };
    for status in [MediaStatus::Playing, MediaStatus::Paused, MediaStatus::Stopped] {
        let mut early = slot_in(DisplayState::Visible, 2499, 1000, 0);
        update_display_slot(&mut early, &settings, status, 1);
        assert_eq!(early.state, DisplayState::Visible);
        assert_eq!(early.timer, 2500);
        update_display_slot(&mut early, &settings, status, 16);
        assert_eq!(early.state, DisplayState::Disappearing);
        assert_eq!(early.timer, 16);
        let mut late = slot_in(DisplayState::Visible, 1_000_000, 1000, 0);
        update_display_slot(&mut late, &settings, status, 16);
        assert_eq!(late.state, DisplayState::Disappearing);
    }
}

#[test]
fn without_timeout_the_text_stays_while_playing() {
    let settings = Settings { hide_automatically: None, ..Settings::default() };
    let mut slot = slot_in(DisplayState::Visible, 1_000_000, 1000, 0);
    update_display_slot(&mut slot, &settings, MediaStatus::Playing, 16);
    assert_eq!(slot.state, DisplayState::Visible);
    for status in [MediaStatus::Paused, MediaStatus::Stopped] {
        let mut early = slot_in(DisplayState::Visible, 2499, 1000, 0);
        update_display_slot(&mut early, &settings, status, 16);
        assert_eq!(early.state, DisplayState::Visible);
        let mut due = slot_in(DisplayState::Visible, 2500, 1000, 0);
        update_display_slot(&mut due, &settings, status, 16);
        assert_eq!(due.state, DisplayState::Disappearing);
        assert_eq!(due.timer, 16);
    }
    let shown = Settings { show_playback_status: true, ..settings };
    let mut kept = slot_in(DisplayState::Visible, 1_000_000, 1000, 0);
    update_display_slot(&mut kept, &shown, MediaStatus::Paused, 16);
    assert_eq!(kept.state, DisplayState::Visible);
}

#[test]
fn zero_timeout_hides_at_once() {
    let settings = Settings { hide_automatically: Some(0), ..Settings::default() };
    let mut slot = slot_in(DisplayState::Visible, 0, 300, 7);
    update_display_slot(&mut slot, &settings, MediaStatus::Playing, 16);
    assert_eq!(slot.state, DisplayState::Disappearing);
    assert_eq!(slot.opacity, 1000);
    assert_eq!(slot.offset_x, 0);
}

#[test]
fn hidden_slot_is_pinned_and_its_timer_rests() {
    let settings = Settings::default();
    let mut slot = slot_in(DisplayState::Hidden, 33, 500, -9);
    update_display_slot(&mut slot, &settings, MediaStatus::Playing, 16);
    assert_eq!(slot.state, DisplayState::Hidden);
    assert_eq!(slot.timer, 33);
    assert_eq!(slot.opacity, 0);
    assert_eq!(slot.offset_x, 0);
}

#[test]
fn delayed_slot_is_held_at_zero_until_the_delay_is_over() {
    let settings = Settings::default();
    let mut slot = slot_in(DisplayState::AppearingDelay, 0, 800, 55);
    update_display_slot(&mut slot, &settings, MediaStatus::Playing, 499);
    assert_eq!((slot.state, slot.timer, slot.opacity, slot.offset_x), (DisplayState::AppearingDelay, 499, 0, 0));
    update_display_slot(&mut slot, &settings, MediaStatus::Playing, 1);
    assert_eq!((slot.state, slot.timer), (DisplayState::AppearingDelay, 500));
    update_display_slot(&mut slot, &settings, MediaStatus::Playing, 20);
    assert_eq!((slot.state, slot.timer, slot.opacity, slot.offset_x), (DisplayState::Appearing, 20, 0, 0));
}

#[test]
fn appearing_slot_follows_the_fade_and_the_slide() {
    let settings = Settings::default();
    // The default scale is 3, so the slide starts 72 pixels to the right.
    let mut slot = slot_in(DisplayState::Appearing, 0, 0, 0);
    update_display_slot(&mut slot, &settings, MediaStatus::Playing, 125);
    assert_eq!((slot.opacity, slot.offset_x, slot.timer), (0, 72_000_000, 125));
    update_display_slot(&mut slot, &settings, MediaStatus::Playing, 125);
    assert_eq!((slot.opacity, slot.offset_x, slot.timer), (0, 50_000_000, 250));
    update_display_slot(&mut slot, &settings, MediaStatus::Playing, 125);
    assert_eq!((slot.opacity, slot.offset_x, slot.timer), (250, 32_000_000, 375));
    update_display_slot(&mut slot, &settings, MediaStatus::Playing, 250);
    assert_eq!((slot.opacity, slot.offset_x, slot.timer), (500, 18_000_000, 625));
    update_display_slot(&mut slot, &settings, MediaStatus::Playing, 124);
    assert_eq!((slot.state, slot.opacity, slot.offset_x, slot.timer), (DisplayState::Appearing, 1000, 2_000_000, 749));
    update_display_slot(&mut slot, &settings, MediaStatus::Playing, 1);
    assert_eq!((slot.state, slot.opacity, slot.offset_x, slot.timer), (DisplayState::Appearing, 1000, 128, 750));
    update_display_slot(&mut slot, &settings, MediaStatus::Playing, 1);
    assert_eq!((slot.state, slot.opacity, slot.offset_x, slot.timer), (DisplayState::Visible, 1000, 0, 1));
}

#[test]
fn disappearing_slot_follows_the_fade_and_the_slide() {
    let settings = Settings::default();
    let mut slot = slot_in(DisplayState::Disappearing, 0, 1000, 0);
    update_display_slot(&mut slot, &settings, MediaStatus::Playing, 100);
    assert_eq!((slot.opacity, slot.offset_x, slot.timer), (1000, 0, 100));
    update_display_slot(&mut slot, &settings, MediaStatus::Playing, 275);
    assert_eq!((slot.opacity, slot.offset_x, slot.timer), (1000, -1_280_000, 375));
    update_display_slot(&mut slot, &settings, MediaStatus::Playing, 250);
    assert_eq!((slot.opacity, slot.offset_x, slot.timer), (500, -18_000_000, 625));
    update_display_slot(&mut slot, &settings, MediaStatus::Playing, 125);
    assert_eq!((slot.state, slot.opacity, slot.offset_x, slot.timer), (DisplayState::Disappearing, 0, -50_000_000, 750));
    update_display_slot(&mut slot, &settings, MediaStatus::Playing, 16);
    assert_eq!((slot.state, slot.opacity, slot.offset_x, slot.timer), (DisplayState::Hidden, 0, 0, 750));
}

#[test]
fn slide_distance_follows_the_scale() {
    let settings = Settings { scale_factor: 1500, text_scale: 2000, ..Settings::default() };
    let mut slot = slot_in(DisplayState::Appearing, 0, 0, 0);
    update_display_slot(&mut slot, &settings, MediaStatus::Playing, 16);
    assert_eq!(slot.offset_x, 72_000_000);
    let unit = Settings { scale_factor: 1000, text_scale: 1000, ..Settings::default() };
    let mut small = slot_in(DisplayState::Appearing, 0, 0, 0);
    update_display_slot(&mut small, &unit, MediaStatus::Playing, 16);
    assert_eq!(small.offset_x, 24_000_000);
    let mut out = slot_in(DisplayState::Disappearing, 375, 0, 0);
    update_display_slot(&mut out, &unit, MediaStatus::Playing, 16);
    assert_eq!(out.offset_x, -6_000_000);
}

#[test]
fn timer_stops_at_its_largest_value() {
    let settings = Settings { hide_automatically: None, ..Settings::default() };
    let mut slot = slot_in(DisplayState::Visible, u64::MAX - 5, 1000, 0);
    update_display_slot(&mut slot, &settings, MediaStatus::Playing, 100);
    assert_eq!(slot.timer, u64::MAX);
    assert_eq!(slot.state, DisplayState::Visible);
}

#[test]
fn fade_curve_values() {
    assert_eq!(fade(0, 750), 0);
    assert_eq!(fade(125, 750), 0);
    assert_eq!(fade(126, 750), 2);
    assert_eq!(fade(375, 750), 500);
    assert_eq!(fade(625, 750), 1000);
    assert_eq!(fade(750, 750), 1000);
    assert_eq!(fade(9999, 750), 1000);
    assert_eq!(fade(1, 3), 250);
    assert_eq!(fade(2, 3), 750);
    assert_eq!(fade(1, 7), 0);
    assert_eq!(fade(2, 7), 178);
}

#[test]
fn ease_out_curve_values() {
    assert_eq!(interpolate_quadratic(0, 100, 0, 10), 0);
    assert_eq!(interpolate_quadratic(0, 100, 5, 10), 75);
    assert_eq!(interpolate_quadratic(0, 100, 10, 10), 100);
    assert_eq!(interpolate_quadratic(0, 100, 11, 10), 100);
    assert_eq!(interpolate_quadratic(100, 0, 5, 10), 25);
    assert_eq!(interpolate_quadratic(0, 10, 1, 3), 5);
    assert_eq!(interpolate_quadratic(10, 0, 1, 3), 4);
    assert_eq!(interpolate_quadratic(-10, 10, 1, 2), 5);
    assert_eq!(interpolate_quadratic(7, 7, 3, 9), 7);
    assert_eq!(interpolate_quadratic(i64::MIN, i64::MAX, 1_048_575, 1_048_575), i64::MAX);
    assert_eq!(interpolate_quadratic(i64::MAX, i64::MIN, 0, 1_048_575), i64::MAX);
}

#[test]
fn slot_text_is_replaced() {
    let mut slot = slot_in(DisplayState::Visible, 5, 1000, 0);
    update_slot_text(&mut slot, "other".to_string());
    assert_eq!(slot.text, "other");
    update_slot_text(&mut slot, "other".to_string());
    assert_eq!(slot.text, "other");
    assert_eq!((slot.state, slot.timer, slot.opacity, slot.offset_x), (DisplayState::Visible, 5, 1000, 0));
}

#[test]
fn swapping_forces_the_outgoing_slot_to_disappear() {
    let settings = Settings::default();
    let mut c = DisplayController::new();
    c.slots[0] = slot_in(DisplayState::Visible, 400, 1000, 0);
    c.current_media = track("Song", MediaStatus::Paused);
    swap_and_show(&mut c, &settings);
    assert_eq!(c.primary_index, 1);
    assert_eq!((c.slots[0].state, c.slots[0].timer), (DisplayState::Disappearing, 0));
    assert_eq!((c.slots[1].state, c.slots[1].timer), (DisplayState::AppearingDelay, 0));
    assert_eq!(c.slots[1].text, "Song\nArtist");
    assert_eq!(c.slots[0].text, "text");
    swap_and_show(&mut c, &settings);
    assert_eq!(c.primary_index, 0);
    assert_eq!((c.slots[1].state, c.slots[1].timer), (DisplayState::Disappearing, 0));
    assert_eq!((c.slots[0].state, c.slots[0].timer), (DisplayState::AppearingDelay, 0));
    assert_eq!(c.slots[0].text, "Song\nArtist");
}

#[test]
fn at_most_one_slot_enters_and_one_leaves_at_any_time() {
    let settings = Settings { hide_automatically: Some(300), ..Settings::default() };
    let mut c = DisplayController::new();
    let titles = ["a", "b", "b", "c", "c", "c", "d", "e", "e", "f"];
    let statuses = [MediaStatus::Playing, MediaStatus::Paused, MediaStatus::Playing, MediaStatus::Stopped];
    let mut frame: usize = 0;
    while frame < 2000 {
        let title = titles[(frame / 37) % titles.len()];
        let status = statuses[(frame / 53) % statuses.len()];
        let dt: u32 = [0, 7, 16, 33, 250, 900][frame % 6];
        update_display_state(&mut c, &settings, &track(title, status), dt);
        assert!(c.is_well_formed());
        let entering = c.slots.iter().filter(|s| {
            s.state == DisplayState::AppearingDelay || s.state == DisplayState::Appearing
        }).count();
        let leaving = c.slots.iter().filter(|s| s.state == DisplayState::Disappearing).count();
        assert!(entering <= 1);
        assert!(leaving <= 1);
        for slot in c.slots.iter() {
            assert!(slot.opacity <= 1000);
            if slot.state == DisplayState::Hidden {
                assert_eq!((slot.opacity, slot.offset_x), (0, 0));
            }
        }
        frame += 1;
    }
}

#[test]
fn malformed_controllers_are_told_apart() {
    let mut c = DisplayController::new();
    c.primary_index = 2;
    assert!(!c.is_well_formed());
    let mut both = DisplayController::new();
    both.slots[0] = slot_in(DisplayState::Visible, 0, 1000, 0);
    both.slots[1] = slot_in(DisplayState::Disappearing, 0, 1000, 0);
    assert!(!both.is_well_formed());
    let mut loud = DisplayController::new();
    loud.slots[1].opacity = 1001;
    assert!(!loud.is_well_formed());
}
