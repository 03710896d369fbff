//! The configuration snapshot that the renderer reads each frame.

use vstd::prelude::*;

verus! {

/// User configuration. Factors and opacities are in thousandths (`1000`
/// is 1.0), the auto-hide timeout in milliseconds.
#[derive(Debug, Clone, Copy, PartialEq, Eq)]
pub struct Settings {
    pub scale_factor: u16,
    pub scale_x: u16,
    pub scale_y: u16,
    pub text_scale: u16,
    pub x_pos: i32,
    pub y_pos: i32,
    pub show_artist_name: bool,
    pub show_playback_status: bool,
    pub show_debug_overlay: bool,
    pub force_opaque_background: bool,
    pub background_opacity: u16,
    pub hyprland_pin: bool,
    pub hide_automatically: Option<u32>,
}

/// The configuration used when none is stored.
pub open spec fn default_settings() -> Settings {
    Settings {
        scale_factor: 3000,
        scale_x: 1000,
        scale_y: 1000,
        text_scale: 1000,
        x_pos: 0,
        y_pos: 0,
        show_artist_name: true,
        show_playback_status: false,
        show_debug_overlay: false,
        force_opaque_background: false,
        background_opacity: 0,
        hyprland_pin: false,
        hide_automatically: Some(2500u32),
    }
}

impl Default for Settings {
    fn default() -> (settings: Settings)
        ensures
            settings == default_settings(),
    {
        Settings {
            scale_factor: 3000,
            scale_x: 1000,
            scale_y: 1000,
            text_scale: 1000,
            x_pos: 0,
            y_pos: 0,
            show_artist_name: true,
            show_playback_status: false,
            show_debug_overlay: false,
            force_opaque_background: false,
            background_opacity: 0,
            hyprland_pin: false,
            hide_automatically: Some(2500),
        }
    }
}

impl Settings {
    /// The text scale in millionths: the product of `scale_factor` and
    /// `text_scale`.
    pub open spec fn spec_text_scale(&self) -> int {
        self.scale_factor as int * self.text_scale as int
    }

    /// The text scale in millionths.
    pub fn effective_text_scale(&self) -> (scale: u32)
        ensures
            scale == self.spec_text_scale(),
    {
        assert(self.scale_factor as int * self.text_scale as int <= 0xffff * 0xffff)
            by (nonlinear_arith)
            requires
                self.scale_factor <= 0xffff,
                self.text_scale <= 0xffff,
        ;
        (self.scale_factor as u32) * (self.text_scale as u32)
    }
}

} // verus!
