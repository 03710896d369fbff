//! Rendering core of a "now playing" overlay.
//!
//! The crate turns what a media player reports into frames of pixels:
//!
//! - `media` and `text` clean up title and artist and format the text to
//!   show;
//! - `number`, `descriptor`, `font`, `atlas` and `assets` read a bitmap font:
//!   the metrics of its glyphs and the texture that holds them;
//! - `measure` sizes a text, `raster` and `draw` blend its glyphs over a
//!   canvas;
//! - `display` and `controller` animate two slots of text, so that a new
//!   text fades in while the old one fades out;
//! - `frame` puts these together: the size of a frame and its pixels.
//!
//! All arithmetic is on integers. Fractions are fixed-point numbers, whose
//! units `fixed` describes. Every function states what it computes over
//! sequences, maps and integers, and is proved to compute just that without
//! overflow or panic.

pub mod assets;
pub mod atlas;
pub mod controller;
pub mod descriptor;
pub mod display;
pub mod draw;
pub mod fixed;
pub mod font;
pub mod frame;
pub mod measure;
pub mod media;
pub mod number;
pub mod raster;
pub mod settings;
pub mod text;
