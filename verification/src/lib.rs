//! Verified core of an addressable LED-matrix runtime.
//!
//! The crate is organised around three layers:
//!
//! * colors and the lossy 8-bit HSV/RGB conversions (`led::hsv_rgb_convert`,
//!   `rgb2hsv`),
//! * the matrix abstractions: a pixel-push driver contract, a frame-buffer
//!   backend contract, and the animation contract (`led`),
//! * the runtime that owns a buffer and a driver, paces frames, and swaps
//!   animations (`led::matrix`), plus a small fixed-state variant
//!   (`led_matrix`).
//!
//! Concrete animations live in `rainbow`, `random`, `gol`, `noise`,
//! `noise_animation`, `scene` and `static_scene`.

pub mod gol;
pub mod led;
pub mod led_matrix;
pub mod noise;
pub mod noise_animation;
pub mod rainbow;
pub mod random;
pub mod rgb2hsv;
mod rng;
pub mod scene;
pub mod static_scene;
