//! A binary clock for Wayland layer-shell surfaces: the clock's digits, the
//! bit masks it shows, the pixels it paints, the palettes it paints with and
//! the small decisions of its event loop, each with its contract.

pub mod args;
pub mod clock;
pub mod config;
pub mod draw;
pub mod hex;
pub mod surface;
pub mod text;
