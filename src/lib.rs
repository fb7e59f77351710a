//! Color representations (RGB, HSL, HSB, hexadecimal, named colors), exact
//! integer conversions among them, hue-wheel harmonies, gradients and
//! randomized palettes.
pub mod color_math;
pub mod color_spaces;
pub mod encoding;
pub mod error;
pub mod file;
pub mod named_colors;
pub mod tui;
