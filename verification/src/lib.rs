//! Image composition helpers: badge placement, caption strips, plates, and
//! coverage-aware font lookup, with their rules stated and proved.

pub mod background;
pub mod badge;
pub mod chars;
pub mod coverage;
pub mod face;
pub mod font;
pub mod font_cache;
pub mod label;
pub mod pixels;
