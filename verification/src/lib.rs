//! Swipe-typing paths on an integer grid: a word and a key layout go in, the
//! polyline through the key centres and its resampled trace come out.
//!
//! Positions are whole grid units, `UNIT` of them to the keyboard's width and
//! to its height; lengths are whole grid units, rounded down.

pub mod buttons;
pub mod geometry;
pub mod layout;
pub mod resample;
pub mod waypoints;
pub mod word;
pub mod word_path;

pub use crate::buttons::{button_centers, get_button_centers, get_buttons, get_default_buttons_centers};
pub use crate::geometry::{dist, interpolate, isqrt, Point, MERGE_RADIUS, UNIT};
pub use crate::layout::Layout;
pub use crate::resample::{at_density, in_count, resample, Resampling};
pub use crate::waypoints::Waypoints;
pub use crate::word::{normalize_word, to_ascii_lower};
pub use crate::word_path::WordPath;
