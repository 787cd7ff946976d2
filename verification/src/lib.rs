//! The logic of hexwife, a hex viewer whose offsets are 128 bits wide.

pub mod config;
pub mod constants;
pub mod draw;
pub mod finder;
pub mod input;
pub mod laws;
pub mod line;
pub mod pattern;
pub mod screen;
pub mod search;
pub mod text;
pub mod util;
pub mod viewer;
