//! Photo capture-date inventory: date extraction from EXIF text, order
//! statistics over capture records, a gap-filled year histogram and its
//! text rendering.

pub mod date;
pub mod text;
pub mod error;
pub mod metadata;
pub mod analysis;
pub mod year_counts;
pub mod render;
pub mod cli;
pub mod scanner;
