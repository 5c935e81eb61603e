//! Decorates text with Unicode combining marks ("glyphs") layered onto each
//! base character, with per-position frequency, stacking depth and an optional
//! cap on the length of the result.
pub mod config;
pub mod content;
pub mod decoration;
pub mod joinerator;
pub mod matcher;
pub mod plan;
pub mod random;
pub mod repertoire;
pub mod text;
pub mod transform;
