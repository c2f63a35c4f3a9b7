//! Verified core of a small terminal renderer for 3-D wireframe glyphs.

pub mod controls;
pub mod line;
pub mod models;
pub mod renderer;
