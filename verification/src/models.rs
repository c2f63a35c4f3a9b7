//! The shapes that can be shown: a unit cube, and meshes read from STL files.

pub mod cube;
pub mod stl;
