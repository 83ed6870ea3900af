//! Geometry passes that run before a polygon is triangulated.

pub mod path;
pub mod shape;
