//! The verified core of a chart-drawing backend.
//!
//! A polygon to be filled goes through three passes: its outline is
//! simplified ([`backend::utils::path`]), split where it crosses itself
//! ([`backend::utils::shape`]), and each of the shapes cut into triangles
//! ([`triangulate`]). The backend ([`backend`]) records the canvas calls
//! that this and the other drawing requests amount to, and the backend for
//! the web ([`web`]) the nodes of an SVG drawing. Beside them stands the
//! sampling of long series of data points ([`sample`]).
//!
//! All coordinates are whole numbers, so every result is exact.

pub mod backend;
pub mod error;
pub mod point;
pub mod sample;
pub mod triangulate;
pub mod web;

pub use error::Error;
pub use point::Point;
