//! The backend for the web: the nodes of an SVG drawing, where its texts
//! go, and the sizes of the texts that it had measured.

pub mod svg;
pub mod text;
