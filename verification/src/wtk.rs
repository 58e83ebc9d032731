//! Drawing for the window toolkit.

pub mod geom;
pub mod surface;
