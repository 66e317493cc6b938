mod canvas;
mod color;
mod geometry;

pub use canvas::Canvas;
pub use color::Color;
pub use geometry::{Position, Size};
