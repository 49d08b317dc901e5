//! Storage and layout kernel of a small ray tracer: a matrix whose transpose
//! is a view over its storage, a bounds-checked pixel canvas, and the plain
//! text image format that a canvas is written out in.
pub mod canvas;
pub mod matrix;
pub mod text;

pub use canvas::{Axis, Canvas, OutOfRange};
pub use matrix::Matrix;
