//! Drawings of lines and circles measured in physical units, their SVG
//! rendering, the primitives that scripts call to build them, and the
//! decisions of the live viewer that serves the rendering.
pub mod num;
pub mod drawing;
pub mod svg;
pub mod script;
pub mod viewer;

pub use drawing::{Drawing, Figure, Unit};
pub use num::Num;
