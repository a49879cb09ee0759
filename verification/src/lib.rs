//! Renders a delimited text table as a plan of drawing commands for a gridded
//! raster image: grid lines, per-cell background rectangles and text, with an
//! embedded per-cell directive syntax for color overrides and rotation.

pub mod layout;
pub mod numlit;
pub mod style;
pub mod plan;
pub mod table;

pub use layout::RenderConfig;
