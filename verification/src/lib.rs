//! Tiled 2D line rendering support: geometric primitives, styled-line shape
//! derivation, and the tiler that assigns styled lines to a regular grid of
//! screen tiles and compacts the assignments into GPU-consumable arrays.
//!
//! All coordinates are exact integers in caller-chosen units (for example
//! 1/16th of a pixel), bounded by [`types::MAX_COORD`], so that every
//! geometric predicate in this crate is exact and fully verified.

pub mod bbox;
pub mod bucketer;
pub mod compare;
pub mod fixed_buffer;
pub mod interval;
pub mod line;
pub mod polygon;
pub mod stack;
pub mod style;
pub mod tiler;
pub mod types;

pub use bbox::Bbox;
pub use interval::Interval;
pub use line::Line;
pub use polygon::Polygon;
pub use style::Color;
pub use style::LineCap;
pub use style::LineStyle;
pub use style::StyledLine;
pub use tiler::TileInfo;
pub use tiler::Tiler;
pub use types::ceil_div_u32;
pub use types::v2_rot90_anticlockwise;
pub use types::P2;
pub use types::V2;
