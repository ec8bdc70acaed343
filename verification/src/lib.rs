//! A circular progress gauge for a terminal character grid.
//!
//! The gauge draws a ring (an annulus of configurable stroke) into a
//! rectangular region of cells, using the 2 x 4 dot sub-grid of the braille
//! glyph set for sub-cell resolution, and overlays a centered label.  The
//! geometry — which dots belong to the ring and which count as filled — is
//! modeled exactly in integer arithmetic and verified against that model.

pub mod geometry;
pub mod host;
pub mod gauge;
pub mod render;

pub use geometry::TURN;
pub use gauge::CircleGauge;
pub use gauge::GaugeLabel;
pub use render::Region;
