//! Editing model for composite cubic Bézier paths used to author robot
//! motion programs: anchors with dependent control handles, hit testing,
//! continuity constraints, curve sampling, structural edits, persistence
//! records and motion-program generation.
//!
//! Coordinates are fixed-point integers counting thousandths of a field
//! unit, so every operation is exact.
pub mod bezier;
pub mod ease;
pub mod editor;
pub mod generate;
pub mod geom;
pub mod ids;
pub mod mode;
pub mod path;
pub mod point;
pub mod sampler;
pub mod save;

pub use bezier::{BezPoint, HandleSlot, SavePoint, control_offset, interpolate};
pub use ease::Easing;
pub use generate::generate;
pub use geom::Pos;
pub use mode::{Background, CursorMode};
pub use path::{CurveHit, HandleRef, Path};
pub use point::{Point, Viewport};
pub use save::LoadError;
