//! Skyline of a set of building edges seen from one observation point.
//!
//! Every edge traces an elevation curve over the azimuth circle. The sweep in
//! [`skymask`] merges the bounded curves into one interval map that names, for
//! each azimuth, the edge that stands highest there.
//!
//! All angles are fixed-point integers: one unit is a billionth of a radian,
//! so that every comparison the sweep makes is exact. The elevation curves
//! themselves come from the caller, as implementations of [`ProjLine`].
//!
//! - [`line`]: projected lines, and the choice between the two roots of the
//!   crossing equation;
//! - [`segment`]: projected segments and their order;
//! - [`compare`]: comparison up to a tolerance, and what a line gets of a
//!   range that another line holds;
//! - [`ranges`]: the interval map;
//! - [`model`]: the sweep as a function of its input;
//! - [`sweep`]: the sweep itself;
//! - [`dominance`] and [`laws`]: what holds of its result.

pub mod compare;
pub mod dominance;
pub mod laws;
pub mod line;
pub mod model;
pub mod ranges;
pub mod segment;
pub mod sweep;

pub use compare::float_cmp;
pub use line::{ProjLine, PI};
pub use model::MissingCrossing;
pub use segment::ProjSegment;
pub use sweep::skymask;
