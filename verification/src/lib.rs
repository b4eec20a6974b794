//! A Vivaldi synthetic network coordinate model.
//!
//! Each participant in a distributed system keeps a position in a
//! low-dimensional metric space such that the distance between two positions
//! approximates the round-trip latency between the participants. The model is
//! updated incrementally from pairwise round-trip-time samples supplied by the
//! surrounding application; it performs no network activity of its own.
//!
//! All quantities are fixed-point scalars: an `i64` holds the value times
//! [`fixed::SCALE`], so one second of latency is `1_000_000_000` raw units.

pub mod coordinate;
pub mod fixed;
pub mod model;
pub mod vector;

pub use coordinate::Coordinate;
pub use fixed::SCALE;
pub use model::estimate_rtt;
pub use model::Model;
