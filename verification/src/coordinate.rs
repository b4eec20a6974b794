//! The coordinate value type.

use crate::vector::Vector;
use vstd::prelude::*;

verus! {

/// The minimum "height" a coordinate can have, in raw fixed-point units
/// (10^-5 of a unit).
///
/// Each node keeps a strictly positive height element in its coordinate, so
/// that its height can always be scaled up or down. Any positive value can
/// act as the base; the floor is applied on every read, never on storage.
pub const MIN_HEIGHT: i64 = 10_000;

/// Coordinate represents a point in the Vivaldi model.
///
/// A Coordinate contains the Euclidean coordinate, estimated position error
/// and current height above the Euclidean plane. It is immutable: an update
/// replaces the whole value.
#[derive(Debug, Copy, Clone)]
pub struct Coordinate<V: Vector> {
    vector: V,
    error: i64,
    height: i64,
}

impl<V: Vector> Coordinate<V> {
    /// The position vector.
    pub closed spec fn spec_vector(&self) -> V {
        self.vector
    }

    /// The stored error estimate, in raw fixed-point units.
    pub closed spec fn spec_error(&self) -> i64 {
        self.error
    }

    /// The stored height, before the read floor is applied.
    pub closed spec fn spec_stored_height(&self) -> i64 {
        self.height
    }

    /// The height as every computation reads it: floored at [`MIN_HEIGHT`].
    pub open spec fn spec_height(&self) -> i64 {
        if self.spec_stored_height() < MIN_HEIGHT {
            MIN_HEIGHT
        } else {
            self.spec_stored_height()
        }
    }

    /// A coordinate is well formed when its error estimate is not negative.
    pub open spec fn wf(&self) -> bool {
        self.spec_error() >= 0
    }

    /// Returns the current estimated position error.
    pub fn error(&self) -> (r: i64)
        ensures
            r == self.spec_error(),
    {
        self.error
    }

    /// Returns the Euclidean coordinate.
    pub fn vector(&self) -> (r: &V)
        ensures
            *r == self.spec_vector(),
    {
        &self.vector
    }

    /// Returns the height of the Coordinate above the Euclidean plane.
    ///
    /// Law: reading the height floors it at a strictly positive minimum. A
    /// coordinate stored with height at or below zero reads exactly
    /// [`MIN_HEIGHT`]; one stored above the minimum reads the stored value
    /// unchanged.
    pub fn height(&self) -> (r: i64)
        ensures
            r == self.spec_height(),
            self.spec_stored_height() <= 0 ==> r == MIN_HEIGHT,
            self.spec_stored_height() > MIN_HEIGHT ==> r == self.spec_stored_height(),
            r >= MIN_HEIGHT,
    {
        if self.height < MIN_HEIGHT {
            return MIN_HEIGHT;
        }
        self.height
    }

    /// Returns the stored height without the read floor, for carrying it
    /// unchanged into a replacement coordinate.
    pub(crate) fn stored_height(&self) -> (r: i64)
        ensures
            r == self.spec_stored_height(),
    {
        self.height
    }

    /// Builds a coordinate from its three parts.
    pub fn new(vector: V, error: i64, height: i64) -> (r: Self)
        requires
            error >= 0,
        ensures
            r.spec_vector() == vector,
            r.spec_error() == error,
            r.spec_stored_height() == height,
            r.wf(),
    {
        Coordinate { vector, error, height }
    }
}

} // verus!
