//! The integer lattice the trajectory generators walk on.
//!
//! Generated paths step one unit at a time along an axis, so every
//! coordinate is a whole number. The host converts these points to real
//! coordinates before projecting them onto the view plane.

use vstd::prelude::*;

verus! {

/// A point of the integer lattice.
#[derive(Clone, Copy, Debug, PartialEq, Eq)]
pub struct Point3 {
    /// Coordinate along the first axis.
    pub x: i64,
    /// Coordinate along the second axis.
    pub y: i64,
    /// Coordinate along the third axis.
    pub z: i64,
}

/// One trajectory point: where it sits and what color its segment carries.
#[derive(Clone, Copy, Debug, PartialEq, Eq)]
pub struct Pixel3D {
    /// Position on the lattice.
    pub coordinate: Point3,
    /// Color, one byte per channel.
    pub color: (u8, u8, u8),
}

} // verus!
