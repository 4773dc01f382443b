//! Geometries of OSM elements, with coordinates as OSM PBF stores them: whole
//! nanodegrees (10⁻⁹ degrees).

use vstd::prelude::*;

verus! {

/// A position: longitude (x) and latitude (y) in nanodegrees.
#[derive(Debug, Clone, Copy, PartialEq, Eq)]
pub struct Point {
    pub nano_lon: i64,
    pub nano_lat: i64,
}

/// The geometry of an element.
#[derive(Debug, Clone, Copy, PartialEq, Eq)]
pub enum Geometry {
    Point(Point),
}

} // verus!
