//! Interface to the ellipsoidal geodesic oracle.
//!
//! The planar relate engine never consumes this: geodesic bearing and
//! distance are an opaque numeric facility that convenience layers build
//! on top of the same point types. The oracle works on an ellipsoidal
//! reference surface and is implemented outside the verified core; this
//! trait fixes only its shape and units, and promises nothing about the
//! numbers it returns.

use vstd::prelude::*;

verus! {

/// Bearing and distance along a geodesic on an ellipsoidal reference
/// surface, as an implementation-provided oracle.
///
/// `bearing` returns the forward azimuth toward `to` in microdegrees,
/// where north is 0 and east is 90_000_000; `bearing_distance` returns
/// the same azimuth together with the geodesic distance in millimeters.
pub trait GeodesicBearing {
    /// Forward azimuth toward `to`, in microdegrees (north 0, east
    /// 90_000_000).
    fn bearing(&self, to: &Self) -> i64;

    /// Forward azimuth toward `to` in microdegrees, and the geodesic
    /// distance to it in millimeters.
    fn bearing_distance(&self, to: &Self) -> (i64, i64);
}

} // verus!
