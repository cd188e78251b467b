//! Segment-segment intersection classification: none, single point (proper
//! or endpoint touch), or collinear overlap.
//!
//! All classification tests are exact integer arithmetic. A proper crossing
//! point generally has rational coordinates; it is snapped deterministically
//! to the nearest grid point (ties away from zero) and clamped into the
//! first segment's envelope, so results are reproducible and a computed
//! intersection that falls within half a grid unit of a segment endpoint
//! canonicalizes to that endpoint exactly. "Proper" means the resulting
//! point is not an endpoint of either input segment.

use vstd::prelude::*;
use crate::coord::{Coord, cross, cross_exec, on_segment, on_segment_exec, in_bounds, lemma_med_product};

verus! {

/// Outcome of intersecting two segments.
#[derive(Clone, Copy, PartialEq, Eq, Structural, Debug)]
pub enum IntersectionResult {
    /// The segments share no point.
    NoIntersection,
    /// The segments meet in a single (snapped) point; `is_proper` records
    /// whether that point is distinct from all four segment endpoints.
    PointIntersection { coord: Coord, is_proper: bool },
    /// The segments are collinear and share a whole sub-segment.
    CollinearOverlap { first: Coord, second: Coord },
}

/// Round-to-nearest division, ties away from zero; `den` must be positive.
pub open spec fn round_div(num: int, den: int) -> int
    recommends den > 0,
{
    if num >= 0 {
        (2 * num + den) / (2 * den)
    } else {
        -((2 * (-num) + den) / (2 * den))
    }
}

/// Clamp `v` into the closed interval spanned by `a` and `b`.
pub open spec fn clamp(v: int, a: int, b: int) -> int {
    let lo = if a <= b { a } else { b };
    let hi = if a <= b { b } else { a };
    if v < lo { lo } else if v > hi { hi } else { v }
}

/// The snapped crossing point of two properly crossing segments: the exact
/// rational intersection along segment `a`, rounded to the nearest grid
/// point and clamped into segment `a`'s envelope.
pub open spec fn crossing_point(a0: Coord, a1: Coord, b0: Coord, b1: Coord) -> Coord {
    let d1 = cross(b0, b1, a0);
    let d3 = cross(a0, a1, b0);
    let d4 = cross(a0, a1, b1);
    let den0 = d4 - d3;
    let den = if den0 < 0 { -den0 } else { den0 };
    let num_sign = if den0 < 0 { -d1 } else { d1 };
    let x = a0.x + round_div(num_sign * (a1.x - a0.x), den);
    let y = a0.y + round_div(num_sign * (a1.y - a0.y), den);
    Coord {
        x: clamp(x, a0.x as int, a1.x as int) as i64,
        y: clamp(y, a0.y as int, a1.y as int) as i64,
    }
}

/// The endpoint of segment `s0`,`s1` that is least along the dominant axis
/// (`use_x` picks the axis).
pub open spec fn low_endpoint(s0: Coord, s1: Coord, use_x: bool) -> Coord {
    if use_x {
        if s0.x <= s1.x { s0 } else { s1 }
    } else {
        if s0.y <= s1.y { s0 } else { s1 }
    }
}

/// The endpoint of segment `s0`,`s1` that is greatest along the dominant axis.
pub open spec fn high_endpoint(s0: Coord, s1: Coord, use_x: bool) -> Coord {
    if use_x {
        if s0.x <= s1.x { s1 } else { s0 }
    } else {
        if s0.y <= s1.y { s1 } else { s0 }
    }
}

/// Value of the dominant axis at `c`.
pub open spec fn axis_value(c: Coord, use_x: bool) -> int {
    if use_x { c.x as int } else { c.y as int }
}

/// Classification of the intersection of segments `a0`-`a1` and `b0`-`b1`,
/// mirrored exactly by `intersect_segments`.
pub open spec fn seg_isect(a0: Coord, a1: Coord, b0: Coord, b1: Coord) -> IntersectionResult {
    let d1 = cross(b0, b1, a0);
    let d2 = cross(b0, b1, a1);
    let d3 = cross(a0, a1, b0);
    let d4 = cross(a0, a1, b1);
    if d1 == 0 && d2 == 0 {
        // Same line: intersect the 1D intervals along the dominant axis.
        let use_x = a0.x != a1.x;
        let alo = low_endpoint(a0, a1, use_x);
        let ahi = high_endpoint(a0, a1, use_x);
        let blo = low_endpoint(b0, b1, use_x);
        let bhi = high_endpoint(b0, b1, use_x);
        let lo = if axis_value(blo, use_x) > axis_value(alo, use_x) { blo } else { alo };
        let hi = if axis_value(bhi, use_x) < axis_value(ahi, use_x) { bhi } else { ahi };
        if axis_value(lo, use_x) > axis_value(hi, use_x) {
            IntersectionResult::NoIntersection
        } else if axis_value(lo, use_x) == axis_value(hi, use_x) {
            IntersectionResult::PointIntersection { coord: lo, is_proper: false }
        } else {
            IntersectionResult::CollinearOverlap { first: lo, second: hi }
        }
    } else if d1 == 0 && on_segment(a0, b0, b1) {
        IntersectionResult::PointIntersection { coord: a0, is_proper: false }
    } else if d2 == 0 && on_segment(a1, b0, b1) {
        IntersectionResult::PointIntersection { coord: a1, is_proper: false }
    } else if d3 == 0 && on_segment(b0, a0, a1) {
        IntersectionResult::PointIntersection { coord: b0, is_proper: false }
    } else if d4 == 0 && on_segment(b1, a0, a1) {
        IntersectionResult::PointIntersection { coord: b1, is_proper: false }
    } else if ((d1 > 0 && d2 < 0) || (d1 < 0 && d2 > 0))
        && ((d3 > 0 && d4 < 0) || (d3 < 0 && d4 > 0)) {
        let c = crossing_point(a0, a1, b0, b1);
        IntersectionResult::PointIntersection {
            coord: c,
            is_proper: c != a0 && c != a1 && c != b0 && c != b1,
        }
    } else {
        IntersectionResult::NoIntersection
    }
}

/// Round-to-nearest division, ties away from zero.
fn round_div_exec(num: i128, den: i128) -> (r: i128)
    requires
        0 < den <= 0x1_0000_0000_0000_0000_0000,
        -0x1_0000_0000_0000_0000_0000 <= num <= 0x1_0000_0000_0000_0000_0000,
    ensures
        r == round_div(num as int, den as int),
{
    if num >= 0 {
        (2 * num + den) / (2 * den)
    } else {
        proof {
            vstd::arithmetic::div_mod::lemma_div_pos_is_pos(2 * (-num) + den, 2 * den);
        }
        -((2 * (-num) + den) / (2 * den))
    }
}

/// Clamp `v` into the closed interval spanned by `a` and `b`.
fn clamp_exec(v: i128, a: i64, b: i64) -> (r: i64)
    ensures
        r as int == clamp(v as int, a as int, b as int),
{
    let lo: i64 = if a <= b { a } else { b };
    let hi: i64 = if a <= b { b } else { a };
    if v < lo as i128 {
        lo
    } else if v > hi as i128 {
        hi
    } else {
        v as i64
    }
}

/// Classify the intersection of segments `a0`-`a1` and `b0`-`b1`.
///
/// The result is the exact mirror of `seg_isect`; a single-point result
/// always lies within segment `a`'s envelope and on the grid.
pub fn intersect_segments(a0: Coord, a1: Coord, b0: Coord, b1: Coord) -> (r: IntersectionResult)
    requires
        in_bounds(a0),
        in_bounds(a1),
        in_bounds(b0),
        in_bounds(b1),
    ensures
        r == seg_isect(a0, a1, b0, b1),
        r matches IntersectionResult::PointIntersection { coord, .. } ==> in_bounds(coord),
        r matches IntersectionResult::CollinearOverlap { first, second }
            ==> in_bounds(first) && in_bounds(second),
{
    let d1 = cross_exec(b0, b1, a0);
    let d2 = cross_exec(b0, b1, a1);
    let d3 = cross_exec(a0, a1, b0);
    let d4 = cross_exec(a0, a1, b1);
    if d1 == 0 && d2 == 0 {
        let use_x = a0.x != a1.x;
        let (alo, ahi) = if axis_le(a0, a1, use_x) { (a0, a1) } else { (a1, a0) };
        let (blo, bhi) = if axis_le(b0, b1, use_x) { (b0, b1) } else { (b1, b0) };
        let lo = if axis_gt(blo, alo, use_x) { blo } else { alo };
        let hi = if axis_lt(bhi, ahi, use_x) { bhi } else { ahi };
        proof {
            assert(alo == low_endpoint(a0, a1, use_x) && ahi == high_endpoint(a0, a1, use_x));
            assert(blo == low_endpoint(b0, b1, use_x) && bhi == high_endpoint(b0, b1, use_x));
        }
        if axis_gt(lo, hi, use_x) {
            IntersectionResult::NoIntersection
        } else if axis_eq(lo, hi, use_x) {
            IntersectionResult::PointIntersection { coord: lo, is_proper: false }
        } else {
            IntersectionResult::CollinearOverlap { first: lo, second: hi }
        }
    } else if d1 == 0 && on_segment_exec(a0, b0, b1) {
        IntersectionResult::PointIntersection { coord: a0, is_proper: false }
    } else if d2 == 0 && on_segment_exec(a1, b0, b1) {
        IntersectionResult::PointIntersection { coord: a1, is_proper: false }
    } else if d3 == 0 && on_segment_exec(b0, a0, a1) {
        IntersectionResult::PointIntersection { coord: b0, is_proper: false }
    } else if d4 == 0 && on_segment_exec(b1, a0, a1) {
        IntersectionResult::PointIntersection { coord: b1, is_proper: false }
    } else if ((d1 > 0 && d2 < 0) || (d1 < 0 && d2 > 0))
        && ((d3 > 0 && d4 < 0) || (d3 < 0 && d4 > 0)) {
        let den0 = d4 - d3;
        let (den, num) = if den0 < 0 { (-den0, -d1) } else { (den0, d1) };
        proof {
            lemma_med_product(num as int, a1.x - a0.x);
            lemma_med_product(num as int, a1.y - a0.y);
        }
        let xoff = round_div_exec(num * (a1.x as i128 - a0.x as i128), den);
        let yoff = round_div_exec(num * (a1.y as i128 - a0.y as i128), den);
        let cx = clamp_exec(a0.x as i128 + xoff, a0.x, a1.x);
        let cy = clamp_exec(a0.y as i128 + yoff, a0.y, a1.y);
        let c = Coord { x: cx, y: cy };
        proof {
            assert(c == crossing_point(a0, a1, b0, b1));
        }
        let proper = !(coord_eq(c, a0) || coord_eq(c, a1) || coord_eq(c, b0) || coord_eq(c, b1));
        IntersectionResult::PointIntersection { coord: c, is_proper: proper }
    } else {
        IntersectionResult::NoIntersection
    }
}

/// Whether two coordinates are the same grid point.
pub fn coord_eq(a: Coord, b: Coord) -> (r: bool)
    ensures
        r == (a == b),
{
    a.x == b.x && a.y == b.y
}

/// Axis comparison helpers over the dominant axis.
fn axis_le(a: Coord, b: Coord, use_x: bool) -> (r: bool)
    ensures
        r == (axis_value(a, use_x) <= axis_value(b, use_x)),
{
    if use_x { a.x <= b.x } else { a.y <= b.y }
}

fn axis_lt(a: Coord, b: Coord, use_x: bool) -> (r: bool)
    ensures
        r == (axis_value(a, use_x) < axis_value(b, use_x)),
{
    if use_x { a.x < b.x } else { a.y < b.y }
}

fn axis_gt(a: Coord, b: Coord, use_x: bool) -> (r: bool)
    ensures
        r == (axis_value(a, use_x) > axis_value(b, use_x)),
{
    if use_x { a.x > b.x } else { a.y > b.y }
}

fn axis_eq(a: Coord, b: Coord, use_x: bool) -> (r: bool)
    ensures
        r == (axis_value(a, use_x) == axis_value(b, use_x)),
{
    if use_x { a.x == b.x } else { a.y == b.y }
}

} // verus!
