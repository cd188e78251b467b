//! Exact 2D coordinate and segment primitives.
//!
//! All geometry admitted into the engine lives on an integer grid bounded by
//! `MAX_COORD`, so every derived quantity (differences, cross products,
//! doubled midpoints) fits comfortably in `i128` arithmetic and every
//! predicate is exact: there is no rounding anywhere in orientation or
//! betweenness tests.

use vstd::prelude::*;

verus! {

/// Largest coordinate magnitude admitted into the engine.
pub const MAX_COORD: i64 = 1_000_000;

/// A 2D point on the integer grid.
#[derive(Clone, Copy, PartialEq, Eq, Structural, Debug)]
pub struct Coord {
    pub x: i64,
    pub y: i64,
}

/// Whether a coordinate lies within the admitted grid.
pub open spec fn in_bounds(c: Coord) -> bool {
    -MAX_COORD <= c.x <= MAX_COORD && -MAX_COORD <= c.y <= MAX_COORD
}

/// Whether every coordinate of the sequence lies within the admitted grid.
pub open spec fn all_in_bounds(s: Seq<Coord>) -> bool {
    forall|i: int| 0 <= i < s.len() ==> in_bounds(#[trigger] s[i])
}

/// Cross product of the vectors `a - o` and `b - o`: positive when `o,a,b`
/// turn counterclockwise, negative when clockwise, zero when collinear.
pub open spec fn cross(o: Coord, a: Coord, b: Coord) -> int {
    (a.x - o.x) * (b.y - o.y) - (a.y - o.y) * (b.x - o.x)
}

/// Whether `v` lies within the closed interval spanned by `a` and `b`.
pub open spec fn between(v: int, a: int, b: int) -> bool {
    (a <= v <= b) || (b <= v <= a)
}

/// Whether point `p` lies on the closed segment from `a` to `b`.
pub open spec fn on_segment(p: Coord, a: Coord, b: Coord) -> bool {
    cross(a, b, p) == 0 && between(p.x as int, a.x as int, b.x as int)
        && between(p.y as int, a.y as int, b.y as int)
}

/// Bound on the product of two moderately sized factors, small enough that
/// sums and differences of a few such products stay within `i128`.
pub proof fn lemma_small_product(a: int, b: int)
    requires
        -8_000_000 <= a <= 8_000_000,
        -8_000_000 <= b <= 8_000_000,
    ensures
        -64_000_000_000_000 <= a * b <= 64_000_000_000_000,
{
    assert(-64_000_000_000_000 <= a * b <= 64_000_000_000_000) by (nonlinear_arith)
        requires
            -8_000_000 <= a <= 8_000_000,
            -8_000_000 <= b <= 8_000_000,
    ;
}

/// Bound on the product of a cross-product-sized factor and a
/// coordinate-difference-sized factor.
pub proof fn lemma_med_product(a: int, b: int)
    requires
        -128_000_000_000_000 <= a <= 128_000_000_000_000,
        -8_000_000 <= b <= 8_000_000,
    ensures
        -1_024_000_000_000_000_000_000 <= a * b <= 1_024_000_000_000_000_000_000,
{
    assert(-1_024_000_000_000_000_000_000 <= a * b <= 1_024_000_000_000_000_000_000)
        by (nonlinear_arith)
        requires
            -128_000_000_000_000 <= a <= 128_000_000_000_000,
            -8_000_000 <= b <= 8_000_000,
    ;
}

/// Exact cross product of `a - o` and `b - o`.
pub fn cross_exec(o: Coord, a: Coord, b: Coord) -> (r: i128)
    requires
        in_bounds(o),
        in_bounds(a),
        in_bounds(b),
    ensures
        r == cross(o, a, b),
        -128_000_000_000_000 <= r <= 128_000_000_000_000,
{
    let ax: i128 = a.x as i128 - o.x as i128;
    let ay: i128 = a.y as i128 - o.y as i128;
    let bx: i128 = b.x as i128 - o.x as i128;
    let by: i128 = b.y as i128 - o.y as i128;
    proof {
        lemma_small_product(ax as int, by as int);
        lemma_small_product(ay as int, bx as int);
    }
    ax * by - ay * bx
}

/// Whether point `p` lies on the closed segment from `a` to `b`.
pub fn on_segment_exec(p: Coord, a: Coord, b: Coord) -> (r: bool)
    requires
        in_bounds(p),
        in_bounds(a),
        in_bounds(b),
    ensures
        r == on_segment(p, a, b),
{
    let c = cross_exec(a, b, p);
    c == 0 && between_exec(p.x, a.x, b.x) && between_exec(p.y, a.y, b.y)
}

/// Whether `v` lies within the closed interval spanned by `a` and `b`.
pub fn between_exec(v: i64, a: i64, b: i64) -> (r: bool)
    ensures
        r == between(v as int, a as int, b as int),
{
    (a <= v && v <= b) || (b <= v && v <= a)
}

} // verus!
