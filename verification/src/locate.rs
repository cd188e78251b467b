//! Point location: the interior / boundary / exterior position of a query
//! point relative to a geometry.
//!
//! Queries are posed in doubled coordinates (every input coordinate scaled
//! by two), so the midpoint of any grid segment is itself representable and
//! can be located exactly. Polygon containment uses the odd-crossings rule
//! (ray-cast boundary counting) over every ring, which makes a point inside
//! a hole exterior again; line membership uses exact on-segment tests and
//! the mod-2 endpoint rule for line boundaries.

use vstd::prelude::*;
use crate::coord::{Coord, between, lemma_small_product};
use crate::geometry::{Geometry, Polygon, PolyModel, GeomModel, model, poly_models, lemma_poly_models_index, seqs, valid_geom, endpoint_count, mls_endpoint};

verus! {

/// Topological location of a point or graph element relative to one
/// geometry.
#[derive(Clone, Copy, PartialEq, Eq, Structural, Debug)]
pub enum Location {
    Interior,
    Boundary,
    Exterior,
}

/// Whether the doubled point `(px2, py2)` lies on the closed segment from
/// `a` to `b` (both taken doubled).
pub open spec fn on_segment2(px2: int, py2: int, a: Coord, b: Coord) -> bool {
    (2 * b.x - 2 * a.x) * (py2 - 2 * a.y) - (2 * b.y - 2 * a.y) * (px2 - 2 * a.x) == 0
        && between(px2, 2 * a.x, 2 * b.x) && between(py2, 2 * a.y, 2 * b.y)
}

/// Whether the doubled point lies on some segment of the ring or line `r`.
pub open spec fn on_path2(px2: int, py2: int, r: Seq<Coord>) -> bool {
    exists|i: int| 0 <= i < r.len() - 1 && on_segment2(px2, py2, #[trigger] r[i], r[i + 1])
}

/// Whether the horizontal ray from the doubled point toward +x crosses the
/// doubled segment `a`-`b` (half-open rule, so a shared ring vertex is
/// counted exactly once).
pub open spec fn ray_crosses(px2: int, py2: int, a: Coord, b: Coord) -> bool {
    let ax: int = 2 * a.x;
    let ay: int = 2 * a.y;
    let bx: int = 2 * b.x;
    let by: int = 2 * b.y;
    if (ay > py2) == (by > py2) {
        false
    } else {
        let lhs = (px2 - ax) * (by - ay);
        let rhs = (py2 - ay) * (bx - ax);
        if by > ay { lhs < rhs } else { lhs > rhs }
    }
}

/// Number of ray crossings against the first `k` segments of ring `r`.
pub open spec fn ray_crossing_count(px2: int, py2: int, r: Seq<Coord>, k: int) -> int
    decreases k,
{
    if k <= 0 {
        0
    } else {
        ray_crossing_count(px2, py2, r, k - 1)
            + if ray_crosses(px2, py2, r[k - 1], r[k]) { 1int } else { 0int }
    }
}

/// Odd-crossings parity of the ray against a whole ring.
pub open spec fn ring_parity_odd(px2: int, py2: int, r: Seq<Coord>) -> bool {
    ray_crossing_count(px2, py2, r, r.len() - 1) % 2 == 1
}

/// Combined parity over the shell and every hole of a polygon: odd exactly
/// when the point is enclosed by an odd number of rings, which makes a
/// point inside a hole exterior again.
pub open spec fn poly_parity_odd(px2: int, py2: int, shell: Seq<Coord>, holes: Seq<Seq<Coord>>, k: int) -> bool
    decreases k,
{
    if k <= 0 {
        ring_parity_odd(px2, py2, shell)
    } else {
        poly_parity_odd(px2, py2, shell, holes, k - 1) != ring_parity_odd(px2, py2, holes[k - 1])
    }
}

/// Whether the doubled point lies on some ring of the polygon.
pub open spec fn on_poly_boundary(px2: int, py2: int, shell: Seq<Coord>, holes: Seq<Seq<Coord>>) -> bool {
    on_path2(px2, py2, shell)
        || exists|i: int| 0 <= i < holes.len() && on_path2(px2, py2, #[trigger] holes[i])
}

/// Location of the doubled point relative to one polygon.
pub open spec fn locate_in_polygon(px2: int, py2: int, shell: Seq<Coord>, holes: Seq<Seq<Coord>>) -> Location {
    if on_poly_boundary(px2, py2, shell, holes) {
        Location::Boundary
    } else if poly_parity_odd(px2, py2, shell, holes, holes.len() as int) {
        Location::Interior
    } else {
        Location::Exterior
    }
}

/// Whether the doubled point is a boundary point of the line components
/// `ls`: an endpoint of an odd number of components.
pub open spec fn is_line_boundary(px2: int, py2: int, ls: Seq<Seq<Coord>>) -> bool {
    exists|i: int, e: int| 0 <= i < ls.len() && 0 <= e <= 1 && ls[i].len() > 0
        && 2 * (#[trigger] mls_endpoint(ls, i, e)).x == px2 && 2 * mls_endpoint(ls, i, e).y == py2
        && endpoint_count(ls, mls_endpoint(ls, i, e), ls.len() as int) % 2 == 1
}

/// Whether the doubled point lies on some segment of some line component.
pub open spec fn on_some_line(px2: int, py2: int, ls: Seq<Seq<Coord>>) -> bool {
    exists|i: int| 0 <= i < ls.len() && on_path2(px2, py2, #[trigger] ls[i])
}

/// Location of the doubled point relative to a set of line components.
pub open spec fn locate_in_lines(px2: int, py2: int, ls: Seq<Seq<Coord>>) -> Location {
    if is_line_boundary(px2, py2, ls) {
        Location::Boundary
    } else if on_some_line(px2, py2, ls) {
        Location::Interior
    } else {
        Location::Exterior
    }
}

/// Location of the doubled point relative to a set of point components:
/// a point geometry has an empty boundary.
pub open spec fn locate_in_points(px2: int, py2: int, pts: Seq<Coord>) -> Location {
    if exists|i: int| 0 <= i < pts.len() && 2 * (#[trigger] pts[i]).x == px2 && 2 * pts[i].y == py2 {
        Location::Interior
    } else {
        Location::Exterior
    }
}

/// Location of the doubled point relative to a whole geometry, given by
/// its model.
pub open spec fn locate_m(px2: int, py2: int, m: GeomModel) -> Location {
    match m {
        GeomModel::Pt(c) => locate_in_points(px2, py2, seq![c]),
        GeomModel::MPt(cs) => locate_in_points(px2, py2, cs),
        GeomModel::Ls(l) => locate_in_lines(px2, py2, seq![l]),
        GeomModel::Mls(ls) => locate_in_lines(px2, py2, ls),
        GeomModel::Poly(p) => locate_in_polygon(px2, py2, p.shell, p.holes),
        GeomModel::MPoly(ps) => locate_in_polys(px2, py2, ps, ps.len() as int),
    }
}

/// Location relative to the first `k` polygons of a multipolygon: boundary
/// wins over interior, interior over exterior.
pub open spec fn locate_in_polys(px2: int, py2: int, ps: Seq<PolyModel>, k: int) -> Location
    decreases k,
{
    if k <= 0 {
        Location::Exterior
    } else {
        let rest = locate_in_polys(px2, py2, ps, k - 1);
        let here = locate_in_polygon(px2, py2, ps[k - 1].shell, ps[k - 1].holes);
        if rest == Location::Boundary || here == Location::Boundary {
            Location::Boundary
        } else if rest == Location::Interior || here == Location::Interior {
            Location::Interior
        } else {
            Location::Exterior
        }
    }
}

/// Once one polygon of a multipolygon reports Boundary, the whole
/// multipolygon fold reports Boundary.
pub proof fn lemma_mp_boundary(px2: int, py2: int, ps: Seq<PolyModel>, i: int, k: int)
    requires
        0 <= i < k <= ps.len(),
        locate_in_polygon(px2, py2, ps[i].shell, ps[i].holes) == Location::Boundary,
    ensures
        locate_in_polys(px2, py2, ps, k) == Location::Boundary,
    decreases k,
{
    if k - 1 > i {
        lemma_mp_boundary(px2, py2, ps, i, k - 1);
    }
}

/// Doubled coordinates admitted to a locate query.
pub open spec fn q_in_bounds(px2: int, py2: int) -> bool {
    -4_000_000 <= px2 <= 4_000_000 && -4_000_000 <= py2 <= 4_000_000
}

/// Whether the doubled point lies on the closed doubled segment `a`-`b`.
pub fn on_segment2_exec(px2: i64, py2: i64, a: Coord, b: Coord) -> (r: bool)
    requires
        q_in_bounds(px2 as int, py2 as int),
        crate::coord::in_bounds(a),
        crate::coord::in_bounds(b),
    ensures
        r == on_segment2(px2 as int, py2 as int, a, b),
{
    let dx: i128 = 2 * b.x as i128 - 2 * a.x as i128;
    let dy: i128 = 2 * b.y as i128 - 2 * a.y as i128;
    let qx: i128 = px2 as i128 - 2 * a.x as i128;
    let qy: i128 = py2 as i128 - 2 * a.y as i128;
    proof {
        lemma_small_product(dx as int, qy as int);
        lemma_small_product(dy as int, qx as int);
    }
    dx * qy - dy * qx == 0
        && crate::coord::between_exec(px2, 2 * a.x, 2 * b.x)
        && crate::coord::between_exec(py2, 2 * a.y, 2 * b.y)
}

/// Whether the doubled point lies on some segment of the path `r`.
#[verifier::loop_isolation(false)]
fn on_path2_exec(px2: i64, py2: i64, r: &Vec<Coord>) -> (res: bool)
    requires
        q_in_bounds(px2 as int, py2 as int),
        crate::coord::all_in_bounds(r@),
    ensures
        res == on_path2(px2 as int, py2 as int, r@),
{
    if r.len() == 0 {
        return false;
    }
    let mut i: usize = 0;
    while i < r.len() - 1
        invariant
            0 <= i <= r@.len() - 1,
            forall|j: int| 0 <= j < i ==> !on_segment2(px2 as int, py2 as int, #[trigger] r@[j], r@[j + 1]),
        decreases r.len() - i,
    {
        if on_segment2_exec(px2, py2, r[i], r[i + 1]) {
            return true;
        }
        i += 1;
    }
    false
}

/// Whether the ray from the doubled point crosses the doubled segment.
fn ray_crosses_exec(px2: i64, py2: i64, a: Coord, b: Coord) -> (r: bool)
    requires
        q_in_bounds(px2 as int, py2 as int),
        crate::coord::in_bounds(a),
        crate::coord::in_bounds(b),
    ensures
        r == ray_crosses(px2 as int, py2 as int, a, b),
{
    let ax: i128 = 2 * a.x as i128;
    let ay: i128 = 2 * a.y as i128;
    let bx: i128 = 2 * b.x as i128;
    let by: i128 = 2 * b.y as i128;
    let p2: i128 = py2 as i128;
    if (ay > p2) == (by > p2) {
        false
    } else {
        proof {
            lemma_small_product(px2 as int - ax as int, by as int - ay as int);
            lemma_small_product(py2 as int - ay as int, bx as int - ax as int);
        }
        let lhs: i128 = (px2 as i128 - ax) * (by - ay);
        let rhs: i128 = (p2 - ay) * (bx - ax);
        if by > ay { lhs < rhs } else { lhs > rhs }
    }
}

/// Odd-crossings parity of the ray against a whole ring.
#[verifier::loop_isolation(false)]
fn ring_parity_exec(px2: i64, py2: i64, r: &Vec<Coord>) -> (odd: bool)
    requires
        q_in_bounds(px2 as int, py2 as int),
        crate::coord::all_in_bounds(r@),
    ensures
        odd == ring_parity_odd(px2 as int, py2 as int, r@),
{
    if r.len() == 0 {
        return false;
    }
    let mut odd = false;
    let mut i: usize = 0;
    while i < r.len() - 1
        invariant
            0 <= i <= r@.len() - 1,
            odd == (ray_crossing_count(px2 as int, py2 as int, r@, i as int) % 2 == 1),
        decreases r.len() - i,
    {
        if ray_crosses_exec(px2, py2, r[i], r[i + 1]) {
            odd = !odd;
        }
        i += 1;
    }
    odd
}

/// Location of the doubled point relative to one polygon.
#[verifier::loop_isolation(false)]
fn locate_polygon_exec(px2: i64, py2: i64, p: &Polygon) -> (r: Location)
    requires
        q_in_bounds(px2 as int, py2 as int),
        crate::geometry::valid_polygon(*p),
    ensures
        r == locate_in_polygon(px2 as int, py2 as int, p.shell@, seqs(p.holes@)),
{
    if on_path2_exec(px2, py2, &p.shell) {
        return Location::Boundary;
    }
    let mut i: usize = 0;
    while i < p.holes.len()
        invariant
            0 <= i <= p.holes@.len(),
            forall|j: int| 0 <= j < i ==> !on_path2(px2 as int, py2 as int, #[trigger] seqs(p.holes@)[j]),
        decreases p.holes.len() - i,
    {
        proof {
            assert(seqs(p.holes@)[i as int] == p.holes@[i as int]@);
        }
        if on_path2_exec(px2, py2, &p.holes[i]) {
            return Location::Boundary;
        }
        i += 1;
    }
    assert(!on_poly_boundary(px2 as int, py2 as int, p.shell@, seqs(p.holes@)));
    let mut odd = ring_parity_exec(px2, py2, &p.shell);
    let mut k: usize = 0;
    while k < p.holes.len()
        invariant
            0 <= k <= p.holes@.len(),
            odd == poly_parity_odd(px2 as int, py2 as int, p.shell@, seqs(p.holes@), k as int),
        decreases p.holes.len() - k,
    {
        proof {
            assert(seqs(p.holes@)[k as int] == p.holes@[k as int]@);
        }
        if ring_parity_exec(px2, py2, &p.holes[k]) {
            odd = !odd;
        }
        k += 1;
    }
    if odd {
        Location::Interior
    } else {
        Location::Exterior
    }
}

/// Location of the doubled point `(px2, py2)` relative to the geometry.
///
/// The query point is given in doubled coordinates so that segment
/// midpoints can be located exactly; a plain grid point `(x, y)` is queried
/// as `(2x, 2y)`.
#[verifier::loop_isolation(false)]
#[verifier::rlimit(80)]
pub fn locate(px2: i64, py2: i64, g: &Geometry) -> (r: Location)
    requires
        q_in_bounds(px2 as int, py2 as int),
        valid_geom(*g),
    ensures
        r == locate_m(px2 as int, py2 as int, model(*g)),
{
    match g {
        Geometry::Point(c) => {
            if 2 * c.x == px2 && 2 * c.y == py2 {
                assert(seq![*c][0] == *c);
                Location::Interior
            } else {
                assert(forall|i: int| 0 <= i < seq![*c].len() ==> #[trigger] seq![*c][i] == *c);
                Location::Exterior
            }
        },
        Geometry::MultiPoint(cs) => {
            let mut i: usize = 0;
            while i < cs.len()
                invariant
                    0 <= i <= cs@.len(),
                    forall|j: int| 0 <= j < i ==> !(2 * (#[trigger] cs@[j]).x == px2 && 2 * cs@[j].y == py2),
                decreases cs.len() - i,
            {
                if 2 * cs[i].x == px2 && 2 * cs[i].y == py2 {
                    return Location::Interior;
                }
                i += 1;
            }
            Location::Exterior
        },
        Geometry::LineString(l) => {
            let closed = l[0].x == l[l.len() - 1].x && l[0].y == l[l.len() - 1].y;
            proof {
                assert(seq![l@][0] == l@);
            }
            if !closed && ((2 * l[0].x == px2 && 2 * l[0].y == py2)
                || (2 * l[l.len() - 1].x == px2 && 2 * l[l.len() - 1].y == py2)) {
                proof {
                    reveal_with_fuel(endpoint_count, 3);
                    let ls = seq![l@];
                    let e: int = if 2 * l@[0].x == px2 && 2 * l@[0].y == py2 { 0 } else { 1 };
                    assert(l@[0] != l@[l@.len() - 1]);
                    assert(endpoint_count(ls, mls_endpoint(ls, 0, e), 1) == 1);
                }
                Location::Boundary
            } else {
                proof {
                    let ls = seq![l@];
                    assert forall|i: int, e: int| 0 <= i < ls.len() && 0 <= e <= 1 && ls[i].len() > 0
                        && 2 * (#[trigger] mls_endpoint(ls, i, e)).x == px2
                        && 2 * mls_endpoint(ls, i, e).y == py2
                        implies endpoint_count(ls, mls_endpoint(ls, i, e), ls.len() as int) % 2 != 1 by {
                        if closed {
                            reveal_with_fuel(endpoint_count, 3);
                            assert(l@[0] == l@[l@.len() - 1]);
                            assert(endpoint_count(ls, mls_endpoint(ls, i, e), 1) == 2);
                        }
                    }
                }
                if on_path2_exec(px2, py2, l) {
                    Location::Interior
                } else {
                    Location::Exterior
                }
            }
        },
        Geometry::MultiLineString(ls) => {
            let mut i: usize = 0;
            while i < ls.len()
                invariant
                    0 <= i <= ls@.len(),
                    forall|j: int, e: int| 0 <= j < i && 0 <= e <= 1 ==>
                        !(2 * (#[trigger] mls_endpoint(seqs(ls@), j, e)).x == px2
                            && 2 * mls_endpoint(seqs(ls@), j, e).y == py2
                            && endpoint_count(seqs(ls@), mls_endpoint(seqs(ls@), j, e),
                                seqs(ls@).len() as int) % 2 == 1),
                decreases ls.len() - i,
            {
                proof {
                    assert(seqs(ls@)[i as int] == ls@[i as int]@);
                }
                let first = ls[i][0];
                let last = ls[i][ls[i].len() - 1];
                if 2 * first.x == px2 && 2 * first.y == py2 {
                    if crate::geometry::endpoint_parity_odd(ls, first) {
                        proof {
                            assert(crate::geometry::valid_line(ls@[i as int]@));
                            assert(seqs(ls@).len() == ls@.len());
                            assert(mls_endpoint(seqs(ls@), i as int, 0) == first);
                            assert(is_line_boundary(px2 as int, py2 as int, seqs(ls@)));
                        }
                        return Location::Boundary;
                    }
                }
                if 2 * last.x == px2 && 2 * last.y == py2 {
                    if crate::geometry::endpoint_parity_odd(ls, last) {
                        proof {
                            assert(crate::geometry::valid_line(ls@[i as int]@));
                            assert(seqs(ls@).len() == ls@.len());
                            assert(mls_endpoint(seqs(ls@), i as int, 1) == last);
                            assert(is_line_boundary(px2 as int, py2 as int, seqs(ls@)));
                        }
                        return Location::Boundary;
                    }
                }
                proof {
                    assert(mls_endpoint(seqs(ls@), i as int, 0) == ls@[i as int]@[0]);
                    assert(mls_endpoint(seqs(ls@), i as int, 1)
                        == ls@[i as int]@[ls@[i as int]@.len() - 1]);
                }
                i += 1;
            }
            assert(!is_line_boundary(px2 as int, py2 as int, seqs(ls@)));
            let mut k: usize = 0;
            while k < ls.len()
                invariant
                    0 <= k <= ls@.len(),
                    !is_line_boundary(px2 as int, py2 as int, seqs(ls@)),
                    forall|j: int| 0 <= j < k ==> !on_path2(px2 as int, py2 as int, #[trigger] seqs(ls@)[j]),
                decreases ls.len() - k,
            {
                proof {
                    assert(seqs(ls@)[k as int] == ls@[k as int]@);
                }
                if on_path2_exec(px2, py2, &ls[k]) {
                    return Location::Interior;
                }
                k += 1;
            }
            Location::Exterior
        },
        Geometry::Polygon(p) => locate_polygon_exec(px2, py2, p),
        Geometry::MultiPolygon(ps) => {
            proof {
                lemma_poly_models_index(ps@);
            }
            let mut i: usize = 0;
            let mut best = Location::Exterior;
            while i < ps.len()
                invariant
                    0 <= i <= ps@.len(),
                    best == locate_in_polys(px2 as int, py2 as int, poly_models(ps@), i as int),
                    best != Location::Boundary,
                decreases ps.len() - i,
            {
                let here = locate_polygon_exec(px2, py2, &ps[i]);
                proof {
                    assert(poly_models(ps@)[i as int] == crate::geometry::poly_model(ps@[i as int]));
                }
                if matches!(here, Location::Boundary) {
                    proof {
                        lemma_mp_boundary(px2 as int, py2 as int, poly_models(ps@), i as int,
                            poly_models(ps@).len() as int);
                    }
                    return Location::Boundary;
                }
                if matches!(here, Location::Interior) {
                    best = Location::Interior;
                }
                i += 1;
            }
            best
        },
    }
}

} // verus!
