//! Input geometry model: points, linestrings, polygons and their multi-part
//! variants, together with structural validity, dimension and boundary
//! dimension.
//!
//! A geometry is rejected (`InvalidGeometry`) before graph construction
//! unless it is structurally sound: coordinates on the admitted grid, no
//! repeated adjacent coordinates, rings closed with at least four
//! coordinates, multi-parts non-empty.

use vstd::prelude::*;
use crate::coord::{Coord, in_bounds, all_in_bounds, MAX_COORD};

verus! {

/// A polygon: one outer shell ring and zero or more hole rings.
#[derive(Clone, Debug)]
pub struct Polygon {
    pub shell: Vec<Coord>,
    pub holes: Vec<Vec<Coord>>,
}

/// A planar vector geometry.
#[derive(Clone, Debug)]
pub enum Geometry {
    Point(Coord),
    MultiPoint(Vec<Coord>),
    LineString(Vec<Coord>),
    MultiLineString(Vec<Vec<Coord>>),
    Polygon(Polygon),
    MultiPolygon(Vec<Polygon>),
}

/// Mathematical model of a polygon: shell and hole coordinate sequences.
pub struct PolyModel {
    pub shell: Seq<Coord>,
    pub holes: Seq<Seq<Coord>>,
}

/// Mathematical model of a geometry: the same shape over `Seq`.
pub enum GeomModel {
    Pt(Coord),
    MPt(Seq<Coord>),
    Ls(Seq<Coord>),
    Mls(Seq<Seq<Coord>>),
    Poly(PolyModel),
    MPoly(Seq<PolyModel>),
}

/// Deep view of a sequence of coordinate vectors.
pub open spec fn seqs(v: Seq<Vec<Coord>>) -> Seq<Seq<Coord>> {
    v.map_values(|c: Vec<Coord>| c@)
}

/// Models of a sequence of polygons.
pub open spec fn poly_models(s: Seq<Polygon>) -> Seq<PolyModel>
    decreases s.len(),
{
    if s.len() == 0 {
        Seq::empty()
    } else {
        poly_models(s.drop_last()).push(poly_model(s.last()))
    }
}

/// `poly_models` maps `poly_model` over the sequence, index by index.
pub proof fn lemma_poly_models_index(s: Seq<Polygon>)
    ensures
        poly_models(s).len() == s.len(),
        forall|i: int| 0 <= i < s.len() ==> poly_models(s)[i] == poly_model(#[trigger] s[i]),
    decreases s.len(),
{
    if s.len() > 0 {
        lemma_poly_models_index(s.drop_last());
        assert forall|i: int| 0 <= i < s.len() implies
            poly_models(s)[i] == poly_model(s[i]) by {
            if i < s.len() - 1 {
                assert(s.drop_last()[i] == s[i]);
                assert(poly_models(s)[i] == poly_models(s.drop_last())[i]);
            } else {
                assert(s.last() == s[s.len() - 1]);
            }
        }
    }
}

/// Model of one polygon.
pub open spec fn poly_model(p: Polygon) -> PolyModel {
    PolyModel { shell: p.shell@, holes: seqs(p.holes@) }
}

/// Model of a geometry.
pub open spec fn model(g: Geometry) -> GeomModel {
    match g {
        Geometry::Point(c) => GeomModel::Pt(c),
        Geometry::MultiPoint(cs) => GeomModel::MPt(cs@),
        Geometry::LineString(l) => GeomModel::Ls(l@),
        Geometry::MultiLineString(ls) => GeomModel::Mls(seqs(ls@)),
        Geometry::Polygon(p) => GeomModel::Poly(poly_model(p)),
        Geometry::MultiPolygon(ps) => GeomModel::MPoly(poly_models(ps@)),
    }
}

/// A structurally sound open or closed line: at least two coordinates, all
/// on the grid, no repeated adjacent coordinate.
pub open spec fn valid_line(s: Seq<Coord>) -> bool {
    s.len() >= 2 && all_in_bounds(s)
        && forall|i: int| 0 <= i < s.len() - 1 ==> #[trigger] s[i] != s[i + 1]
}

/// A structurally sound ring: closed, at least four coordinates (first ==
/// last), all on the grid, no repeated adjacent coordinate.
pub open spec fn valid_ring(s: Seq<Coord>) -> bool {
    s.len() >= 4 && all_in_bounds(s) && s[0] == s[s.len() - 1]
        && forall|i: int| 0 <= i < s.len() - 1 ==> #[trigger] s[i] != s[i + 1]
}

/// A structurally sound polygon.
pub open spec fn valid_polygon(p: Polygon) -> bool {
    valid_ring(p.shell@)
        && forall|i: int| 0 <= i < p.holes@.len() ==> valid_ring(#[trigger] p.holes@[i]@)
}

/// A structurally sound geometry: the engine builds a graph only for these.
pub open spec fn valid_geom(g: Geometry) -> bool {
    match g {
        Geometry::Point(c) => in_bounds(c),
        Geometry::MultiPoint(cs) => cs@.len() >= 1 && all_in_bounds(cs@),
        Geometry::LineString(l) => valid_line(l@),
        Geometry::MultiLineString(ls) => ls@.len() >= 1
            && forall|i: int| 0 <= i < ls@.len() ==> valid_line(#[trigger] ls@[i]@),
        Geometry::Polygon(p) => valid_polygon(p),
        Geometry::MultiPolygon(ps) => ps@.len() >= 1
            && forall|i: int| 0 <= i < ps@.len() ==> valid_polygon(#[trigger] ps@[i]),
    }
}

/// A structurally sound polygon model.
pub open spec fn valid_poly_m(p: PolyModel) -> bool {
    valid_ring(p.shell)
        && forall|i: int| 0 <= i < p.holes.len() ==> valid_ring(#[trigger] p.holes[i])
}

/// A structurally sound geometry model.
pub open spec fn valid_m(m: GeomModel) -> bool {
    match m {
        GeomModel::Pt(c) => in_bounds(c),
        GeomModel::MPt(cs) => cs.len() >= 1 && all_in_bounds(cs),
        GeomModel::Ls(l) => valid_line(l),
        GeomModel::Mls(ls) => ls.len() >= 1
            && forall|i: int| 0 <= i < ls.len() ==> valid_line(#[trigger] ls[i]),
        GeomModel::Poly(p) => valid_poly_m(p),
        GeomModel::MPoly(ps) => ps.len() >= 1
            && forall|i: int| 0 <= i < ps.len() ==> valid_poly_m(#[trigger] ps[i]),
    }
}

/// A polygon is structurally sound exactly when its model is.
pub proof fn lemma_valid_poly_model(p: Polygon)
    ensures
        valid_polygon(p) == valid_poly_m(poly_model(p)),
{
    if valid_polygon(p) {
        assert forall|i: int| 0 <= i < poly_model(p).holes.len() implies
            valid_ring(#[trigger] poly_model(p).holes[i]) by {
            assert(seqs(p.holes@)[i] == p.holes@[i]@);
        }
    }
    if valid_poly_m(poly_model(p)) {
        assert forall|i: int| 0 <= i < p.holes@.len() implies
            valid_ring(#[trigger] p.holes@[i]@) by {
            assert(poly_model(p).holes == seqs(p.holes@));
            assert(poly_model(p).holes[i] == p.holes@[i]@);
            assert(valid_ring(poly_model(p).holes[i]));
        }
    }
}

/// A geometry is structurally sound exactly when its model is.
pub proof fn lemma_valid_model(g: Geometry)
    ensures
        valid_geom(g) == valid_m(model(g)),
{
    match g {
        Geometry::MultiLineString(ls) => {
            if valid_geom(g) {
                assert forall|i: int| 0 <= i < seqs(ls@).len() implies
                    valid_line(#[trigger] seqs(ls@)[i]) by {
                    assert(seqs(ls@)[i] == ls@[i]@);
                }
            }
            if valid_m(model(g)) {
                assert forall|i: int| 0 <= i < ls@.len() implies
                    valid_line(#[trigger] ls@[i]@) by {
                    assert(seqs(ls@)[i] == ls@[i]@);
                    assert(valid_line(seqs(ls@)[i]));
                }
            }
        },
        Geometry::Polygon(p) => {
            lemma_valid_poly_model(p);
        },
        Geometry::MultiPolygon(ps) => {
            lemma_poly_models_index(ps@);
            if valid_geom(g) {
                assert forall|i: int| 0 <= i < poly_models(ps@).len() implies
                    valid_poly_m(#[trigger] poly_models(ps@)[i]) by {
                    lemma_valid_poly_model(ps@[i]);
                }
            }
            if valid_m(model(g)) {
                assert forall|i: int| 0 <= i < ps@.len() implies
                    valid_polygon(#[trigger] ps@[i]) by {
                    lemma_valid_poly_model(ps@[i]);
                    assert(poly_models(ps@)[i] == poly_model(ps@[i]));
                }
            }
        },
        _ => {},
    }
}

/// Topological dimension of a geometry model.
pub open spec fn dim_m(m: GeomModel) -> int {
    match m {
        GeomModel::Pt(_) => 0,
        GeomModel::MPt(_) => 0,
        GeomModel::Ls(_) => 1,
        GeomModel::Mls(_) => 1,
        GeomModel::Poly(_) => 2,
        GeomModel::MPoly(_) => 2,
    }
}

/// Dimension of the boundary of a geometry model: 1 for polygon rings, 0
/// for odd-degree line endpoints, -1 when the boundary is empty.
pub open spec fn bdim_m(m: GeomModel) -> int {
    match m {
        GeomModel::Pt(_) => -1,
        GeomModel::MPt(_) => -1,
        GeomModel::Ls(l) => if l.len() > 0 && l[0] == l[l.len() - 1] { -1 } else { 0 },
        GeomModel::Mls(ls) => if mls_has_boundary(ls) { 0 } else { -1 },
        GeomModel::Poly(_) => 1,
        GeomModel::MPoly(_) => 1,
    }
}

/// Topological dimension of a geometry: 0 for points, 1 for lines, 2 for
/// polygons.
pub open spec fn dim_of(g: Geometry) -> int {
    match g {
        Geometry::Point(_) => 0,
        Geometry::MultiPoint(_) => 0,
        Geometry::LineString(_) => 1,
        Geometry::MultiLineString(_) => 1,
        Geometry::Polygon(_) => 2,
        Geometry::MultiPolygon(_) => 2,
    }
}

/// Topological dimension of a geometry.
pub fn dimension(g: &Geometry) -> (d: i8)
    ensures
        d as int == dim_of(*g),
        d as int == dim_m(model(*g)),
{
    match g {
        Geometry::Point(_) => 0,
        Geometry::MultiPoint(_) => 0,
        Geometry::LineString(_) => 1,
        Geometry::MultiLineString(_) => 1,
        Geometry::Polygon(_) => 2,
        Geometry::MultiPolygon(_) => 2,
    }
}

/// How many of the endpoints of the first `k` line components equal `c`
/// (the mod-2 boundary rule counts every component endpoint).
pub open spec fn endpoint_count(ls: Seq<Seq<Coord>>, c: Coord, k: int) -> int
    decreases k,
{
    if k <= 0 {
        0
    } else {
        endpoint_count(ls, c, k - 1)
            + (if ls[k - 1].len() > 0 && ls[k - 1][0] == c { 1int } else { 0int })
            + (if ls[k - 1].len() > 0 && ls[k - 1][ls[k - 1].len() - 1] == c { 1int } else { 0int })
    }
}

/// The mod-2 boundary rule for a set of line components: a coordinate lies on
/// the boundary when it is an endpoint of an odd number of components.
pub open spec fn mls_has_boundary(ls: Seq<Seq<Coord>>) -> bool {
    exists|i: int, e: int| 0 <= i < ls.len() && 0 <= e <= 1 && ls[i].len() > 0
        && endpoint_count(ls, #[trigger] mls_endpoint(ls, i, e), ls.len() as int) % 2 == 1
}

/// Endpoint `e` (0 = first, 1 = last) of component `i`.
pub open spec fn mls_endpoint(ls: Seq<Seq<Coord>>, i: int, e: int) -> Coord {
    if e == 0 { ls[i][0] } else { ls[i][ls[i].len() - 1] }
}

/// Dimension of the boundary of a geometry: 1 for polygon rings, 0 for the
/// odd-degree endpoints of lines, -1 when the boundary is empty (points,
/// closed lines).
pub open spec fn boundary_dim_of(g: Geometry) -> int
    recommends valid_geom(g),
{
    match g {
        Geometry::Point(_) => -1,
        Geometry::MultiPoint(_) => -1,
        Geometry::LineString(l) => if l@.len() > 0 && l@[0] == l@[l@.len() - 1] { -1 } else { 0 },
        Geometry::MultiLineString(ls) => if mls_has_boundary(seqs(ls@)) { 0 } else { -1 },
        Geometry::Polygon(_) => 1,
        Geometry::MultiPolygon(_) => 1,
    }
}

/// Whether a coordinate lies on the admitted grid.
pub fn in_bounds_exec(c: Coord) -> (r: bool)
    ensures
        r == in_bounds(c),
{
    -MAX_COORD <= c.x && c.x <= MAX_COORD && -MAX_COORD <= c.y && c.y <= MAX_COORD
}

/// Whether every coordinate of `v` lies on the admitted grid.
pub fn check_bounds(v: &Vec<Coord>) -> (r: bool)
    ensures
        r == all_in_bounds(v@),
{
    let mut i: usize = 0;
    while i < v.len()
        invariant
            0 <= i <= v.len(),
            forall|j: int| 0 <= j < i ==> in_bounds(#[trigger] v@[j]),
        decreases v.len() - i,
    {
        if !in_bounds_exec(v[i]) {
            return false;
        }
        i += 1;
    }
    true
}

/// Whether no two adjacent coordinates of `v` are equal.
pub fn check_adjacent_distinct(v: &Vec<Coord>) -> (r: bool)
    ensures
        r == (forall|i: int| 0 <= i < v@.len() - 1 ==> #[trigger] v@[i] != v@[i + 1]),
{
    let mut i: usize = 0;
    if v.len() == 0 {
        return true;
    }
    while i < v.len() - 1
        invariant
            v.len() >= 1,
            0 <= i <= v.len() - 1,
            forall|j: int| 0 <= j < i ==> #[trigger] v@[j] != v@[j + 1],
        decreases v.len() - i,
    {
        if v[i].x == v[i + 1].x && v[i].y == v[i + 1].y {
            return false;
        }
        i += 1;
    }
    true
}

/// Whether `v` is a structurally sound line.
pub fn check_line(v: &Vec<Coord>) -> (r: bool)
    ensures
        r == valid_line(v@),
{
    v.len() >= 2 && check_bounds(v) && check_adjacent_distinct(v)
}

/// Whether `v` is a structurally sound ring.
pub fn check_ring(v: &Vec<Coord>) -> (r: bool)
    ensures
        r == valid_ring(v@),
{
    v.len() >= 4 && check_bounds(v) && v[0] == v[v.len() - 1] && check_adjacent_distinct(v)
}

/// Whether `p` is a structurally sound polygon.
pub fn check_polygon(p: &Polygon) -> (r: bool)
    ensures
        r == valid_polygon(*p),
{
    if !check_ring(&p.shell) {
        return false;
    }
    let mut i: usize = 0;
    while i < p.holes.len()
        invariant
            0 <= i <= p.holes.len(),
            valid_ring(p.shell@),
            forall|j: int| 0 <= j < i ==> valid_ring(#[trigger] p.holes@[j]@),
        decreases p.holes.len() - i,
    {
        if !check_ring(&p.holes[i]) {
            return false;
        }
        i += 1;
    }
    true
}

/// Whether the geometry is structurally sound: exactly the inputs the relate
/// engine accepts.
#[verifier::loop_isolation(false)]
pub fn validate(g: &Geometry) -> (r: bool)
    ensures
        r == valid_geom(*g),
{
    match g {
        Geometry::Point(c) => in_bounds_exec(*c),
        Geometry::MultiPoint(cs) => cs.len() >= 1 && check_bounds(cs),
        Geometry::LineString(l) => check_line(l),
        Geometry::MultiLineString(ls) => {
            if ls.len() < 1 {
                return false;
            }
            let mut i: usize = 0;
            while i < ls.len()
                invariant
                    0 <= i <= ls.len(),
                    forall|j: int| 0 <= j < i ==> valid_line(#[trigger] ls@[j]@),
                decreases ls.len() - i,
            {
                if !check_line(&ls[i]) {
                    assert(!valid_line(ls@[i as int]@));
                    return false;
                }
                i += 1;
            }
            true
        },
        Geometry::Polygon(p) => check_polygon(p),
        Geometry::MultiPolygon(ps) => {
            if ps.len() < 1 {
                return false;
            }
            let mut i: usize = 0;
            while i < ps.len()
                invariant
                    0 <= i <= ps.len(),
                    forall|j: int| 0 <= j < i ==> valid_polygon(#[trigger] ps@[j]),
                decreases ps.len() - i,
            {
                if !check_polygon(&ps[i]) {
                    assert(!valid_polygon(ps@[i as int]));
                    return false;
                }
                i += 1;
            }
            true
        },
    }
}

/// Whether two coordinate vectors hold the same sequence.
pub fn eq_coords(a: &Vec<Coord>, b: &Vec<Coord>) -> (r: bool)
    ensures
        r <==> a@ == b@,
{
    if a.len() != b.len() {
        assert(a@ != b@);
        return false;
    }
    let mut i: usize = 0;
    while i < a.len()
        invariant
            a@.len() == b@.len(),
            0 <= i <= a@.len(),
            forall|j: int| 0 <= j < i ==> a@[j] == b@[j],
        decreases a.len() - i,
    {
        if !(a[i].x == b[i].x && a[i].y == b[i].y) {
            assert(a@[i as int] != b@[i as int]);
            return false;
        }
        i += 1;
    }
    proof {
        assert(a@ =~= b@);
    }
    true
}

/// Whether two vectors of coordinate vectors hold the same sequences.
pub fn eq_coord_seqs(a: &Vec<Vec<Coord>>, b: &Vec<Vec<Coord>>) -> (r: bool)
    ensures
        r <==> seqs(a@) == seqs(b@),
{
    if a.len() != b.len() {
        assert(seqs(a@).len() != seqs(b@).len());
        return false;
    }
    let mut i: usize = 0;
    while i < a.len()
        invariant
            a@.len() == b@.len(),
            0 <= i <= a@.len(),
            forall|j: int| 0 <= j < i ==> seqs(a@)[j] == seqs(b@)[j],
        decreases a.len() - i,
    {
        if !eq_coords(&a[i], &b[i]) {
            assert(seqs(a@)[i as int] != seqs(b@)[i as int]);
            return false;
        }
        assert(seqs(a@)[i as int] == seqs(b@)[i as int]);
        i += 1;
    }
    proof {
        assert(seqs(a@) =~= seqs(b@));
    }
    true
}

/// Whether two polygons hold the same rings.
pub fn eq_polygon(a: &Polygon, b: &Polygon) -> (r: bool)
    ensures
        r <==> poly_model(*a) == poly_model(*b),
{
    let shell_eq = eq_coords(&a.shell, &b.shell);
    let holes_eq = eq_coord_seqs(&a.holes, &b.holes);
    shell_eq && holes_eq
}

/// Whether two geometries are structurally identical (same variant, same
/// coordinate sequences).
#[verifier::loop_isolation(false)]
pub fn geom_eq(a: &Geometry, b: &Geometry) -> (r: bool)
    ensures
        r <==> model(*a) == model(*b),
{
    match (a, b) {
        (Geometry::Point(c), Geometry::Point(d)) => c.x == d.x && c.y == d.y,
        (Geometry::MultiPoint(c), Geometry::MultiPoint(d)) => eq_coords(c, d),
        (Geometry::LineString(c), Geometry::LineString(d)) => eq_coords(c, d),
        (Geometry::MultiLineString(c), Geometry::MultiLineString(d)) => eq_coord_seqs(c, d),
        (Geometry::Polygon(p), Geometry::Polygon(q)) => eq_polygon(p, q),
        (Geometry::MultiPolygon(p), Geometry::MultiPolygon(q)) => {
            if p.len() != q.len() {
                proof {
                    lemma_poly_models_index(p@);
                    lemma_poly_models_index(q@);
                }
                assert(model(*a) != model(*b));
                return false;
            }
            let mut i: usize = 0;
            proof {
                lemma_poly_models_index(p@);
                lemma_poly_models_index(q@);
            }
            while i < p.len()
                invariant
                    p@.len() == q@.len(),
                    0 <= i <= p@.len(),
                    forall|j: int| 0 <= j < i ==> poly_model(#[trigger] p@[j]) == poly_model(q@[j]),
                decreases p.len() - i,
            {
                if !eq_polygon(&p[i], &q[i]) {
                    proof {
                        lemma_poly_models_index(p@);
                        lemma_poly_models_index(q@);
                        assert(poly_models(p@)[i as int] != poly_models(q@)[i as int]);
                    }
                    return false;
                }
                i += 1;
            }
            proof {
                lemma_poly_models_index(p@);
                lemma_poly_models_index(q@);
                assert forall|j: int| 0 <= j < poly_models(p@).len() implies
                    poly_models(p@)[j] == poly_models(q@)[j] by {
                    assert(poly_model(p@[j]) == poly_model(q@[j]));
                }
                assert(poly_models(p@) =~= poly_models(q@));
            }
            true
        },
        _ => {
            assert(model(*a) != model(*b));
            false
        },
    }
}

/// Whether `c` is an endpoint of an odd number of the line components.
#[verifier::loop_isolation(false)]
pub fn endpoint_parity_odd(ls: &Vec<Vec<Coord>>, c: Coord) -> (odd: bool)
    ensures
        odd == (endpoint_count(seqs(ls@), c, ls@.len() as int) % 2 == 1),
{
    let mut odd = false;
    let mut j: usize = 0;
    while j < ls.len()
        invariant
            0 <= j <= ls@.len(),
            odd == (endpoint_count(seqs(ls@), c, j as int) % 2 == 1),
        decreases ls.len() - j,
    {
        proof {
            assert(seqs(ls@)[j as int] == ls@[j as int]@);
        }
        if ls[j].len() > 0 {
            if ls[j][0].x == c.x && ls[j][0].y == c.y {
                odd = !odd;
            }
            if ls[j][ls[j].len() - 1].x == c.x && ls[j][ls[j].len() - 1].y == c.y {
                odd = !odd;
            }
        }
        j += 1;
    }
    odd
}

/// Dimension of the boundary of a valid geometry: 1 for polygons, 0 for a
/// line with odd-degree endpoints, -1 for an empty boundary.
#[verifier::loop_isolation(false)]
pub fn boundary_dimension(g: &Geometry) -> (d: i8)
    requires
        valid_geom(*g),
    ensures
        d as int == boundary_dim_of(*g),
        d as int == bdim_m(model(*g)),
{
    match g {
        Geometry::Point(_) => -1,
        Geometry::MultiPoint(_) => -1,
        Geometry::LineString(l) => {
            if l[0].x == l[l.len() - 1].x && l[0].y == l[l.len() - 1].y {
                -1
            } else {
                0
            }
        },
        Geometry::MultiLineString(ls) => {
            let mut i: usize = 0;
            while i < ls.len()
                invariant
                    0 <= i <= ls@.len(),
                    forall|j: int, e: int| 0 <= j < i && 0 <= e <= 1 ==>
                        endpoint_count(seqs(ls@), #[trigger] mls_endpoint(seqs(ls@), j, e),
                            seqs(ls@).len() as int) % 2 == 0,
                decreases ls.len() - i,
            {
                proof {
                    assert(seqs(ls@)[i as int] == ls@[i as int]@);
                }
                if endpoint_parity_odd(ls, ls[i][0]) {
                    proof {
                        assert(mls_endpoint(seqs(ls@), i as int, 0) == ls@[i as int]@[0]);
                        assert(mls_has_boundary(seqs(ls@)));
                    }
                    return 0;
                }
                if endpoint_parity_odd(ls, ls[i][ls[i].len() - 1]) {
                    proof {
                        assert(mls_endpoint(seqs(ls@), i as int, 1)
                            == ls@[i as int]@[ls@[i as int]@.len() - 1]);
                        assert(mls_has_boundary(seqs(ls@)));
                    }
                    return 0;
                }
                i += 1;
            }
            proof {
                assert(!mls_has_boundary(seqs(ls@)));
            }
            -1
        },
        Geometry::Polygon(_) => 1,
        Geometry::MultiPolygon(_) => 1,
    }
}

} // verus!
