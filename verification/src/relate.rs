//! The relate driver: build both geometry graphs, intersect the edge
//! sets, node every edge, label every graph element against both inputs,
//! and fill the DE-9IM matrix.
//!
//! Every labeled element is a witness for one matrix cell: a node raises
//! its cell to dimension 0, a noded sub-edge raises the cell of its two
//! on-locations to 1, and the 2D neighborhoods to the left and right of a
//! sub-edge raise their cells to 2 (for a non-areal geometry a side
//! neighborhood lies in the exterior). The exterior/exterior cell is
//! always 2 for bounded geometries. The matrix invariant — swapping the
//! inputs transposes the matrix — holds by construction: the engine
//! evaluates both orientations and takes the cellwise maximum, and a
//! structurally identical pair short-circuits to its self-relationship
//! matrix.

use vstd::prelude::*;
use crate::coord::{Coord, in_bounds, lemma_small_product};
use crate::geometry::{
    Geometry, GeomModel, model, valid_geom, valid_m, lemma_valid_model, dim_m, bdim_m, dimension,
    boundary_dimension, geom_eq, validate,
};
use crate::locate::{Location, locate_m, locate, on_segment2, q_in_bounds};
use crate::edge::{
    Edge, IsectPt, wf_edges, chains, SegmentIntersector, EdgeSetIntersector,
    BruteForceEdgeSetIntersector, within_pts, cross_pts,
};
use crate::noder::{SubEdge, sort_dedup, sort_dedup_spec, split_chain, noded_spec};
use crate::graph::{
    build_edges, normalize_geom, chains_m, points_m, norm_m, lemma_chains_model, dedup_spec,
    collect_nodes, endpoints_of,
};
use crate::matrix::{
    IntersectionMatrix, empty_matrix, set_at_least, transpose_spec, combine_spec, equals_spec,
    lemma_transpose_involutive, lemma_transpose_combine,
};

verus! {

/// How a `relate` call fails.
#[derive(Clone, Copy, PartialEq, Eq, Structural, Debug)]
pub enum RelateError {
    /// Malformed input, rejected before graph construction.
    InvalidGeometry,
    /// An internal topology invariant failed; distinct from bad input.
    /// The verified pipeline never produces it: every graph element
    /// receives a definite location and noding never emits a
    /// zero-length sub-edge.
    TopologyInconsistency,
}

/// The location of a graph element relative to one geometry: its own
/// position and the two side neighborhoods.
#[derive(Clone, Copy, PartialEq, Eq, Structural, Debug)]
pub struct Label {
    pub on: Location,
    pub left: Location,
    pub right: Location,
}

/// First segment of ring `r` (among the first `j`) containing the
/// doubled point, if any.
pub open spec fn find_in_ring(px2: int, py2: int, r: Seq<Coord>, j: int) -> Option<(Coord, Coord)>
    decreases j,
{
    if j <= 0 {
        None
    } else {
        match find_in_ring(px2, py2, r, j - 1) {
            Some(s) => Some(s),
            None => if on_segment2(px2, py2, r[j - 1], r[j]) {
                Some((r[j - 1], r[j]))
            } else {
                None
            },
        }
    }
}

/// First boundary segment among the first `k` chains containing the
/// doubled point, if any.
pub open spec fn find_bseg(px2: int, py2: int, cs: Seq<Seq<Coord>>, k: int) -> Option<(Coord, Coord)>
    decreases k,
{
    if k <= 0 {
        None
    } else {
        match find_bseg(px2, py2, cs, k - 1) {
            Some(s) => Some(s),
            None => find_in_ring(px2, py2, cs[k - 1], cs[k - 1].len() - 1),
        }
    }
}

/// A first match stays the result of every longer scan.
proof fn lemma_find_in_ring_stable(px2: int, py2: int, r: Seq<Coord>, j: int, k: int)
    requires
        0 <= j <= k,
        find_in_ring(px2, py2, r, j) is Some,
    ensures
        find_in_ring(px2, py2, r, k) == find_in_ring(px2, py2, r, j),
    decreases k,
{
    if k > j {
        lemma_find_in_ring_stable(px2, py2, r, j, k - 1);
    }
}

/// A first match stays the result of every longer scan.
proof fn lemma_find_bseg_stable(px2: int, py2: int, cs: Seq<Seq<Coord>>, j: int, k: int)
    requires
        0 <= j <= k,
        find_bseg(px2, py2, cs, j) is Some,
    ensures
        find_bseg(px2, py2, cs, k) == find_bseg(px2, py2, cs, j),
    decreases k,
{
    if k > j {
        lemma_find_bseg_stable(px2, py2, cs, j, k - 1);
    }
}

/// Whether the geometry model is areal.
pub open spec fn polygonal(m: GeomModel) -> bool {
    m is Poly || m is MPoly
}

/// Direction agreement of segment `u`-`v` with segment `p`-`q`.
pub open spec fn dot_dir(u: Coord, v: Coord, p: Coord, q: Coord) -> int {
    (v.x - u.x) * (q.x - p.x) + (v.y - u.y) * (q.y - p.y)
}

/// The label of a noded sub-edge against one geometry: Boundary when its
/// midpoint lies on a boundary segment, with the sides read off the
/// normalized ring direction (interior left of every ring segment);
/// otherwise the midpoint's location on every position. A non-areal
/// geometry has exterior side neighborhoods.
pub open spec fn label_m(e: SubEdge, m: GeomModel) -> Label {
    let mx = e.p.x + e.q.x;
    let my = e.p.y + e.q.y;
    if polygonal(m) {
        match find_bseg(mx, my, chains_m(m), chains_m(m).len() as int) {
            Some(s) => {
                let same = dot_dir(s.0, s.1, e.p, e.q) > 0;
                Label {
                    on: Location::Boundary,
                    left: if same { Location::Interior } else { Location::Exterior },
                    right: if same { Location::Exterior } else { Location::Interior },
                }
            },
            None => {
                let l = locate_m(mx, my, m);
                Label { on: l, left: l, right: l }
            },
        }
    } else {
        Label {
            on: locate_m(mx, my, m),
            left: Location::Exterior,
            right: Location::Exterior,
        }
    }
}

/// Find the first boundary segment of the edge set containing the
/// doubled point.
#[verifier::loop_isolation(false)]
fn find_bseg_exec(px2: i64, py2: i64, ges: &Vec<Edge>) -> (r: Option<(Coord, Coord)>)
    requires
        q_in_bounds(px2 as int, py2 as int),
        wf_edges(ges@),
    ensures
        r == find_bseg(px2 as int, py2 as int, chains(ges@), ges@.len() as int),
        r matches Some(s) ==> in_bounds(s.0) && in_bounds(s.1),
{
    proof {
        crate::edge::lemma_chains_index(ges@);
    }
    let ghost cs = chains(ges@);
    let mut k: usize = 0;
    while k < ges.len()
        invariant
            0 <= k <= ges@.len(),
            find_bseg(px2 as int, py2 as int, cs, k as int) is None,
        decreases ges.len() - k,
    {
        let r = &ges[k].coords;
        let mut j: usize = 0;
        while j < r.len() - 1
            invariant
                0 <= k < ges@.len(),
                0 <= j <= r@.len() - 1,
                find_in_ring(px2 as int, py2 as int, r@, j as int) is None,
            decreases r.len() - j,
        {
            if crate::locate::on_segment2_exec(px2, py2, r[j], r[j + 1]) {
                proof {
                    lemma_find_in_ring_stable(px2 as int, py2 as int, r@, j + 1,
                        r@.len() - 1);
                    lemma_find_bseg_stable(px2 as int, py2 as int, cs, k + 1,
                        cs.len() as int);
                }
                return Some((r[j], r[j + 1]));
            }
            j += 1;
        }
        k += 1;
    }
    None
}

/// Direction agreement of two segments.
fn dot_dir_exec(u: Coord, v: Coord, p: Coord, q: Coord) -> (r: i128)
    requires
        in_bounds(u),
        in_bounds(v),
        in_bounds(p),
        in_bounds(q),
    ensures
        r == dot_dir(u, v, p, q),
{
    proof {
        lemma_small_product(v.x as int - u.x as int, q.x as int - p.x as int);
        lemma_small_product(v.y as int - u.y as int, q.y as int - p.y as int);
    }
    (v.x as i128 - u.x as i128) * (q.x as i128 - p.x as i128)
        + (v.y as i128 - u.y as i128) * (q.y as i128 - p.y as i128)
}

/// Label one noded sub-edge against one geometry (already normalized),
/// whose edge arena is `ges`.
#[verifier::loop_isolation(false)]
pub fn label_sub_edge(e: SubEdge, g: &Geometry, ges: &Vec<Edge>) -> (r: Label)
    requires
        valid_geom(*g),
        in_bounds(e.p),
        in_bounds(e.q),
        wf_edges(ges@),
        chains(ges@) == chains_m(model(*g)),
    ensures
        r == label_m(e, model(*g)),
{
    proof {
        crate::edge::lemma_chains_index(ges@);
    }
    let mx = e.p.x + e.q.x;
    let my = e.p.y + e.q.y;
    let is_areal = match g {
        Geometry::Polygon(_) => true,
        Geometry::MultiPolygon(_) => true,
        _ => false,
    };
    if is_areal {
        match find_bseg_exec(mx, my, ges) {
            Some((u, v)) => {
                let same = dot_dir_exec(u, v, e.p, e.q) > 0;
                Label {
                    on: Location::Boundary,
                    left: if same { Location::Interior } else { Location::Exterior },
                    right: if same { Location::Exterior } else { Location::Interior },
                }
            },
            None => {
                let l = locate(mx, my, g);
                Label { on: l, left: l, right: l }
            },
        }
    } else {
        Label {
            on: locate(mx, my, g),
            left: Location::Exterior,
            right: Location::Exterior,
        }
    }
}

/// One sub-edge's contribution: its on-locations meet in at least a
/// line, each side neighborhood in at least an area. Elements off the
/// admitted grid cannot arise from grid inputs and contribute nothing.
pub open spec fn edge_update(m: IntersectionMatrix, e: SubEdge, ma: GeomModel, mb: GeomModel) -> IntersectionMatrix {
    if in_bounds(e.p) && in_bounds(e.q) {
        let la = label_m(e, ma);
        let lb = label_m(e, mb);
        set_at_least(
            set_at_least(set_at_least(m, la.on, lb.on, 1), la.left, lb.left, 2),
            la.right,
            lb.right,
            2,
        )
    } else {
        m
    }
}

/// Matrix after the contributions of the first `k` sub-edges.
pub open spec fn fill_edges_m(m: IntersectionMatrix, subs: Seq<SubEdge>, ma: GeomModel, mb: GeomModel, k: int) -> IntersectionMatrix
    decreases k,
{
    if k <= 0 {
        m
    } else {
        edge_update(fill_edges_m(m, subs, ma, mb, k - 1), subs[k - 1], ma, mb)
    }
}

/// One node's contribution: its two locations meet in at least a point.
pub open spec fn node_update(m: IntersectionMatrix, c: Coord, ma: GeomModel, mb: GeomModel) -> IntersectionMatrix {
    if in_bounds(c) {
        set_at_least(m, locate_m(2 * c.x, 2 * c.y, ma), locate_m(2 * c.x, 2 * c.y, mb), 0)
    } else {
        m
    }
}

/// Matrix after the contributions of the first `k` nodes.
pub open spec fn fill_nodes_m(m: IntersectionMatrix, nodes: Seq<Coord>, ma: GeomModel, mb: GeomModel, k: int) -> IntersectionMatrix
    decreases k,
{
    if k <= 0 {
        m
    } else {
        node_update(fill_nodes_m(m, nodes, ma, mb, k - 1), nodes[k - 1], ma, mb)
    }
}

/// The recorded, sorted, deduplicated intersection points of chain `k`
/// of set `cs` after the within-set and cross phases.
pub open spec fn phase_pts(cs: Seq<Seq<Coord>>, other: Seq<Seq<Coord>>, check_self: bool, k: int) -> Seq<IsectPt> {
    let raw = within_pts(cs, check_self, k, cs.len() as int)
        + cross_pts(cs[k], other, other.len() as int);
    sort_dedup_spec(raw, raw.len() as int)
}

/// The noded sub-edges of the first `k` chains of one set.
pub open spec fn noded_all(cs: Seq<Seq<Coord>>, other: Seq<Seq<Coord>>, check_self: bool, k: int) -> Seq<SubEdge>
    decreases k,
{
    if k <= 0 {
        Seq::empty()
    } else {
        noded_all(cs, other, check_self, k - 1)
            + noded_spec(cs[k - 1], phase_pts(cs, other, check_self, k - 1), cs[k - 1].len() - 1)
    }
}

/// The matrix the pipeline computes for one ordered pair of normalized
/// geometry models.
pub open spec fn core_m(ma: GeomModel, mb: GeomModel) -> IntersectionMatrix {
    let csa = chains_m(ma);
    let csb = chains_m(mb);
    let subs = noded_all(csa, csb, dim_m(ma) == 1, csa.len() as int)
        + noded_all(csb, csa, dim_m(mb) == 1, csb.len() as int);
    let all_pts = endpoints_of(subs) + (points_m(ma) + points_m(mb));
    let nodes = dedup_spec(all_pts, all_pts.len() as int);
    let m0 = set_at_least(empty_matrix(), Location::Exterior, Location::Exterior, 2);
    fill_nodes_m(
        fill_edges_m(m0, subs, ma, mb, subs.len() as int),
        nodes,
        ma,
        mb,
        nodes.len() as int,
    )
}

/// Copy a coordinate vector.
#[verifier::loop_isolation(false)]
fn copy_coords(v: &Vec<Coord>) -> (r: Vec<Coord>)
    ensures
        r@ == v@,
{
    let mut r: Vec<Coord> = Vec::new();
    let mut i: usize = 0;
    while i < v.len()
        invariant
            0 <= i <= v@.len(),
            r@ == v@.take(i as int),
        decreases v.len() - i,
    {
        r.push(v[i]);
        i += 1;
    }
    proof {
        assert(v@.take(v@.len() as int) =~= v@);
    }
    r
}

/// Concatenate two recorded point lists.
#[verifier::loop_isolation(false)]
fn concat_pts(a: &Vec<IsectPt>, b: &Vec<IsectPt>) -> (r: Vec<IsectPt>)
    ensures
        r@ == a@ + b@,
{
    let mut r: Vec<IsectPt> = Vec::new();
    let mut i: usize = 0;
    while i < a.len()
        invariant
            0 <= i <= a@.len(),
            r@ == a@.take(i as int),
        decreases a.len() - i,
    {
        r.push(a[i]);
        i += 1;
    }
    let mut j: usize = 0;
    while j < b.len()
        invariant
            0 <= j <= b@.len(),
            r@ == a@.take(a@.len() as int) + b@.take(j as int),
        decreases b.len() - j,
    {
        r.push(b[j]);
        proof {
            assert(r@ =~= a@.take(a@.len() as int) + b@.take(j + 1));
        }
        j += 1;
    }
    proof {
        assert(a@.take(a@.len() as int) =~= a@);
        assert(b@.take(b@.len() as int) =~= b@);
        assert(r@ =~= a@ + b@);
    }
    r
}

/// Concatenate two coordinate lists.
#[verifier::loop_isolation(false)]
fn concat_coords(a: &Vec<Coord>, b: &Vec<Coord>) -> (r: Vec<Coord>)
    ensures
        r@ == a@ + b@,
{
    let mut r: Vec<Coord> = Vec::new();
    let mut i: usize = 0;
    while i < a.len()
        invariant
            0 <= i <= a@.len(),
            r@ == a@.take(i as int),
        decreases a.len() - i,
    {
        r.push(a[i]);
        i += 1;
    }
    let mut j: usize = 0;
    while j < b.len()
        invariant
            0 <= j <= b@.len(),
            r@ == a@.take(a@.len() as int) + b@.take(j as int),
        decreases b.len() - j,
    {
        r.push(b[j]);
        proof {
            assert(r@ =~= a@.take(a@.len() as int) + b@.take(j + 1));
        }
        j += 1;
    }
    proof {
        assert(r@ =~= a@ + b@) by {
            assert(a@.take(a@.len() as int) =~= a@);
            assert(b@.take(b@.len() as int) =~= b@);
        }
    }
    r
}

/// The isolated node coordinates of a geometry.
#[verifier::loop_isolation(false)]
fn isolated_points(g: &Geometry) -> (r: Vec<Coord>)
    ensures
        r@ == points_m(model(*g)),
{
    match g {
        Geometry::Point(c) => {
            let mut r: Vec<Coord> = Vec::new();
            r.push(*c);
            proof {
                assert(r@ =~= seq![*c]);
            }
            r
        },
        Geometry::MultiPoint(cs) => copy_coords(cs),
        Geometry::LineString(_) => Vec::new(),
        Geometry::MultiLineString(_) => Vec::new(),
        Geometry::Polygon(_) => Vec::new(),
        Geometry::MultiPolygon(_) => Vec::new(),
    }
}

/// Node one edge set: intersect it with itself and with the other set,
/// sort and deduplicate each edge's recorded points, and split.
#[verifier::loop_isolation(false)]
fn node_set(
    es: &Vec<Edge>,
    other: &Vec<Edge>,
    check_self: bool,
    si: &mut SegmentIntersector,
    subs: &mut Vec<SubEdge>,
)
    requires
        wf_edges(es@),
        wf_edges(other@),
    ensures
        final(subs)@ == old(subs)@
            + noded_all(chains(es@), chains(other@), check_self, es@.len() as int),
{
    let esi = BruteForceEdgeSetIntersector;
    let w = esi.compute_intersections_within_set(es, check_self, si);
    let c = esi.compute_intersections_between_sets(es, other, si);
    let ghost base = subs@;
    let ghost cs = chains(es@);
    let ghost cso = chains(other@);
    proof {
        crate::edge::lemma_chains_index(es@);
        crate::edge::lemma_chains_index(other@);
    }
    let mut k: usize = 0;
    while k < es.len()
        invariant
            0 <= k <= es@.len(),
            subs@ == base + noded_all(cs, cso, check_self, k as int),
        decreases es.len() - k,
    {
        let raw = concat_pts(&w[k], &c[k]);
        let sorted = sort_dedup(&raw);
        let ne = Edge { coords: copy_coords(&es[k].coords), ints: sorted };
        proof {
            assert(w@[k as int]@ == within_pts(cs, check_self, k as int, es@.len() as int));
            assert(c@[k as int]@ == cross_pts(cs[k as int], cso, other@.len() as int));
            assert(raw@ == within_pts(cs, check_self, k as int, cs.len() as int)
                + cross_pts(cs[k as int], cso, cso.len() as int));
            assert(ne.ints@ == phase_pts(cs, cso, check_self, k as int));
        }
        split_chain(&ne.coords, &ne.ints, subs);
        proof {
            assert(subs@ =~= base + noded_all(cs, cso, check_self, k + 1));
        }
        k += 1;
    }
}

/// The matrix for one ordered pair of normalized, validated geometries.
#[verifier::loop_isolation(false)]
#[verifier::rlimit(100)]
pub fn relate_core(ga: &Geometry, gb: &Geometry) -> (m: IntersectionMatrix)
    requires
        valid_geom(*ga),
        valid_geom(*gb),
    ensures
        m == core_m(model(*ga), model(*gb)),
{
    let ghost ma = model(*ga);
    let ghost mb = model(*gb);
    let ea = build_edges(ga);
    let eb = build_edges(gb);
    proof {
        lemma_chains_model(*ga);
        lemma_chains_model(*gb);
    }
    let da = dimension(ga);
    let db = dimension(gb);
    let mut si = SegmentIntersector::new();
    let mut subs: Vec<SubEdge> = Vec::new();
    node_set(&ea, &eb, da == 1, &mut si, &mut subs);
    node_set(&eb, &ea, db == 1, &mut si, &mut subs);
    let pa = isolated_points(ga);
    let pb = isolated_points(gb);
    let pts_ab = concat_coords(&pa, &pb);
    let nodes = collect_nodes(&subs, &pts_ab);
    proof {
        crate::edge::lemma_chains_index(ea@);
        crate::edge::lemma_chains_index(eb@);
        assert(subs@ =~= noded_all(chains_m(ma), chains_m(mb), dim_m(ma) == 1,
                chains_m(ma).len() as int)
            + noded_all(chains_m(mb), chains_m(ma), dim_m(mb) == 1,
                chains_m(mb).len() as int));
        assert(pts_ab@ == points_m(ma) + points_m(mb));
    }
    let r = fill_matrix(&subs, &nodes, ga, gb, &ea, &eb);
    proof {
        assert(r == core_m(ma, mb));
    }
    r
}

/// Fill the matrix from the labeled sub-edges and nodes.
#[verifier::loop_isolation(false)]
#[verifier::rlimit(100)]
fn fill_matrix(
    subs: &Vec<SubEdge>,
    nodes: &Vec<Coord>,
    ga: &Geometry,
    gb: &Geometry,
    ea: &Vec<Edge>,
    eb: &Vec<Edge>,
) -> (m: IntersectionMatrix)
    requires
        valid_geom(*ga),
        valid_geom(*gb),
        wf_edges(ea@),
        wf_edges(eb@),
        chains(ea@) == chains_m(model(*ga)),
        chains(eb@) == chains_m(model(*gb)),
    ensures
        m == fill_nodes_m(
            fill_edges_m(
                set_at_least(empty_matrix(), Location::Exterior, Location::Exterior, 2),
                subs@, model(*ga), model(*gb), subs@.len() as int),
            nodes@, model(*ga), model(*gb), nodes@.len() as int),
{
    let ghost ma = model(*ga);
    let ghost mb = model(*gb);
    let mut m = IntersectionMatrix::new();
    m.raise(Location::Exterior, Location::Exterior, 2);
    let ghost m0 = set_at_least(empty_matrix(), Location::Exterior, Location::Exterior, 2);
    let mut i: usize = 0;
    while i < subs.len()
        invariant
            0 <= i <= subs@.len(),
            m == fill_edges_m(m0, subs@, ma, mb, i as int),
        decreases subs.len() - i,
    {
        let e = subs[i];
        if crate::geometry::in_bounds_exec(e.p) && crate::geometry::in_bounds_exec(e.q) {
            let la = label_sub_edge(e, ga, ea);
            let lb = label_sub_edge(e, gb, eb);
            m.raise(la.on, lb.on, 1);
            m.raise(la.left, lb.left, 2);
            m.raise(la.right, lb.right, 2);
        }
        i += 1;
    }
    let mut j: usize = 0;
    while j < nodes.len()
        invariant
            0 <= j <= nodes@.len(),
            m == fill_nodes_m(fill_edges_m(m0, subs@, ma, mb, subs@.len() as int),
                nodes@, ma, mb, j as int),
        decreases nodes.len() - j,
    {
        let c = nodes[j];
        if crate::geometry::in_bounds_exec(c) {
            let la = locate(2 * c.x, 2 * c.y, ga);
            let lb = locate(2 * c.x, 2 * c.y, gb);
            m.raise(la, lb, 0);
        }
        j += 1;
    }
    m
}

/// The self-relationship matrix of a geometry with the given dimension
/// and boundary dimension: interiors share the full dimension,
/// boundaries share the boundary dimension, exteriors always overlap.
pub open spec fn self_matrix_m(d: int, bd: int) -> IntersectionMatrix {
    IntersectionMatrix {
        ii: d as i8, ib: -1i8, ie: -1i8,
        bi: -1i8, bb: bd as i8, be: -1i8,
        ei: -1i8, eb: -1i8, ee: 2i8,
    }
}

/// The relationship of a geometry model pair: reject invalid input,
/// short-circuit a structurally identical pair, otherwise run the
/// pipeline in both orientations and take the cellwise maximum.
pub open spec fn relate_m(ma: GeomModel, mb: GeomModel) -> Result<IntersectionMatrix, RelateError> {
    if !valid_m(ma) || !valid_m(mb) {
        Err(RelateError::InvalidGeometry)
    } else if ma == mb {
        Ok(self_matrix_m(dim_m(ma), bdim_m(ma)))
    } else {
        Ok(combine_spec(
            core_m(norm_m(ma), norm_m(mb)),
            transpose_spec(core_m(norm_m(mb), norm_m(ma))),
        ))
    }
}

/// Compute the DE-9IM intersection matrix of two geometries.
///
/// Fails with `InvalidGeometry` exactly when one input is structurally
/// unsound; never fails otherwise, and never returns a partial matrix.
pub fn relate(a: &Geometry, b: &Geometry) -> (r: Result<IntersectionMatrix, RelateError>)
    ensures
        r == relate_m(model(*a), model(*b)),
        r is Ok <==> valid_geom(*a) && valid_geom(*b),
        r is Err ==> r == Result::<IntersectionMatrix, RelateError>::Err(RelateError::InvalidGeometry),
{
    proof {
        lemma_valid_model(*a);
        lemma_valid_model(*b);
    }
    if !validate(a) || !validate(b) {
        return Err(RelateError::InvalidGeometry);
    }
    if geom_eq(a, b) {
        let d = dimension(a);
        let bd = boundary_dimension(a);
        return Ok(IntersectionMatrix {
            ii: d, ib: -1, ie: -1,
            bi: -1, bb: bd, be: -1,
            ei: -1, eb: -1, ee: 2,
        });
    }
    let na = normalize_geom(a);
    let nb = normalize_geom(b);
    let m1 = relate_core(&na, &nb);
    let m2 = relate_core(&nb, &na);
    Ok(m1.combine(&m2.transpose()))
}

/// A label that places the element and both its side neighborhoods in
/// the exterior of a geometry.
pub open spec fn all_exterior(l: Label) -> bool {
    l.on == Location::Exterior && l.left == Location::Exterior && l.right == Location::Exterior
}

/// Sub-edges that lie in one geometry's exterior leave the four
/// disjointness cells (interior/boundary against interior/boundary)
/// untouched.
proof fn lemma_fill_edges_separated(m: IntersectionMatrix, subs: Seq<SubEdge>, ma: GeomModel, mb: GeomModel, k: int)
    requires
        crate::matrix::disjoint_spec(m),
        forall|i: int| 0 <= i < k ==> (all_exterior(label_m(#[trigger] subs[i], ma))
            || all_exterior(label_m(subs[i], mb))),
    ensures
        crate::matrix::disjoint_spec(fill_edges_m(m, subs, ma, mb, k)),
    decreases k,
{
    if k > 0 {
        lemma_fill_edges_separated(m, subs, ma, mb, k - 1);
    }
}

/// Nodes that lie in one geometry's exterior leave the disjointness
/// cells untouched.
proof fn lemma_fill_nodes_separated(m: IntersectionMatrix, nodes: Seq<Coord>, ma: GeomModel, mb: GeomModel, k: int)
    requires
        crate::matrix::disjoint_spec(m),
        forall|i: int| 0 <= i < k ==> (locate_m(2 * (#[trigger] nodes[i]).x, 2 * nodes[i].y, ma)
            == Location::Exterior
            || locate_m(2 * nodes[i].x, 2 * nodes[i].y, mb) == Location::Exterior),
    ensures
        crate::matrix::disjoint_spec(fill_nodes_m(m, nodes, ma, mb, k)),
    decreases k,
{
    if k > 0 {
        lemma_fill_nodes_separated(m, nodes, ma, mb, k - 1);
    }
}

/// Disjointness consistency, one direction: when every labeled graph
/// element — every noded sub-edge and every node — lies in at least one
/// geometry's exterior, no cell pairing the two interiors or boundaries
/// is ever raised, and the filled matrix reports the pair disjoint.
pub proof fn lemma_no_shared_witness_disjoint(subs: Seq<SubEdge>, nodes: Seq<Coord>, ma: GeomModel, mb: GeomModel)
    requires
        forall|i: int| 0 <= i < subs.len() ==> (all_exterior(label_m(#[trigger] subs[i], ma))
            || all_exterior(label_m(subs[i], mb))),
        forall|i: int| 0 <= i < nodes.len() ==> (locate_m(2 * (#[trigger] nodes[i]).x,
            2 * nodes[i].y, ma) == Location::Exterior
            || locate_m(2 * nodes[i].x, 2 * nodes[i].y, mb) == Location::Exterior),
    ensures
        crate::matrix::disjoint_spec(fill_nodes_m(
            fill_edges_m(
                set_at_least(empty_matrix(), Location::Exterior, Location::Exterior, 2),
                subs, ma, mb, subs.len() as int),
            nodes, ma, mb, nodes.len() as int)),
{
    let m0 = set_at_least(empty_matrix(), Location::Exterior, Location::Exterior, 2);
    lemma_fill_edges_separated(m0, subs, ma, mb, subs.len() as int);
    lemma_fill_nodes_separated(fill_edges_m(m0, subs, ma, mb, subs.len() as int),
        nodes, ma, mb, nodes.len() as int);
}

/// Disjointness consistency, the other direction: one node located in
/// both geometries' interiors or boundaries forces a non-disjoint
/// matrix.
pub proof fn lemma_shared_node_not_disjoint(subs: Seq<SubEdge>, nodes: Seq<Coord>, ma: GeomModel, mb: GeomModel, i: int)
    requires
        0 <= i < nodes.len(),
        in_bounds(nodes[i]),
        locate_m(2 * nodes[i].x, 2 * nodes[i].y, ma) != Location::Exterior,
        locate_m(2 * nodes[i].x, 2 * nodes[i].y, mb) != Location::Exterior,
    ensures
        !crate::matrix::disjoint_spec(fill_nodes_m(
            fill_edges_m(
                set_at_least(empty_matrix(), Location::Exterior, Location::Exterior, 2),
                subs, ma, mb, subs.len() as int),
            nodes, ma, mb, nodes.len() as int)),
{
    let m0 = set_at_least(empty_matrix(), Location::Exterior, Location::Exterior, 2);
    let me = fill_edges_m(m0, subs, ma, mb, subs.len() as int);
    let la = locate_m(2 * nodes[i].x, 2 * nodes[i].y, ma);
    let lb = locate_m(2 * nodes[i].x, 2 * nodes[i].y, mb);
    let upto = fill_nodes_m(me, nodes, ma, mb, i + 1);
    assert(upto == node_update(fill_nodes_m(me, nodes, ma, mb, i), nodes[i], ma, mb));
    assert(crate::matrix::cell(upto, la, lb) >= 0);
    lemma_fill_nodes_suffix(me, nodes, ma, mb, i + 1, nodes.len() as int, la, lb);
}

/// A cell already raised stays raised through the remaining nodes.
proof fn lemma_fill_nodes_suffix(m: IntersectionMatrix, nodes: Seq<Coord>, ma: GeomModel, mb: GeomModel, j: int, k: int, la: Location, lb: Location)
    requires
        0 <= j <= k <= nodes.len(),
        crate::matrix::cell(fill_nodes_m(m, nodes, ma, mb, j), la, lb) >= 0,
    ensures
        crate::matrix::cell(fill_nodes_m(m, nodes, ma, mb, k), la, lb) >= 0,
    decreases k,
{
    if k > j {
        lemma_fill_nodes_suffix(m, nodes, ma, mb, j, k - 1, la, lb);
    }
}

/// Symmetry: relating a pair in either order gives transposed matrices,
/// and the same error behavior.
pub proof fn lemma_relate_symmetric(ma: GeomModel, mb: GeomModel)
    ensures
        relate_m(ma, mb) is Err <==> relate_m(mb, ma) is Err,
        (relate_m(ma, mb) is Ok && relate_m(mb, ma) is Ok)
            ==> relate_m(ma, mb)->Ok_0 == transpose_spec(relate_m(mb, ma)->Ok_0),
{
    if valid_m(ma) && valid_m(mb) {
        if ma == mb {
            assert(transpose_spec(self_matrix_m(dim_m(ma), bdim_m(ma)))
                == self_matrix_m(dim_m(ma), bdim_m(ma)));
        } else {
            let c1 = core_m(norm_m(ma), norm_m(mb));
            let c2 = core_m(norm_m(mb), norm_m(ma));
            lemma_transpose_combine(c2, transpose_spec(c1));
            lemma_transpose_involutive(c1);
            assert(transpose_spec(combine_spec(c2, transpose_spec(c1)))
                == combine_spec(transpose_spec(c2), c1));
            assert(combine_spec(transpose_spec(c2), c1) == combine_spec(c1, transpose_spec(c2)))
                by {
                lemma_transpose_combine(c1, transpose_spec(c2));
            }
        }
    }
}

/// Reflexivity: a geometry related to itself yields its self-matrix,
/// which matches the topological-equality pattern.
pub proof fn lemma_relate_reflexive(ma: GeomModel)
    requires
        valid_m(ma),
    ensures
        relate_m(ma, ma) == Ok::<IntersectionMatrix, RelateError>(
            self_matrix_m(dim_m(ma), bdim_m(ma))),
        equals_spec(self_matrix_m(dim_m(ma), bdim_m(ma))),
{
    assert(0 <= dim_m(ma) <= 2);
}

} // verus!
