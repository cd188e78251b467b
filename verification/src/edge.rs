//! Edges, recorded intersection points, and the intersectors.
//!
//! An `Edge` is one directed boundary component (a ring, a line, or part of
//! one) held in an arena (`Vec<Edge>`) and addressed by index; every
//! component that records intersections does so through the arena, so there
//! is a single logical writer per phase and no aliasing. The
//! `SegmentIntersector` classifies one segment pair and records the
//! resulting points on the owning edge, tracking whether any proper
//! (non-endpoint) intersection was seen; the `EdgeSetIntersector` trait
//! enumerates the segment pairs to test, within one edge set or between
//! two, and a brute-force implementation realizes it.

use vstd::prelude::*;
use crate::coord::{Coord, in_bounds, lemma_small_product};
use crate::geometry::valid_line;
use crate::seg::{IntersectionResult, seg_isect, intersect_segments};

verus! {

/// An intersection point recorded on an edge: the owning segment index, the
/// squared distance from that segment's start (the sort key along the
/// edge), and the snapped coordinate.
#[derive(Clone, Copy, PartialEq, Eq, Structural, Debug)]
pub struct IsectPt {
    pub seg: usize,
    pub dist2: i64,
    pub coord: Coord,
}

/// One boundary component: an ordered coordinate chain and the intersection
/// points recorded on it.
#[derive(Clone, Debug)]
pub struct Edge {
    pub coords: Vec<Coord>,
    pub ints: Vec<IsectPt>,
}

/// A well-formed edge chain: at least two coordinates, on the grid, no
/// repeated adjacent coordinate.
pub open spec fn wf_edge(e: Edge) -> bool {
    valid_line(e.coords@)
}

/// The coordinate chains of an arena of edges.
pub open spec fn chains(es: Seq<Edge>) -> Seq<Seq<Coord>>
    decreases es.len(),
{
    if es.len() == 0 {
        Seq::empty()
    } else {
        chains(es.drop_last()).push(es.last().coords@)
    }
}

/// `chains` maps each edge to its coordinate chain, index by index.
pub proof fn lemma_chains_index(es: Seq<Edge>)
    ensures
        chains(es).len() == es.len(),
        forall|i: int| 0 <= i < es.len() ==> chains(es)[i] == (#[trigger] es[i]).coords@,
    decreases es.len(),
{
    if es.len() > 0 {
        lemma_chains_index(es.drop_last());
        assert forall|i: int| 0 <= i < es.len() implies chains(es)[i] == es[i].coords@ by {
            if i < es.len() - 1 {
                assert(es.drop_last()[i] == es[i]);
                assert(chains(es)[i] == chains(es.drop_last())[i]);
            } else {
                assert(es.last() == es[es.len() - 1]);
            }
        }
    }
}

/// Squared distance between two grid points.
pub open spec fn dist2(a: Coord, b: Coord) -> int {
    (b.x - a.x) * (b.x - a.x) + (b.y - a.y) * (b.y - a.y)
}

/// Squared distance between two grid points.
pub fn dist2_exec(a: Coord, b: Coord) -> (r: i64)
    requires
        in_bounds(a),
        in_bounds(b),
    ensures
        r as int == dist2(a, b),
{
    let dx: i64 = b.x - a.x;
    let dy: i64 = b.y - a.y;
    proof {
        lemma_small_product(dx as int, dx as int);
        lemma_small_product(dy as int, dy as int);
    }
    let rr: i128 = (dx as i128) * (dx as i128) + (dy as i128) * (dy as i128);
    rr as i64
}

/// The intersection points that the pair (segment `i` of chain `a`, segment
/// `j` of chain `b`) records on chain `a`'s edge.
pub open spec fn pair_pts(a: Seq<Coord>, i: int, b: Seq<Coord>, j: int) -> Seq<IsectPt> {
    match seg_isect(a[i], a[i + 1], b[j], b[j + 1]) {
        IntersectionResult::NoIntersection => Seq::empty(),
        IntersectionResult::PointIntersection { coord, .. } => seq![
            IsectPt { seg: i as usize, dist2: dist2(a[i], coord) as i64, coord },
        ],
        IntersectionResult::CollinearOverlap { first, second } => seq![
            IsectPt { seg: i as usize, dist2: dist2(a[i], first) as i64, coord: first },
            IsectPt { seg: i as usize, dist2: dist2(a[i], second) as i64, coord: second },
        ],
    }
}

/// Points recorded on chain `a` by testing segment `i` of `a` against the
/// first `jmax` segments of chain `b`.
pub open spec fn seg_vs_chain(a: Seq<Coord>, i: int, b: Seq<Coord>, jmax: int) -> Seq<IsectPt>
    decreases jmax,
{
    if jmax <= 0 {
        Seq::empty()
    } else {
        seg_vs_chain(a, i, b, jmax - 1) + pair_pts(a, i, b, jmax - 1)
    }
}

/// Points recorded on chain `a` by testing its first `imax` segments
/// against every segment of chain `b`.
pub open spec fn chain_vs_chain(a: Seq<Coord>, imax: int, b: Seq<Coord>) -> Seq<IsectPt>
    decreases imax,
{
    if imax <= 0 {
        Seq::empty()
    } else {
        chain_vs_chain(a, imax - 1, b) + seg_vs_chain(a, imax - 1, b, b.len() - 1)
    }
}

/// Whether segment `i` of chain `a` properly intersects one of the first
/// `jmax` segments of chain `b`.
pub open spec fn seg_proper_upto(a: Seq<Coord>, i: int, b: Seq<Coord>, jmax: int) -> bool
    decreases jmax,
{
    if jmax <= 0 {
        false
    } else {
        seg_proper_upto(a, i, b, jmax - 1)
            || seg_isect(a[i], a[i + 1], b[jmax - 1], b[jmax])
                matches IntersectionResult::PointIntersection { is_proper: true, .. }
    }
}

/// Whether one of the first `imax` segments of chain `a` properly
/// intersects some segment of chain `b`.
pub open spec fn chain_proper_upto(a: Seq<Coord>, imax: int, b: Seq<Coord>) -> bool
    decreases imax,
{
    if imax <= 0 {
        false
    } else {
        chain_proper_upto(a, imax - 1, b) || seg_proper_upto(a, imax - 1, b, b.len() - 1)
    }
}

/// Whether some tested pair between chains `a` and `b` intersects properly
/// (in a point that is no endpoint of either segment).
pub open spec fn chains_have_proper(a: Seq<Coord>, b: Seq<Coord>) -> bool {
    chain_proper_upto(a, a.len() - 1, b)
}

/// Accumulates intersection results: records the points a tested pair
/// produces on the owning edge and remembers whether any proper
/// intersection has been seen across the whole run.
pub struct SegmentIntersector {
    pub has_proper: bool,
}

impl SegmentIntersector {
    /// A fresh intersector that has seen no proper intersection.
    pub fn new() -> (r: SegmentIntersector)
        ensures
            r.has_proper == false,
    {
        SegmentIntersector { has_proper: false }
    }

    /// Test every segment of chain `a` against every segment of chain `b`
    /// and return the points recorded on `a`'s edge, in enumeration order.
    #[verifier::loop_isolation(false)]
    #[verifier::rlimit(100)]
    pub fn chain_intersections(&mut self, a: &Vec<Coord>, b: &Vec<Coord>) -> (pts: Vec<IsectPt>)
        requires
            valid_line(a@),
            valid_line(b@),
        ensures
            pts@ == chain_vs_chain(a@, a@.len() - 1, b@),
            final(self).has_proper == (old(self).has_proper || chains_have_proper(a@, b@)),
    {
        let mut pts: Vec<IsectPt> = Vec::new();
        let ghost base_proper = self.has_proper;
        let mut i: usize = 0;
        while i < a.len() - 1
            invariant
                0 <= i <= a@.len() - 1,
                pts@ == chain_vs_chain(a@, i as int, b@),
                self.has_proper == (base_proper || chain_proper_upto(a@, i as int, b@)),
            decreases a.len() - i,
        {
            let mut j: usize = 0;
            while j < b.len() - 1
                invariant
                    0 <= i < a@.len() - 1,
                    0 <= j <= b@.len() - 1,
                    pts@ == chain_vs_chain(a@, i as int, b@) + seg_vs_chain(a@, i as int, b@, j as int),
                    self.has_proper == (base_proper || chain_proper_upto(a@, i as int, b@)
                        || seg_proper_upto(a@, i as int, b@, j as int)),
                decreases b.len() - j,
            {
                let r = intersect_segments(a[i], a[i + 1], b[j], b[j + 1]);
                match r {
                    IntersectionResult::NoIntersection => {},
                    IntersectionResult::PointIntersection { coord, is_proper } => {
                        let d = dist2_exec(a[i], coord);
                        pts.push(IsectPt { seg: i, dist2: d, coord });
                        if is_proper {
                            self.has_proper = true;
                        }
                    },
                    IntersectionResult::CollinearOverlap { first, second } => {
                        let d1 = dist2_exec(a[i], first);
                        pts.push(IsectPt { seg: i, dist2: d1, coord: first });
                        let d2v = dist2_exec(a[i], second);
                        pts.push(IsectPt { seg: i, dist2: d2v, coord: second });
                    },
                }
                proof {
                    assert(seg_vs_chain(a@, i as int, b@, j + 1)
                        == seg_vs_chain(a@, i as int, b@, j as int) + pair_pts(a@, i as int, b@, j as int));
                }
                j += 1;
            }
            proof {
                assert(chain_vs_chain(a@, i + 1, b@)
                    == chain_vs_chain(a@, i as int, b@) + seg_vs_chain(a@, i as int, b@, b@.len() - 1));
            }
            i += 1;
        }
        pts
    }
}

/// Points recorded on chain `k` by the within-set phase against the first
/// `lmax` chains: every other chain in order, and the chain against itself
/// when `check_self` is set.
pub open spec fn within_pts(cs: Seq<Seq<Coord>>, check_self: bool, k: int, lmax: int) -> Seq<IsectPt>
    decreases lmax,
{
    if lmax <= 0 {
        Seq::empty()
    } else {
        within_pts(cs, check_self, k, lmax - 1)
            + if lmax - 1 == k && !check_self {
                Seq::empty()
            } else {
                chain_vs_chain(cs[k], cs[k].len() - 1, cs[lmax - 1])
            }
    }
}

/// Whether the within-set phase over chains `k < kmax` sees a proper
/// intersection.
pub open spec fn within_row_proper(cs: Seq<Seq<Coord>>, check_self: bool, k: int, lmax: int) -> bool
    decreases lmax,
{
    if lmax <= 0 {
        false
    } else {
        within_row_proper(cs, check_self, k, lmax - 1)
            || ((lmax - 1 != k || check_self) && chains_have_proper(cs[k], cs[lmax - 1]))
    }
}

/// Whether the whole within-set phase sees a proper intersection.
pub open spec fn within_proper(cs: Seq<Seq<Coord>>, check_self: bool, kmax: int) -> bool
    decreases kmax,
{
    if kmax <= 0 {
        false
    } else {
        within_proper(cs, check_self, kmax - 1)
            || within_row_proper(cs, check_self, kmax - 1, cs.len() as int)
    }
}

/// Points recorded on chain `c` by testing it against the first `lmax`
/// chains of the other set.
pub open spec fn cross_pts(c: Seq<Coord>, cbs: Seq<Seq<Coord>>, lmax: int) -> Seq<IsectPt>
    decreases lmax,
{
    if lmax <= 0 {
        Seq::empty()
    } else {
        cross_pts(c, cbs, lmax - 1) + chain_vs_chain(c, c.len() - 1, cbs[lmax - 1])
    }
}

/// Whether chain `c` properly intersects one of the first `lmax` chains of
/// the other set.
pub open spec fn cross_row_proper(c: Seq<Coord>, cbs: Seq<Seq<Coord>>, lmax: int) -> bool
    decreases lmax,
{
    if lmax <= 0 {
        false
    } else {
        cross_row_proper(c, cbs, lmax - 1) || chains_have_proper(c, cbs[lmax - 1])
    }
}

/// Whether the cross phase between the two sets sees a proper intersection.
pub open spec fn cross_proper(cs: Seq<Seq<Coord>>, cbs: Seq<Seq<Coord>>, kmax: int) -> bool
    decreases kmax,
{
    if kmax <= 0 {
        false
    } else {
        cross_proper(cs, cbs, kmax - 1)
            || cross_row_proper(cs[kmax - 1], cbs, cbs.len() as int)
    }
}

/// Every edge of the arena is well-formed.
pub open spec fn wf_edges(es: Seq<Edge>) -> bool {
    forall|i: int| 0 <= i < es.len() ==> wf_edge(#[trigger] es[i])
}

/// Enumerates the segment pairs whose intersections must be recorded:
/// within one edge set and between two. A spatially indexed strategy may
/// skip pairs it can prove disjoint but must record exactly the same
/// points as the brute-force strategy.
pub trait EdgeSetIntersector {
    /// Record, for every edge `k` of the set, the intersection points that
    /// testing it against every other edge (and against itself when
    /// `check_self` is set) produces on it, in enumeration order.
    fn compute_intersections_within_set(
        &self,
        edges: &Vec<Edge>,
        check_self: bool,
        si: &mut SegmentIntersector,
    ) -> (r: Vec<Vec<IsectPt>>)
        requires
            wf_edges(edges@),
        ensures
            r@.len() == edges@.len(),
            forall|k: int| 0 <= k < edges@.len() ==> (#[trigger] r@[k])@
                == within_pts(chains(edges@), check_self, k, edges@.len() as int),
            final(si).has_proper == (old(si).has_proper
                || within_proper(chains(edges@), check_self, edges@.len() as int)),
    ;

    /// Record, for every edge `k` of the first set, the intersection points
    /// that testing it against every edge of the second set produces on it,
    /// in enumeration order.
    fn compute_intersections_between_sets(
        &self,
        edges0: &Vec<Edge>,
        edges1: &Vec<Edge>,
        si: &mut SegmentIntersector,
    ) -> (r: Vec<Vec<IsectPt>>)
        requires
            wf_edges(edges0@),
            wf_edges(edges1@),
        ensures
            r@.len() == edges0@.len(),
            forall|k: int| 0 <= k < edges0@.len() ==> (#[trigger] r@[k])@
                == cross_pts(chains(edges0@)[k], chains(edges1@), edges1@.len() as int),
            final(si).has_proper == (old(si).has_proper
                || cross_proper(chains(edges0@), chains(edges1@), edges0@.len() as int)),
    ;
}

/// Tests every admissible segment pair with no pruning: the correctness
/// oracle the indexed strategy must match.
pub struct BruteForceEdgeSetIntersector;

impl EdgeSetIntersector for BruteForceEdgeSetIntersector {
    #[verifier::loop_isolation(false)]
    #[verifier::rlimit(60)]
    fn compute_intersections_within_set(
        &self,
        edges: &Vec<Edge>,
        check_self: bool,
        si: &mut SegmentIntersector,
    ) -> (r: Vec<Vec<IsectPt>>)
    {
        proof {
            lemma_chains_index(edges@);
        }
        let ghost cs = chains(edges@);
        let ghost base = si.has_proper;
        let mut r: Vec<Vec<IsectPt>> = Vec::new();
        let mut k: usize = 0;
        while k < edges.len()
            invariant
                0 <= k <= edges@.len(),
                r@.len() == k,
                forall|m: int| 0 <= m < k ==> (#[trigger] r@[m])@
                    == within_pts(cs, check_self, m, edges@.len() as int),
                si.has_proper == (base || within_proper(cs, check_self, k as int)),
            decreases edges.len() - k,
        {
            let mut acc: Vec<IsectPt> = Vec::new();
            let mut l: usize = 0;
            while l < edges.len()
                invariant
                    0 <= k < edges@.len(),
                    0 <= l <= edges@.len(),
                    acc@ == within_pts(cs, check_self, k as int, l as int),
                    si.has_proper == (base || within_proper(cs, check_self, k as int)
                        || within_row_proper(cs, check_self, k as int, l as int)),
                decreases edges.len() - l,
            {
                if l != k || check_self {
                    let mut pts = si.chain_intersections(&edges[k].coords, &edges[l].coords);
                    acc.append(&mut pts);
                }
                l += 1;
            }
            r.push(acc);
            k += 1;
        }
        r
    }

    #[verifier::loop_isolation(false)]
    #[verifier::rlimit(60)]
    fn compute_intersections_between_sets(
        &self,
        edges0: &Vec<Edge>,
        edges1: &Vec<Edge>,
        si: &mut SegmentIntersector,
    ) -> (r: Vec<Vec<IsectPt>>)
    {
        proof {
            lemma_chains_index(edges0@);
            lemma_chains_index(edges1@);
        }
        let ghost cs = chains(edges0@);
        let ghost cbs = chains(edges1@);
        let ghost base = si.has_proper;
        let mut r: Vec<Vec<IsectPt>> = Vec::new();
        let mut k: usize = 0;
        while k < edges0.len()
            invariant
                0 <= k <= edges0@.len(),
                r@.len() == k,
                forall|m: int| 0 <= m < k ==> (#[trigger] r@[m])@
                    == cross_pts(cs[m], cbs, edges1@.len() as int),
                si.has_proper == (base || cross_proper(cs, cbs, k as int)),
            decreases edges0.len() - k,
        {
            let mut acc: Vec<IsectPt> = Vec::new();
            let mut l: usize = 0;
            while l < edges1.len()
                invariant
                    0 <= k < edges0@.len(),
                    0 <= l <= edges1@.len(),
                    acc@ == cross_pts(cs[k as int], cbs, l as int),
                    si.has_proper == (base || cross_proper(cs, cbs, k as int)
                        || cross_row_proper(cs[k as int], cbs, l as int)),
                decreases edges1.len() - l,
            {
                let mut pts = si.chain_intersections(&edges0[k].coords, &edges1[l].coords);
                acc.append(&mut pts);
                l += 1;
            }
            r.push(acc);
            k += 1;
        }
        r
    }
}

} // verus!
