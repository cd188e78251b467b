use geo_relate::coord::Coord;
use geo_relate::edge::{
    Edge, SegmentIntersector, EdgeSetIntersector, BruteForceEdgeSetIntersector,
};
use geo_relate::geodesic::GeodesicBearing;
use geo_relate::geometry::{Geometry, boundary_dimension};
use geo_relate::locate::{locate, Location};
use geo_relate::matrix::IntersectionMatrix;
use geo_relate::noder::{sort_dedup, split_chain, SubEdge};
use geo_relate::seg::{intersect_segments, IntersectionResult};

fn c(x: i64, y: i64) -> Coord {
    Coord { x, y }
}

#[test]
fn segment_intersection_proper_cross() {
    let r = intersect_segments(c(0, 0), c(4, 4), c(0, 4), c(4, 0));
    assert_eq!(
        r,
        IntersectionResult::PointIntersection { coord: c(2, 2), is_proper: true }
    );
}

#[test]
fn segment_intersection_endpoint_touch() {
    let r = intersect_segments(c(0, 0), c(4, 0), c(4, 0), c(4, 4));
    assert_eq!(
        r,
        IntersectionResult::PointIntersection { coord: c(4, 0), is_proper: false }
    );
}

#[test]
fn segment_intersection_collinear_overlap() {
    let r = intersect_segments(c(0, 0), c(4, 0), c(2, 0), c(6, 0));
    assert_eq!(
        r,
        IntersectionResult::CollinearOverlap { first: c(2, 0), second: c(4, 0) }
    );
}

#[test]
fn segment_intersection_none() {
    let r = intersect_segments(c(0, 0), c(4, 0), c(0, 1), c(4, 1));
    assert_eq!(r, IntersectionResult::NoIntersection);
    let r2 = intersect_segments(c(0, 0), c(1, 0), c(3, 0), c(5, 0));
    assert_eq!(r2, IntersectionResult::NoIntersection);
}

#[test]
fn segment_intersection_snaps_to_grid_endpoint() {
    // The exact crossing is at (1/2, 1/2); snapping (ties away from zero)
    // lands on (1, 1), which coincides with an endpoint, so the result is
    // canonicalized to that endpoint and is no longer proper.
    let r = intersect_segments(c(0, 0), c(1, 1), c(1, 0), c(0, 1));
    assert_eq!(
        r,
        IntersectionResult::PointIntersection { coord: c(1, 1), is_proper: false }
    );
}

#[test]
fn locate_in_square() {
    let g = Geometry::Polygon(geo_relate::geometry::Polygon {
        shell: vec![c(0, 0), c(4, 0), c(4, 4), c(0, 4), c(0, 0)],
        holes: vec![],
    });
    assert_eq!(locate(4, 4, &g), Location::Interior);
    assert_eq!(locate(0, 4, &g), Location::Boundary);
    assert_eq!(locate(5, 4, &g), Location::Interior);
    assert_eq!(locate(-2, 4, &g), Location::Exterior);
    assert_eq!(locate(9, 4, &g), Location::Exterior);
}

#[test]
fn locate_on_line_and_points() {
    let l = Geometry::LineString(vec![c(0, 0), c(4, 0)]);
    assert_eq!(locate(0, 0, &l), Location::Boundary);
    assert_eq!(locate(4, 0, &l), Location::Interior);
    assert_eq!(locate(3, 1, &l), Location::Exterior);
    let p = Geometry::MultiPoint(vec![c(1, 2), c(3, 4)]);
    assert_eq!(locate(2, 4, &p), Location::Interior);
    assert_eq!(locate(2, 5, &p), Location::Exterior);
}

#[test]
fn boundary_dimension_mod_two() {
    assert_eq!(boundary_dimension(&Geometry::LineString(vec![c(0, 0), c(4, 0)])), 0);
    let closed = Geometry::LineString(vec![c(0, 0), c(4, 0), c(4, 4), c(0, 0)]);
    assert_eq!(boundary_dimension(&closed), -1);
    // Two components sharing the endpoint (4, 0): the shared endpoint has
    // even degree, the two far endpoints odd degree.
    let shared = Geometry::MultiLineString(vec![
        vec![c(0, 0), c(4, 0)],
        vec![c(4, 0), c(8, 0)],
    ]);
    assert_eq!(boundary_dimension(&shared), 0);
    // A closed loop split into two components: every endpoint has even
    // degree, so the boundary is empty.
    let loop2 = Geometry::MultiLineString(vec![
        vec![c(0, 0), c(4, 0), c(4, 4)],
        vec![c(4, 4), c(0, 4), c(0, 0)],
    ]);
    assert_eq!(boundary_dimension(&loop2), -1);
}

#[test]
fn intersector_records_and_flags_proper() {
    let edges = vec![
        Edge { coords: vec![c(0, 0), c(4, 4)], ints: vec![] },
        Edge { coords: vec![c(0, 4), c(4, 0)], ints: vec![] },
    ];
    let mut si = SegmentIntersector::new();
    assert!(!si.has_proper);
    let esi = BruteForceEdgeSetIntersector;
    let rec = esi.compute_intersections_within_set(&edges, false, &mut si);
    assert!(si.has_proper);
    assert_eq!(rec.len(), 2);
    assert_eq!(rec[0].len(), 1);
    assert_eq!(rec[0][0].coord, c(2, 2));
    assert_eq!(rec[1][0].coord, c(2, 2));
}

#[test]
fn intersector_between_sets_touch_is_not_proper() {
    let ea = vec![Edge { coords: vec![c(0, 0), c(4, 0)], ints: vec![] }];
    let eb = vec![Edge { coords: vec![c(4, 0), c(4, 4)], ints: vec![] }];
    let mut si = SegmentIntersector::new();
    let esi = BruteForceEdgeSetIntersector;
    let rec = esi.compute_intersections_between_sets(&ea, &eb, &mut si);
    assert!(!si.has_proper);
    assert_eq!(rec[0].len(), 1);
    assert_eq!(rec[0][0].coord, c(4, 0));
}

#[test]
fn noder_splits_at_sorted_points() {
    // The square ring crossed by a vertical line at x = 2: the bottom and
    // top edges split at (2, 0) and (2, 4).
    let ring = vec![c(0, 0), c(4, 0), c(4, 4), c(0, 4), c(0, 0)];
    let line = vec![c(2, -1), c(2, 5)];
    let mut si = SegmentIntersector::new();
    let pts = si.chain_intersections(&ring, &line);
    let sorted = sort_dedup(&pts);
    let mut subs: Vec<SubEdge> = Vec::new();
    split_chain(&ring, &sorted, &mut subs);
    assert_eq!(subs.len(), 6);
    assert_eq!(subs[0], SubEdge { p: c(0, 0), q: c(2, 0) });
    assert_eq!(subs[1], SubEdge { p: c(2, 0), q: c(4, 0) });
    assert_eq!(subs[2], SubEdge { p: c(4, 0), q: c(4, 4) });
    assert_eq!(subs[3], SubEdge { p: c(4, 4), q: c(2, 4) });
    assert_eq!(subs[4], SubEdge { p: c(2, 4), q: c(0, 4) });
    assert_eq!(subs[5], SubEdge { p: c(0, 4), q: c(0, 0) });
}

#[test]
fn noding_is_idempotent_on_noded_edges() {
    // Node the square against the crossing line, then re-run the noder on
    // the resulting sub-edges: every recorded intersection now coincides
    // with a sub-edge endpoint, so no further splits appear.
    let ring = vec![c(0, 0), c(4, 0), c(4, 4), c(0, 4), c(0, 0)];
    let line = vec![c(2, -1), c(2, 5)];
    let mut si = SegmentIntersector::new();
    let ring_pts = sort_dedup(&si.chain_intersections(&ring, &line));
    let line_pts = sort_dedup(&si.chain_intersections(&line, &ring));
    let mut subs: Vec<SubEdge> = Vec::new();
    split_chain(&ring, &ring_pts, &mut subs);
    split_chain(&line, &line_pts, &mut subs);
    let chains: Vec<Vec<Coord>> = subs.iter().map(|s| vec![s.p, s.q]).collect();
    for i in 0..chains.len() {
        let mut all = Vec::new();
        for j in 0..chains.len() {
            if i != j {
                let mut si2 = SegmentIntersector::new();
                let mut pts = si2.chain_intersections(&chains[i], &chains[j]);
                all.append(&mut pts);
            }
        }
        let sorted = sort_dedup(&all);
        let mut renoded: Vec<SubEdge> = Vec::new();
        split_chain(&chains[i], &sorted, &mut renoded);
        assert_eq!(renoded, vec![SubEdge { p: chains[i][0], q: chains[i][1] }]);
    }
}

#[test]
fn pattern_matching_conventions() {
    let m = IntersectionMatrix {
        ii: 2, ib: 1, ie: 2,
        bi: 1, bb: 0, be: 1,
        ei: -1, eb: -1, ee: 2,
    };
    assert!(m.matches_pattern(&vec!['T', '1', '*', '*', '0', '*', 'F', 'F', '2']));
    assert!(!m.matches_pattern(&vec!['F', '*', '*', '*', '*', '*', '*', '*', '*']));
    assert!(!m.matches_pattern(&vec!['T', '2', '*', '*', '*', '*', '*', '*', '*']));
    assert_eq!(m.transpose().ib, 1);
    assert_eq!(m.transpose().ei, 2);
    let combined = m.combine(&m.transpose());
    assert_eq!(combined.ei, 2);
    assert_eq!(combined.ie, 2);
}

struct MicroPoint {
    azimuth_udeg: i64,
    distance_mm: i64,
}

impl GeodesicBearing for MicroPoint {
    fn bearing(&self, _to: &Self) -> i64 {
        self.azimuth_udeg
    }

    fn bearing_distance(&self, _to: &Self) -> (i64, i64) {
        (self.azimuth_udeg, self.distance_mm)
    }
}

#[test]
fn geodesic_oracle_interface_units() {
    let p = MicroPoint { azimuth_udeg: 45_000_000, distance_mm: 10_000_000 };
    let q = MicroPoint { azimuth_udeg: 0, distance_mm: 0 };
    assert_eq!(p.bearing(&q), 45_000_000);
    assert_eq!(p.bearing_distance(&q), (45_000_000, 10_000_000));
}

#[test]
fn self_crossing_line_is_noded_at_its_crossing() {
    // A non-simple linestring crossing itself at (2, 2): the self-noding
    // phase must split both crossing segments there.
    let chain = vec![c(0, 0), c(4, 4), c(4, 0), c(0, 4)];
    let mut si = SegmentIntersector::new();
    let esi = BruteForceEdgeSetIntersector;
    let edges = vec![Edge { coords: chain.clone(), ints: vec![] }];
    let rec = esi.compute_intersections_within_set(&edges, true, &mut si);
    assert!(si.has_proper);
    let sorted = sort_dedup(&rec[0]);
    let mut subs: Vec<SubEdge> = Vec::new();
    split_chain(&chain, &sorted, &mut subs);
    assert!(subs.contains(&SubEdge { p: c(0, 0), q: c(2, 2) }));
    assert!(subs.contains(&SubEdge { p: c(2, 2), q: c(4, 4) }));
    assert!(subs.contains(&SubEdge { p: c(4, 0), q: c(2, 2) }));
    assert!(subs.contains(&SubEdge { p: c(2, 2), q: c(0, 4) }));
}

#[test]
fn self_crossing_line_contains_its_crossing_point() {
    let line = Geometry::LineString(vec![c(0, 0), c(4, 4), c(4, 0), c(0, 4)]);
    let pt = Geometry::Point(c(2, 2));
    let m = geo_relate::relate::relate(&line, &pt).unwrap();
    assert!(m.is_intersects());
    assert!(m.is_contains());
    assert!(!m.is_touches());
}
