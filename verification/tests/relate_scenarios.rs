use geo_relate::coord::Coord;
use geo_relate::edge::{BruteForceEdgeSetIntersector, Edge, EdgeSetIntersector, SegmentIntersector};
use geo_relate::geometry::{Geometry, Polygon};
use geo_relate::matrix::IntersectionMatrix;
use geo_relate::relate::{relate, RelateError};

fn c(x: i64, y: i64) -> Coord {
    Coord { x, y }
}

fn square() -> Geometry {
    Geometry::Polygon(Polygon {
        shell: vec![c(0, 0), c(4, 0), c(4, 4), c(0, 4), c(0, 0)],
        holes: vec![],
    })
}

fn relate_ok(a: &Geometry, b: &Geometry) -> IntersectionMatrix {
    relate(a, b).unwrap()
}

#[test]
fn square_crossed_by_line() {
    let a = square();
    let b = Geometry::LineString(vec![c(2, -1), c(2, 5)]);
    let m = relate_ok(&a, &b);
    assert!(m.is_crosses(2, 1));
    assert!(m.is_intersects());
    assert!(!m.is_touches());
    assert!(!m.is_within());
    assert_eq!(m.ii, 1);
}

#[test]
fn point_within_square() {
    let a = Geometry::Point(c(2, 2));
    let b = square();
    let m = relate_ok(&a, &b);
    assert!(m.is_within());
    assert!(m.is_intersects());
    assert!(!m.is_touches());
    let back = relate_ok(&b, &a);
    assert!(back.is_contains());
    assert!(back.is_covers());
}

#[test]
fn segment_touching_square_edge() {
    let a = Geometry::LineString(vec![c(4, 0), c(4, 4)]);
    let b = square();
    let m = relate_ok(&a, &b);
    assert!(m.is_touches());
    assert!(!m.is_crosses(1, 2));
    assert!(!m.is_overlaps(1, 2));
    assert!(m.is_intersects());
}

#[test]
fn overlapping_squares() {
    let a = square();
    let b = Geometry::Polygon(Polygon {
        shell: vec![c(2, 2), c(6, 2), c(6, 6), c(2, 6), c(2, 2)],
        holes: vec![],
    });
    let m = relate_ok(&a, &b);
    assert!(m.is_overlaps(2, 2));
    assert!(!m.is_contains());
    assert!(!m.is_within());
    assert_eq!(m.ii, 2);
}

#[test]
fn disjoint_squares() {
    let a = square();
    let b = Geometry::Polygon(Polygon {
        shell: vec![c(10, 10), c(14, 10), c(14, 14), c(10, 14), c(10, 10)],
        holes: vec![],
    });
    let m = relate_ok(&a, &b);
    assert!(m.is_disjoint());
    assert!(!m.is_intersects());
    assert_eq!(m.ie, 2);
    assert_eq!(m.ei, 2);
    assert_eq!(m.ee, 2);
}

#[test]
fn nested_squares_contains() {
    let a = square();
    let b = Geometry::Polygon(Polygon {
        shell: vec![c(1, 1), c(3, 1), c(3, 3), c(1, 3), c(1, 1)],
        holes: vec![],
    });
    let m = relate_ok(&a, &b);
    assert!(m.is_contains());
    assert!(m.is_covers());
    assert!(!m.is_touches());
    assert!(relate_ok(&b, &a).is_within());
}

#[test]
fn reflexive_square_is_equals() {
    let a = square();
    let b = square();
    let m = relate_ok(&a, &b);
    assert!(m.is_equals_topo());
    assert!(m.matches_pattern(&vec!['T', '*', 'F', '*', '*', 'F', 'F', 'F', '*']));
    assert_eq!(m.ii, 2);
    assert_eq!(m.bb, 1);
    assert_eq!(m.ee, 2);
}

#[test]
fn reflexive_point_and_line() {
    let p = Geometry::Point(c(7, -3));
    assert!(relate_ok(&p, &p).is_equals_topo());
    let l = Geometry::LineString(vec![c(0, 0), c(5, 5)]);
    let m = relate_ok(&l, &l);
    assert!(m.is_equals_topo());
    assert_eq!(m.ii, 1);
    assert_eq!(m.bb, 0);
}

#[test]
fn symmetry_is_transposition() {
    let a = square();
    let b = Geometry::LineString(vec![c(2, -1), c(2, 5)]);
    let m = relate_ok(&a, &b);
    let t = relate_ok(&b, &a);
    assert_eq!(m, t.transpose());
    let b2 = Geometry::Point(c(2, 2));
    let m2 = relate_ok(&a, &b2);
    let t2 = relate_ok(&b2, &a);
    assert_eq!(m2, t2.transpose());
}

#[test]
fn point_in_hole_is_disjoint() {
    let a = Geometry::Polygon(Polygon {
        shell: vec![c(0, 0), c(10, 0), c(10, 10), c(0, 10), c(0, 0)],
        holes: vec![vec![c(2, 2), c(8, 2), c(8, 8), c(2, 8), c(2, 2)]],
    });
    let inside_hole = Geometry::Point(c(5, 5));
    assert!(relate_ok(&a, &inside_hole).is_disjoint());
    let in_ring_area = Geometry::Point(c(1, 5));
    assert!(relate_ok(&a, &in_ring_area).is_contains());
}

#[test]
fn crossing_lines_meet_in_a_point() {
    let a = Geometry::LineString(vec![c(0, 0), c(4, 4)]);
    let b = Geometry::LineString(vec![c(0, 4), c(4, 0)]);
    let m = relate_ok(&a, &b);
    assert!(m.is_crosses(1, 1));
    assert_eq!(m.ii, 0);
    assert!(m.is_intersects());
}

#[test]
fn collinear_lines_overlap() {
    let a = Geometry::LineString(vec![c(0, 0), c(4, 0)]);
    let b = Geometry::LineString(vec![c(2, 0), c(6, 0)]);
    let m = relate_ok(&a, &b);
    assert!(m.is_overlaps(1, 1));
    assert_eq!(m.ii, 1);
    assert!(!m.is_crosses(1, 1));
}

#[test]
fn invalid_inputs_are_rejected() {
    let good = square();
    let far = Geometry::Point(c(2_000_000, 0));
    assert_eq!(relate(&far, &good), Err(RelateError::InvalidGeometry));
    let short = Geometry::LineString(vec![c(0, 0)]);
    assert_eq!(relate(&good, &short), Err(RelateError::InvalidGeometry));
    let open_ring = Geometry::Polygon(Polygon {
        shell: vec![c(0, 0), c(4, 0), c(4, 4), c(0, 4)],
        holes: vec![],
    });
    assert_eq!(relate(&open_ring, &good), Err(RelateError::InvalidGeometry));
    let empty_multi = Geometry::MultiPoint(vec![]);
    assert_eq!(relate(&good, &empty_multi), Err(RelateError::InvalidGeometry));
    let repeated = Geometry::LineString(vec![c(0, 0), c(0, 0), c(1, 1)]);
    assert_eq!(relate(&good, &repeated), Err(RelateError::InvalidGeometry));
}

#[test]
fn multipolygon_and_multipoint() {
    let a = Geometry::MultiPolygon(vec![
        Polygon { shell: vec![c(0, 0), c(2, 0), c(2, 2), c(0, 2), c(0, 0)], holes: vec![] },
        Polygon { shell: vec![c(10, 0), c(12, 0), c(12, 2), c(10, 2), c(10, 10)], holes: vec![] },
    ]);
    let a_fixed = Geometry::MultiPolygon(vec![
        Polygon { shell: vec![c(0, 0), c(2, 0), c(2, 2), c(0, 2), c(0, 0)], holes: vec![] },
        Polygon { shell: vec![c(10, 0), c(12, 0), c(12, 2), c(10, 2), c(10, 0)], holes: vec![] },
    ]);
    assert_eq!(relate(&a, &a_fixed).err(), Some(RelateError::InvalidGeometry));
    let pts = Geometry::MultiPoint(vec![c(1, 1), c(11, 1)]);
    let m = relate(&a_fixed, &pts).unwrap();
    assert!(m.is_contains());
    let outside = Geometry::MultiPoint(vec![c(1, 1), c(5, 5)]);
    let m2 = relate(&a_fixed, &outside).unwrap();
    assert!(!m2.is_contains());
    assert!(m2.is_intersects());
}

#[test]
fn overlapping_extents_without_intersections_are_disjoint() {
    // The triangle's extent overlaps the square's, but the geometries
    // share no point and the cross phase records no intersection.
    let a = Geometry::Polygon(Polygon {
        shell: vec![c(0, 0), c(6, 0), c(0, 6), c(0, 0)],
        holes: vec![],
    });
    let b = Geometry::Polygon(Polygon {
        shell: vec![c(4, 4), c(6, 4), c(6, 6), c(4, 6), c(4, 4)],
        holes: vec![],
    });
    let m = relate_ok(&a, &b);
    assert!(m.is_disjoint());

    let ea = vec![Edge { coords: vec![c(0, 0), c(6, 0), c(0, 6), c(0, 0)], ints: vec![] }];
    let eb = vec![Edge {
        coords: vec![c(4, 4), c(6, 4), c(6, 6), c(4, 6), c(4, 4)],
        ints: vec![],
    }];
    let mut si = SegmentIntersector::new();
    let esi = BruteForceEdgeSetIntersector;
    let rec = esi.compute_intersections_between_sets(&ea, &eb, &mut si);
    assert!(rec[0].is_empty());
    assert!(!si.has_proper);
}

#[test]
fn squares_sharing_an_edge_touch() {
    let a = square();
    let b = Geometry::Polygon(Polygon {
        shell: vec![c(4, 0), c(8, 0), c(8, 4), c(4, 4), c(4, 0)],
        holes: vec![],
    });
    let m = relate_ok(&a, &b);
    assert!(m.is_touches());
    assert_eq!(m.ii, -1);
    assert_eq!(m.bb, 1);
    assert!(!m.is_overlaps(2, 2));
    assert!(m.is_intersects());
}

#[test]
fn line_inside_polygon_is_contained() {
    let a = square();
    let b = Geometry::LineString(vec![c(1, 1), c(3, 3)]);
    let m = relate_ok(&a, &b);
    assert!(m.is_contains());
    assert!(m.is_covers());
    assert_eq!(m.ii, 1);
    assert!(relate_ok(&b, &a).is_within());
}
