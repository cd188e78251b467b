//! Geometry graph construction: ring orientation, boundary edges and the
//! node set for one input geometry.
//!
//! Ring orientation is normalized before labeling: shells counterclockwise
//! (positive doubled signed area) and holes clockwise, so the polygon
//! interior always lies to the left of every directed ring segment. A
//! polygon contributes one edge per ring, a linestring one edge per
//! component; point geometries contribute isolated nodes only.

use vstd::prelude::*;
use crate::coord::{Coord, lemma_small_product, in_bounds, all_in_bounds};
use crate::geometry::{Geometry, Polygon, PolyModel, GeomModel, model, poly_model, poly_models, lemma_poly_models_index, valid_geom, valid_ring, valid_line, valid_polygon, seqs};
use crate::edge::{Edge, wf_edge, wf_edges, chains, lemma_chains_index};
use crate::noder::SubEdge;

verus! {

/// Twice the signed area of the first `k` segments of a ring (the
/// shoelace sum): positive for counterclockwise rings.
pub open spec fn area2(r: Seq<Coord>, k: int) -> int
    decreases k,
{
    if k <= 0 {
        0
    } else {
        area2(r, k - 1) + (r[k - 1].x * r[k].y - r[k].x * r[k - 1].y)
    }
}

/// Twice the signed area of a whole ring.
pub open spec fn ring_area2(r: Seq<Coord>) -> int {
    area2(r, r.len() - 1)
}

/// The reversal of a coordinate sequence.
pub open spec fn rev_seq(s: Seq<Coord>) -> Seq<Coord> {
    Seq::new(s.len(), |i: int| s[s.len() - 1 - i])
}

/// A ring oriented the requested way: reversed when its signed area has
/// the wrong sign, unchanged otherwise (a zero-area ring is left alone).
pub open spec fn oriented(r: Seq<Coord>, ccw: bool) -> Seq<Coord> {
    if ccw {
        if ring_area2(r) < 0 { rev_seq(r) } else { r }
    } else {
        if ring_area2(r) > 0 { rev_seq(r) } else { r }
    }
}

/// Reversal keeps a ring valid.
pub proof fn lemma_rev_valid_ring(s: Seq<Coord>)
    requires
        valid_ring(s),
    ensures
        valid_ring(rev_seq(s)),
{
    let r = rev_seq(s);
    assert(r[0] == s[s.len() - 1] && r[r.len() - 1] == s[0]);
    assert forall|i: int| 0 <= i < r.len() ==> in_bounds(#[trigger] r[i]) by {}
    assert forall|i: int| 0 <= i < r.len() - 1 implies #[trigger] r[i] != r[i + 1] by {
        assert(r[i] == s[s.len() - 1 - i] && r[i + 1] == s[s.len() - 2 - i]);
        assert(s[s.len() - 2 - i] != s[s.len() - 2 - i + 1]);
    }
}

/// Twice the signed area of a whole ring, exactly.
#[verifier::loop_isolation(false)]
pub fn ring_area2_exec(r: &Vec<Coord>) -> (a: i128)
    requires
        all_in_bounds(r@),
    ensures
        a == ring_area2(r@),
{
    if r.len() == 0 {
        return 0;
    }
    let mut a: i128 = 0;
    let mut i: usize = 0;
    while i < r.len() - 1
        invariant
            0 <= i <= r@.len() - 1,
            a == area2(r@, i as int),
            -128_000_000_000_000 * (i as int) <= a <= 128_000_000_000_000 * (i as int),
        decreases r.len() - i,
    {
        proof {
            lemma_small_product(r@[i as int].x as int, r@[i + 1].y as int);
            lemma_small_product(r@[i + 1].x as int, r@[i as int].y as int);
        }
        a = a + ((r[i].x as i128) * (r[i + 1].y as i128)
            - (r[i + 1].x as i128) * (r[i].y as i128));
        i += 1;
    }
    a
}

/// The ring oriented the requested way.
#[verifier::loop_isolation(false)]
pub fn orient_ring(r: &Vec<Coord>, ccw: bool) -> (out: Vec<Coord>)
    requires
        all_in_bounds(r@),
    ensures
        out@ == oriented(r@, ccw),
{
    let a = ring_area2_exec(r);
    let wrong = if ccw { a < 0 } else { a > 0 };
    if !wrong {
        let mut out: Vec<Coord> = Vec::new();
        let mut i: usize = 0;
        while i < r.len()
            invariant
                0 <= i <= r@.len(),
                out@ == r@.take(i as int),
            decreases r.len() - i,
        {
            out.push(r[i]);
            i += 1;
        }
        proof {
            assert(r@.take(r@.len() as int) =~= r@);
        }
        out
    } else {
        let mut out: Vec<Coord> = Vec::new();
        let mut i: usize = 0;
        while i < r.len()
            invariant
                0 <= i <= r@.len(),
                out@.len() == i,
                forall|j: int| 0 <= j < i ==> out@[j] == r@[r@.len() - 1 - j],
            decreases r.len() - i,
        {
            out.push(r[r.len() - 1 - i]);
            i += 1;
        }
        proof {
            assert(out@ =~= rev_seq(r@));
        }
        out
    }
}

/// The polygon with its shell counterclockwise and its holes clockwise.
pub open spec fn norm_poly(p: Polygon) -> PolyRings {
    PolyRings {
        shell: oriented(p.shell@, true),
        holes: Seq::new(p.holes@.len() as nat, |i: int| oriented(p.holes@[i]@, false)),
    }
}

/// The rings of one normalized polygon.
pub struct PolyRings {
    pub shell: Seq<Coord>,
    pub holes: Seq<Seq<Coord>>,
}

/// Normalize one polygon's ring orientations.
#[verifier::loop_isolation(false)]
pub fn normalize_polygon(p: &Polygon) -> (out: Polygon)
    requires
        valid_polygon(*p),
    ensures
        out.shell@ == norm_poly(*p).shell,
        seqs(out.holes@) == norm_poly(*p).holes,
        valid_polygon(out),
{
    proof {
        if ring_area2(p.shell@) < 0 {
            lemma_rev_valid_ring(p.shell@);
        }
    }
    let shell = orient_ring(&p.shell, true);
    let mut holes: Vec<Vec<Coord>> = Vec::new();
    let mut i: usize = 0;
    while i < p.holes.len()
        invariant
            0 <= i <= p.holes@.len(),
            holes@.len() == i,
            forall|j: int| 0 <= j < i ==> (#[trigger] holes@[j])@ == oriented(p.holes@[j]@, false),
            forall|j: int| 0 <= j < i ==> valid_ring((#[trigger] holes@[j])@),
        decreases p.holes.len() - i,
    {
        proof {
            assert(valid_ring(p.holes@[i as int]@));
            if ring_area2(p.holes@[i as int]@) > 0 {
                lemma_rev_valid_ring(p.holes@[i as int]@);
            }
        }
        let h = orient_ring(&p.holes[i], false);
        holes.push(h);
        i += 1;
    }
    let out = Polygon { shell, holes };
    proof {
        assert(seqs(out.holes@) =~= norm_poly(*p).holes) by {
            assert(forall|j: int| 0 <= j < out.holes@.len()
                ==> #[trigger] seqs(out.holes@)[j] == out.holes@[j]@);
        }
        assert(valid_polygon(out));
    }
    out
}

/// A normalized polygon model: shell counterclockwise, holes clockwise.
pub open spec fn norm_poly_m(p: PolyModel) -> PolyModel {
    PolyModel {
        shell: oriented(p.shell, true),
        holes: Seq::new(p.holes.len(), |i: int| oriented(p.holes[i], false)),
    }
}

/// The model of the geometry with every ring orientation normalized.
pub open spec fn norm_m(m: GeomModel) -> GeomModel {
    match m {
        GeomModel::Poly(p) => GeomModel::Poly(norm_poly_m(p)),
        GeomModel::MPoly(ps) => GeomModel::MPoly(Seq::new(ps.len(), |i: int| norm_poly_m(ps[i]))),
        other => other,
    }
}

/// Copy one coordinate chain.
#[verifier::loop_isolation(false)]
fn copy_chain(v: &Vec<Coord>) -> (r: Vec<Coord>)
    ensures
        r@ == v@,
{
    let mut r: Vec<Coord> = Vec::new();
    let mut i: usize = 0;
    while i < v.len()
        invariant
            0 <= i <= v@.len(),
            r@ == v@.take(i as int),
        decreases v.len() - i,
    {
        r.push(v[i]);
        i += 1;
    }
    proof {
        assert(v@.take(v@.len() as int) =~= v@);
    }
    r
}

/// Copy a list of coordinate chains.
#[verifier::loop_isolation(false)]
fn copy_chains(v: &Vec<Vec<Coord>>) -> (r: Vec<Vec<Coord>>)
    ensures
        seqs(r@) == seqs(v@),
{
    let mut r: Vec<Vec<Coord>> = Vec::new();
    let mut i: usize = 0;
    while i < v.len()
        invariant
            0 <= i <= v@.len(),
            r@.len() == i,
            forall|j: int| 0 <= j < i ==> (#[trigger] r@[j])@ == v@[j]@,
        decreases v.len() - i,
    {
        let c = copy_chain(&v[i]);
        r.push(c);
        i += 1;
    }
    proof {
        assert(seqs(r@) =~= seqs(v@)) by {
            assert forall|j: int| 0 <= j < v@.len() implies
                seqs(r@)[j] == seqs(v@)[j] by {
                assert(seqs(r@)[j] == r@[j]@);
                assert(seqs(v@)[j] == v@[j]@);
            }
        }
    }
    r
}

/// Normalize ring orientations across the whole geometry.
#[verifier::loop_isolation(false)]
pub fn normalize_geom(g: &Geometry) -> (out: Geometry)
    requires
        valid_geom(*g),
    ensures
        valid_geom(out),
        model(out) == norm_m(model(*g)),
        crate::geometry::dim_of(out) == crate::geometry::dim_of(*g),
        crate::geometry::boundary_dim_of(out) == crate::geometry::boundary_dim_of(*g),
{
    match g {
        Geometry::Polygon(p) => {
            let np = normalize_polygon(p);
            proof {
                assert(poly_model(np).shell == norm_poly_m(poly_model(*p)).shell);
                assert(poly_model(np).holes =~= norm_poly_m(poly_model(*p)).holes) by {
                    assert forall|i: int| 0 <= i < poly_model(np).holes.len() implies
                        poly_model(np).holes[i] == norm_poly_m(poly_model(*p)).holes[i] by {
                        assert(poly_model(np).holes[i] == norm_poly(*p).holes[i]);
                        assert(norm_poly(*p).holes[i] == oriented(p.holes@[i]@, false));
                        assert(poly_model(*p).holes[i] == p.holes@[i]@);
                    }
                }
                assert(poly_model(np) == norm_poly_m(poly_model(*p)));
                assert(*g == Geometry::Polygon(*p));
                assert(valid_geom(Geometry::Polygon(np)));
                assert(model(Geometry::Polygon(np)) == norm_m(model(*g)));
                assert(crate::geometry::boundary_dim_of(Geometry::Polygon(np))
                    == crate::geometry::boundary_dim_of(*g));
            }
            Geometry::Polygon(np)
        },
        Geometry::MultiPolygon(ps) => {
            let mut out: Vec<Polygon> = Vec::new();
            let mut i: usize = 0;
            while i < ps.len()
                invariant
                    0 <= i <= ps@.len(),
                    out@.len() == i,
                    forall|j: int| 0 <= j < i ==> valid_polygon(#[trigger] out@[j]),
                    forall|j: int| 0 <= j < i ==> (#[trigger] out@[j]).shell@ == norm_poly(ps@[j]).shell
                        && seqs(out@[j].holes@) == norm_poly(ps@[j]).holes,
                decreases ps@.len() - i,
            {
                let np = normalize_polygon(&ps[i]);
                out.push(np);
                i += 1;
            }
            proof {
                lemma_poly_models_index(out@);
                lemma_poly_models_index(ps@);
                let target = Seq::new(poly_models(ps@).len(), |i: int| norm_poly_m(poly_models(ps@)[i]));
                assert(poly_models(out@) =~= target) by {
                    assert forall|j: int| 0 <= j < out@.len() implies
                        poly_models(out@)[j] == target[j] by {
                        assert(poly_models(out@)[j] == poly_model(out@[j]));
                        assert(target[j] == norm_poly_m(poly_model(ps@[j])));
                        assert(poly_model(out@[j]).shell == norm_poly(ps@[j]).shell);
                        assert(norm_poly_m(poly_model(ps@[j])).shell
                            == oriented(poly_model(ps@[j]).shell, true));
                        assert(poly_model(out@[j]).holes =~= norm_poly_m(poly_model(ps@[j])).holes) by {
                            assert forall|h: int| 0 <= h < poly_model(out@[j]).holes.len() implies
                                poly_model(out@[j]).holes[h]
                                    == norm_poly_m(poly_model(ps@[j])).holes[h] by {
                                assert(poly_model(out@[j]).holes[h] == norm_poly(ps@[j]).holes[h]);
                                assert(norm_poly(ps@[j]).holes[h] == oriented(ps@[j].holes@[h]@, false));
                                assert(poly_model(ps@[j]).holes[h] == ps@[j].holes@[h]@);
                            }
                        }
                    }
                }
            }
            Geometry::MultiPolygon(out)
        },
        Geometry::Point(c) => Geometry::Point(*c),
        Geometry::MultiPoint(cs) => Geometry::MultiPoint(copy_chain(cs)),
        Geometry::LineString(l) => Geometry::LineString(copy_chain(l)),
        Geometry::MultiLineString(ls) => {
            let nl = copy_chains(ls);
            proof {
                assert(seqs(nl@).len() == nl@.len());
                assert(seqs(ls@).len() == ls@.len());
                assert(nl@.len() == ls@.len());
                assert forall|i: int| 0 <= i < nl@.len() implies
                    valid_line(#[trigger] nl@[i]@) by {
                    assert(seqs(nl@)[i] == nl@[i]@);
                    assert(seqs(ls@)[i] == ls@[i]@);
                    assert(valid_line(ls@[i]@));
                }
            }
            Geometry::MultiLineString(nl)
        },
    }
}

/// The boundary chains of a geometry: one per linestring component, one
/// per polygon ring; point geometries have none.
pub open spec fn geom_chains(g: Geometry) -> Seq<Seq<Coord>> {
    match g {
        Geometry::Point(_) => Seq::empty(),
        Geometry::MultiPoint(_) => Seq::empty(),
        Geometry::LineString(l) => seq![l@],
        Geometry::MultiLineString(ls) => seqs(ls@),
        Geometry::Polygon(p) => seq![p.shell@] + seqs(p.holes@),
        Geometry::MultiPolygon(ps) => mp_chains(ps@, ps@.len() as int),
    }
}

/// The rings of the first `k` polygons, shells and holes in order.
pub open spec fn mp_chains(ps: Seq<Polygon>, k: int) -> Seq<Seq<Coord>>
    decreases k,
{
    if k <= 0 {
        Seq::empty()
    } else {
        mp_chains(ps, k - 1) + seq![ps[k - 1].shell@] + seqs(ps[k - 1].holes@)
    }
}

/// The isolated node coordinates of a geometry: the members of point
/// geometries; other geometries contribute nodes through their edges.
pub open spec fn geom_points(g: Geometry) -> Seq<Coord> {
    match g {
        Geometry::Point(c) => seq![c],
        Geometry::MultiPoint(cs) => cs@,
        _ => Seq::empty(),
    }
}

/// The boundary chains of a geometry model.
pub open spec fn chains_m(m: GeomModel) -> Seq<Seq<Coord>> {
    match m {
        GeomModel::Pt(_) => Seq::empty(),
        GeomModel::MPt(_) => Seq::empty(),
        GeomModel::Ls(l) => seq![l],
        GeomModel::Mls(ls) => ls,
        GeomModel::Poly(p) => seq![p.shell] + p.holes,
        GeomModel::MPoly(ps) => mpm_chains(ps, ps.len() as int),
    }
}

/// The rings of the first `k` polygon models, shells and holes in order.
pub open spec fn mpm_chains(ps: Seq<PolyModel>, k: int) -> Seq<Seq<Coord>>
    decreases k,
{
    if k <= 0 {
        Seq::empty()
    } else {
        mpm_chains(ps, k - 1) + seq![ps[k - 1].shell] + ps[k - 1].holes
    }
}

/// The isolated node coordinates of a geometry model.
pub open spec fn points_m(m: GeomModel) -> Seq<Coord> {
    match m {
        GeomModel::Pt(c) => seq![c],
        GeomModel::MPt(cs) => cs,
        _ => Seq::empty(),
    }
}

/// The chains of a geometry are the chains of its model.
pub proof fn lemma_chains_model(g: Geometry)
    ensures
        geom_chains(g) == chains_m(model(g)),
        geom_points(g) == points_m(model(g)),
{
    match g {
        Geometry::Polygon(p) => {
            assert(geom_chains(g) == seq![p.shell@] + seqs(p.holes@));
            assert(chains_m(model(g)) == seq![poly_model(p).shell] + poly_model(p).holes);
        },
        Geometry::MultiPolygon(ps) => {
            lemma_poly_models_index(ps@);
            lemma_mp_chains_model(ps@, ps@.len() as int);
        },
        _ => {},
    }
}

/// Ring collection agrees between polygons and their models.
proof fn lemma_mp_chains_model(ps: Seq<Polygon>, k: int)
    requires
        0 <= k <= ps.len(),
    ensures
        mp_chains(ps, k) == mpm_chains(poly_models(ps), k),
    decreases k,
{
    lemma_poly_models_index(ps);
    if k > 0 {
        lemma_mp_chains_model(ps, k - 1);
        assert(poly_models(ps)[k - 1] == poly_model(ps[k - 1]));
    }
}

/// Build the edge arena for one geometry: one edge per boundary chain,
/// with an empty intersection list.
#[verifier::loop_isolation(false)]
pub fn build_edges(g: &Geometry) -> (r: Vec<Edge>)
    requires
        valid_geom(*g),
    ensures
        chains(r@) == geom_chains(*g),
        wf_edges(r@),
        forall|i: int| 0 <= i < r@.len() ==> (#[trigger] r@[i]).ints@.len() == 0,
{
    let mut r: Vec<Edge> = Vec::new();
    match g {
        Geometry::Point(_) => {},
        Geometry::MultiPoint(_) => {},
        Geometry::LineString(l) => {
            push_chain(&mut r, l);
        },
        Geometry::MultiLineString(ls) => {
            let mut i: usize = 0;
            while i < ls.len()
                invariant
                    0 <= i <= ls@.len(),
                    chains(r@) == seqs(ls@).take(i as int),
                    wf_edges(r@),
                    forall|m: int| 0 <= m < r@.len() ==> (#[trigger] r@[m]).ints@.len() == 0,
                decreases ls.len() - i,
            {
                proof {
                    assert(seqs(ls@)[i as int] == ls@[i as int]@);
                    assert(valid_line(ls@[i as int]@));
                }
                push_chain(&mut r, &ls[i]);
                proof {
                    assert(chains(r@) =~= seqs(ls@).take(i + 1));
                }
                i += 1;
            }
            proof {
                assert(seqs(ls@).take(ls@.len() as int) =~= seqs(ls@));
            }
        },
        Geometry::Polygon(p) => {
            push_chain(&mut r, &p.shell);
            let mut i: usize = 0;
            while i < p.holes.len()
                invariant
                    0 <= i <= p.holes@.len(),
                    chains(r@) == seq![p.shell@] + seqs(p.holes@).take(i as int),
                    wf_edges(r@),
                    forall|m: int| 0 <= m < r@.len() ==> (#[trigger] r@[m]).ints@.len() == 0,
                decreases p.holes.len() - i,
            {
                proof {
                    assert(seqs(p.holes@)[i as int] == p.holes@[i as int]@);
                    assert(valid_ring(p.holes@[i as int]@));
                }
                push_chain(&mut r, &p.holes[i]);
                proof {
                    assert(chains(r@) =~= seq![p.shell@] + seqs(p.holes@).take(i + 1));
                }
                i += 1;
            }
            proof {
                assert(seq![p.shell@] + seqs(p.holes@).take(p.holes@.len() as int)
                    =~= seq![p.shell@] + seqs(p.holes@));
            }
        },
        Geometry::MultiPolygon(ps) => {
            let mut i: usize = 0;
            while i < ps.len()
                invariant
                    0 <= i <= ps@.len(),
                    chains(r@) == mp_chains(ps@, i as int),
                    wf_edges(r@),
                    forall|m: int| 0 <= m < r@.len() ==> (#[trigger] r@[m]).ints@.len() == 0,
                decreases ps.len() - i,
            {
                proof {
                    assert(valid_polygon(ps@[i as int]));
                }
                push_chain(&mut r, &ps[i].shell);
                let mut h: usize = 0;
                while h < ps[i].holes.len()
                    invariant
                        0 <= i < ps@.len(),
                        0 <= h <= ps@[i as int].holes@.len(),
                        valid_polygon(ps@[i as int]),
                        chains(r@) == mp_chains(ps@, i as int) + seq![ps@[i as int].shell@]
                            + seqs(ps@[i as int].holes@).take(h as int),
                        wf_edges(r@),
                        forall|m: int| 0 <= m < r@.len() ==> (#[trigger] r@[m]).ints@.len() == 0,
                    decreases ps@[i as int].holes@.len() - h,
                {
                    proof {
                        assert(seqs(ps@[i as int].holes@)[h as int] == ps@[i as int].holes@[h as int]@);
                        assert(valid_ring(ps@[i as int].holes@[h as int]@));
                    }
                    push_chain(&mut r, &ps[i].holes[h]);
                    proof {
                        assert(chains(r@) =~= mp_chains(ps@, i as int)
                            + seq![ps@[i as int].shell@]
                            + seqs(ps@[i as int].holes@).take(h + 1));
                    }
                    h += 1;
                }
                proof {
                    assert(seqs(ps@[i as int].holes@).take(ps@[i as int].holes@.len() as int)
                        =~= seqs(ps@[i as int].holes@));
                    assert(chains(r@) =~= mp_chains(ps@, i + 1));
                }
                i += 1;
            }
        },
    }
    r
}

/// Append one chain as a fresh edge.
#[verifier::loop_isolation(false)]
fn push_chain(r: &mut Vec<Edge>, c: &Vec<Coord>) -> (nothing: ())
    requires
        valid_line(c@),
    ensures
        final(r)@.len() == old(r)@.len() + 1,
        chains(final(r)@) == chains(old(r)@).push(c@),
        wf_edges(old(r)@) ==> wf_edges(final(r)@),
        (forall|m: int| 0 <= m < old(r)@.len() ==> (#[trigger] old(r)@[m]).ints@.len() == 0)
            ==> forall|m: int| 0 <= m < final(r)@.len()
                ==> (#[trigger] final(r)@[m]).ints@.len() == 0,
{
    let mut coords: Vec<Coord> = Vec::new();
    let mut i: usize = 0;
    while i < c.len()
        invariant
            0 <= i <= c@.len(),
            coords@ == c@.take(i as int),
        decreases c.len() - i,
    {
        coords.push(c[i]);
        i += 1;
    }
    proof {
        assert(c@.take(c@.len() as int) =~= c@);
    }
    let e = Edge { coords, ints: Vec::new() };
    let ghost before = r@;
    r.push(e);
    proof {
        assert(r@.drop_last() =~= before);
        assert(chains(r@) == chains(before).push(c@));
        lemma_chains_index(r@);
        assert forall|m: int| 0 <= m < r@.len() implies wf_edges(before) ==> wf_edge(#[trigger] r@[m]) by {
            if m < before.len() {
                assert(r@[m] == before[m]);
            }
        }
    }
}

/// Deduplicated node coordinates: every sub-edge endpoint and every
/// isolated point, first occurrence kept.
pub open spec fn dedup_spec(s: Seq<Coord>, k: int) -> Seq<Coord>
    decreases k,
{
    if k <= 0 {
        Seq::empty()
    } else {
        let rest = dedup_spec(s, k - 1);
        if rest.contains(s[k - 1]) {
            rest
        } else {
            rest.push(s[k - 1])
        }
    }
}

/// The node coordinates of a noded sub-edge set plus isolated points:
/// all edges touching the same coordinate meet in exactly one node.
#[verifier::loop_isolation(false)]
pub fn collect_nodes(subs: &Vec<SubEdge>, pts: &Vec<Coord>) -> (r: Vec<Coord>)
    ensures
        r@ == dedup_spec(endpoints_of(subs@) + pts@, (endpoints_of(subs@) + pts@).len() as int),
{
    let mut all: Vec<Coord> = Vec::new();
    let mut i: usize = 0;
    while i < subs.len()
        invariant
            0 <= i <= subs@.len(),
            all@ == endpoints_upto(subs@, i as int),
        decreases subs.len() - i,
    {
        all.push(subs[i].p);
        all.push(subs[i].q);
        i += 1;
    }
    let mut j: usize = 0;
    while j < pts.len()
        invariant
            0 <= j <= pts@.len(),
            all@ == endpoints_of(subs@) + pts@.take(j as int),
        decreases pts.len() - j,
    {
        all.push(pts[j]);
        proof {
            assert(all@ =~= endpoints_of(subs@) + pts@.take(j + 1));
        }
        j += 1;
    }
    proof {
        assert(all@ =~= endpoints_of(subs@) + pts@) by {
            assert(pts@.take(pts@.len() as int) =~= pts@);
        }
    }
    let mut r: Vec<Coord> = Vec::new();
    let mut k: usize = 0;
    while k < all.len()
        invariant
            0 <= k <= all@.len(),
            r@ == dedup_spec(all@, k as int),
        decreases all.len() - k,
    {
        let c = all[k];
        let mut seen = false;
        let mut m: usize = 0;
        while m < r.len()
            invariant
                0 <= m <= r@.len(),
                seen == exists|t: int| 0 <= t < m && r@[t] == c,
            decreases r.len() - m,
        {
            if r[m].x == c.x && r[m].y == c.y {
                proof {
                    assert(r@[m as int] == c);
                }
                seen = true;
            }
            m += 1;
        }
        proof {
            assert(seen == r@.contains(c));
        }
        if !seen {
            r.push(c);
        }
        k += 1;
    }
    r
}

/// Endpoints of the first `k` sub-edges, in order.
pub open spec fn endpoints_upto(subs: Seq<SubEdge>, k: int) -> Seq<Coord>
    decreases k,
{
    if k <= 0 {
        Seq::empty()
    } else {
        endpoints_upto(subs, k - 1) + seq![subs[k - 1].p, subs[k - 1].q]
    }
}

/// Endpoints of every sub-edge, in order.
pub open spec fn endpoints_of(subs: Seq<SubEdge>) -> Seq<Coord> {
    endpoints_upto(subs, subs.len() as int)
}

} // verus!
