//! The noder: splits an edge chain at every recorded intersection point,
//! in order along the chain, producing non-crossing sub-edges.
//!
//! Recorded points are first sorted by segment index, then by squared
//! distance from that segment's start, then by coordinate (a strict total
//! order, so duplicates are dropped exactly, not within a tolerance). Each
//! segment is then cut at the points strictly between its endpoints; a
//! point coincident with a segment endpoint never produces a zero-length
//! sub-edge. The concatenation of the output sub-edges reproduces the
//! original chain with the cut points inserted.

use vstd::prelude::*;
use crate::coord::Coord;
use crate::edge::IsectPt;

verus! {

/// One noded sub-edge: a single non-degenerate segment of the planar graph.
#[derive(Clone, Copy, PartialEq, Eq, Structural, Debug)]
pub struct SubEdge {
    pub p: Coord,
    pub q: Coord,
}

/// Strict total order on recorded points: segment index, then distance
/// along the segment, then coordinate.
pub open spec fn pt_lt(a: IsectPt, b: IsectPt) -> bool {
    a.seg < b.seg
        || (a.seg == b.seg && a.dist2 < b.dist2)
        || (a.seg == b.seg && a.dist2 == b.dist2 && a.coord.x < b.coord.x)
        || (a.seg == b.seg && a.dist2 == b.dist2 && a.coord.x == b.coord.x && a.coord.y < b.coord.y)
}

/// Adjacent strict sortedness: no duplicates, ascending.
pub open spec fn strictly_sorted(s: Seq<IsectPt>) -> bool {
    forall|i: int| 0 <= i < s.len() - 1 ==> pt_lt(#[trigger] s[i], s[i + 1])
}

/// Insert `p` into the sorted duplicate-free sequence `q`, keeping it
/// sorted and duplicate-free.
pub open spec fn insert_sorted(q: Seq<IsectPt>, p: IsectPt) -> Seq<IsectPt>
    decreases q.len(),
{
    if q.len() == 0 {
        seq![p]
    } else if pt_lt(p, q[0]) {
        seq![p] + q
    } else if p == q[0] {
        q
    } else {
        seq![q[0]] + insert_sorted(q.drop_first(), p)
    }
}

/// Sort the first `k` recorded points and drop exact duplicates.
pub open spec fn sort_dedup_spec(s: Seq<IsectPt>, k: int) -> Seq<IsectPt>
    decreases k,
{
    if k <= 0 {
        Seq::empty()
    } else {
        insert_sorted(sort_dedup_spec(s, k - 1), s[k - 1])
    }
}

/// The order `pt_lt` is trichotomous: unequal points compare one way.
pub proof fn lemma_pt_lt_total(a: IsectPt, b: IsectPt)
    ensures
        a == b || pt_lt(a, b) || pt_lt(b, a),
        pt_lt(a, b) ==> !pt_lt(b, a) && a != b,
{
    if !pt_lt(a, b) && !pt_lt(b, a) {
        assert(a.seg == b.seg && a.dist2 == b.dist2 && a.coord.x == b.coord.x
            && a.coord.y == b.coord.y);
        assert(a.coord == b.coord);
    }
}

/// `insert_sorted` keeps the sequence sorted, and inserts at the position
/// that an ascending scan finds.
pub proof fn lemma_insert_sorted(q: Seq<IsectPt>, p: IsectPt)
    requires
        strictly_sorted(q),
    ensures
        strictly_sorted(insert_sorted(q, p)),
        insert_sorted(q, p).len() >= q.len(),
    decreases q.len(),
{
    if q.len() == 0 {
    } else if pt_lt(p, q[0]) {
        let r = seq![p] + q;
        assert forall|i: int| 0 <= i < r.len() - 1 implies pt_lt(#[trigger] r[i], r[i + 1]) by {
            if i > 0 {
                assert(r[i] == q[i - 1] && r[i + 1] == q[i]);
            }
        }
    } else if p == q[0] {
    } else {
        lemma_insert_sorted(q.drop_first(), p);
        lemma_pt_lt_total(p, q[0]);
        let t = insert_sorted(q.drop_first(), p);
        let r = seq![q[0]] + t;
        assert forall|i: int| 0 <= i < r.len() - 1 implies pt_lt(#[trigger] r[i], r[i + 1]) by {
            if i == 0 {
                if q.len() == 1 {
                    assert(t == seq![p]);
                    assert(pt_lt(q[0], p));
                } else {
                    // t's head is either p or q[1]; both are above q[0].
                    assert(q.drop_first()[0] == q[1]);
                    assert(pt_lt(q[0], q[1]));
                    if pt_lt(p, q[1]) {
                        assert(t[0] == p);
                    } else if p == q.drop_first()[0] {
                        assert(t[0] == q[1]);
                    } else {
                        assert(t[0] == q[1]);
                    }
                }
            } else {
                assert(r[i] == t[i - 1] && r[i + 1] == t[i]);
            }
        }
    }
}

/// The sorted deduplicated form of any prefix is sorted.
pub proof fn lemma_sort_dedup_sorted(s: Seq<IsectPt>, k: int)
    ensures
        strictly_sorted(sort_dedup_spec(s, k)),
    decreases k,
{
    if k > 0 {
        lemma_sort_dedup_sorted(s, k - 1);
        lemma_insert_sorted(sort_dedup_spec(s, k - 1), s[k - 1]);
    }
}

/// Scanning a sorted sequence to position `idx` (everything before is
/// below `p`, the element at `idx`, if any, is not) realizes
/// `insert_sorted` exactly.
pub proof fn lemma_insert_at(q: Seq<IsectPt>, p: IsectPt, idx: int)
    requires
        strictly_sorted(q),
        0 <= idx <= q.len(),
        forall|m: int| 0 <= m < idx ==> pt_lt(#[trigger] q[m], p),
        idx < q.len() ==> !pt_lt(q[idx], p),
    ensures
        insert_sorted(q, p) == if idx < q.len() && q[idx] == p {
            q
        } else {
            q.insert(idx, p)
        },
    decreases q.len(),
{
    if q.len() == 0 {
        assert(insert_sorted(q, p) =~= q.insert(0, p));
    } else if idx == 0 {
        lemma_pt_lt_total(p, q[0]);
        if pt_lt(p, q[0]) {
            assert(insert_sorted(q, p) =~= q.insert(0, p));
        } else {
            assert(p == q[0]);
        }
    } else {
        assert(pt_lt(q[0], p));
        lemma_pt_lt_total(p, q[0]);
        assert(!pt_lt(p, q[0]) && p != q[0]);
        lemma_insert_at(q.drop_first(), p, idx - 1);
        let t = q.drop_first();
        if idx < q.len() && q[idx] == p {
            assert(t[idx - 1] == q[idx]);
            assert(insert_sorted(q, p) =~= q);
        } else {
            assert(insert_sorted(q, p) =~= q.insert(idx, p)) by {
                assert(insert_sorted(q, p) == seq![q[0]] + t.insert(idx - 1, p));
            }
        }
    }
}

/// Sort the recorded points by position along the chain and drop exact
/// duplicates.
#[verifier::loop_isolation(false)]
pub fn sort_dedup(pts: &Vec<IsectPt>) -> (r: Vec<IsectPt>)
    ensures
        r@ == sort_dedup_spec(pts@, pts@.len() as int),
        strictly_sorted(r@),
{
    let mut r: Vec<IsectPt> = Vec::new();
    let mut i: usize = 0;
    while i < pts.len()
        invariant
            0 <= i <= pts@.len(),
            r@ == sort_dedup_spec(pts@, i as int),
            strictly_sorted(r@),
        decreases pts.len() - i,
    {
        let p = pts[i];
        let mut idx: usize = 0;
        while idx < r.len() && pt_lt_exec(r[idx], p)
            invariant
                0 <= idx <= r@.len(),
                forall|m: int| 0 <= m < idx ==> pt_lt(#[trigger] r@[m], p),
            decreases r.len() - idx,
        {
            idx += 1;
        }
        proof {
            lemma_insert_at(r@, p, idx as int);
        }
        if idx < r.len() && r[idx].seg == p.seg && r[idx].dist2 == p.dist2
            && r[idx].coord.x == p.coord.x && r[idx].coord.y == p.coord.y {
            proof {
                assert(r@[idx as int] == p);
            }
        } else {
            r.insert(idx, p);
        }
        proof {
            lemma_sort_dedup_sorted(pts@, i + 1);
        }
        i += 1;
    }
    r
}

/// Exact comparison along the chain order.
pub fn pt_lt_exec(a: IsectPt, b: IsectPt) -> (r: bool)
    ensures
        r == pt_lt(a, b),
{
    a.seg < b.seg
        || (a.seg == b.seg && a.dist2 < b.dist2)
        || (a.seg == b.seg && a.dist2 == b.dist2 && a.coord.x < b.coord.x)
        || (a.seg == b.seg && a.dist2 == b.dist2 && a.coord.x == b.coord.x && a.coord.y < b.coord.y)
}

/// The cut coordinates for segment `i`: recorded points of that segment,
/// in sorted order, excluding the segment's own endpoints.
pub open spec fn cut_points(pts: Seq<IsectPt>, k: int, i: int, a: Coord, b: Coord) -> Seq<Coord>
    decreases k,
{
    if k <= 0 {
        Seq::empty()
    } else {
        cut_points(pts, k - 1, i, a, b)
            + if pts[k - 1].seg == i && pts[k - 1].coord != a && pts[k - 1].coord != b {
                seq![pts[k - 1].coord]
            } else {
                Seq::empty()
            }
    }
}

/// The sub-edges of one segment cut at the given interior points: the
/// consecutive pairs of `[a] + cuts + [b]`.
pub open spec fn seg_sub_edges(a: Coord, cuts: Seq<Coord>, b: Coord) -> Seq<SubEdge>
    decreases cuts.len(),
{
    if cuts.len() == 0 {
        seq![SubEdge { p: a, q: b }]
    } else {
        seq![SubEdge { p: a, q: cuts[0] }] + seg_sub_edges(cuts[0], cuts.drop_first(), b)
    }
}

/// The noded sub-edges of the first `imax` segments of the chain.
pub open spec fn noded_spec(coords: Seq<Coord>, pts: Seq<IsectPt>, imax: int) -> Seq<SubEdge>
    decreases imax,
{
    if imax <= 0 {
        Seq::empty()
    } else {
        noded_spec(coords, pts, imax - 1) + seg_sub_edges(
            coords[imax - 1],
            cut_points(pts, pts.len() as int, imax - 1, coords[imax - 1], coords[imax]),
            coords[imax],
        )
    }
}

/// Split the chain at its sorted recorded points: each segment is cut at
/// every recorded interior point, so the output sub-edges cross nowhere
/// and their concatenation reproduces the chain.
#[verifier::loop_isolation(false)]
pub fn split_chain(coords: &Vec<Coord>, pts: &Vec<IsectPt>, out: &mut Vec<SubEdge>)
    requires
        coords@.len() >= 2,
    ensures
        final(out)@ == old(out)@ + noded_spec(coords@, pts@, coords@.len() - 1),
{
    let ghost base = out@;
    let mut i: usize = 0;
    while i < coords.len() - 1
        invariant
            0 <= i <= coords@.len() - 1,
            out@ == base + noded_spec(coords@, pts@, i as int),
        decreases coords.len() - i,
    {
        let a = coords[i];
        let b = coords[i + 1];
        let mut cuts: Vec<Coord> = Vec::new();
        let mut k: usize = 0;
        while k < pts.len()
            invariant
                0 <= k <= pts@.len(),
                cuts@ == cut_points(pts@, k as int, i as int, a, b),
            decreases pts.len() - k,
        {
            let pt = pts[k];
            if pt.seg == i && !(pt.coord.x == a.x && pt.coord.y == a.y)
                && !(pt.coord.x == b.x && pt.coord.y == b.y) {
                cuts.push(pt.coord);
            }
            k += 1;
        }
        let mut prev = a;
        let mut c: usize = 0;
        proof {
            assert(cuts@.skip(0) =~= cuts@);
        }
        while c < cuts.len()
            invariant
                0 <= c <= cuts@.len(),
                out@ + seg_sub_edges(prev, cuts@.skip(c as int), b)
                    == base + noded_spec(coords@, pts@, i as int)
                        + seg_sub_edges(a, cuts@, b),
            decreases cuts.len() - c,
        {
            proof {
                assert(cuts@.skip(c as int)[0] == cuts@[c as int]);
                assert(cuts@.skip(c as int).drop_first() =~= cuts@.skip(c + 1));
            }
            out.push(SubEdge { p: prev, q: cuts[c] });
            prev = cuts[c];
            c += 1;
        }
        proof {
            assert(cuts@.skip(cuts@.len() as int) =~= Seq::<Coord>::empty());
            assert(seg_sub_edges(prev, Seq::<Coord>::empty(), b)
                == seq![SubEdge { p: prev, q: b }]);
        }
        let ghost pre = out@;
        out.push(SubEdge { p: prev, q: b });
        proof {
            assert(out@ =~= pre + seq![SubEdge { p: prev, q: b }]);
            assert(out@ =~= base + noded_spec(coords@, pts@, i as int)
                + seg_sub_edges(a, cuts@, b));
            assert(noded_spec(coords@, pts@, i + 1)
                == noded_spec(coords@, pts@, i as int) + seg_sub_edges(
                    coords@[i as int],
                    cut_points(pts@, pts@.len() as int, i as int, coords@[i as int],
                        coords@[i + 1]),
                    coords@[i + 1],
                ));
            assert(out@ =~= base + noded_spec(coords@, pts@, i + 1));
        }
        i += 1;
    }
}

/// The sub-edges of one segment form a chain from `a` to `b`: each
/// sub-edge starts where the previous one ended.
pub proof fn lemma_seg_sub_edges_chain(a: Coord, cuts: Seq<Coord>, b: Coord)
    ensures
        seg_sub_edges(a, cuts, b).len() == cuts.len() + 1,
        seg_sub_edges(a, cuts, b)[0].p == a,
        seg_sub_edges(a, cuts, b).last().q == b,
        forall|i: int| 0 <= i < seg_sub_edges(a, cuts, b).len() - 1
            ==> (#[trigger] seg_sub_edges(a, cuts, b)[i]).q == seg_sub_edges(a, cuts, b)[i + 1].p,
    decreases cuts.len(),
{
    if cuts.len() > 0 {
        lemma_seg_sub_edges_chain(cuts[0], cuts.drop_first(), b);
        let rest = seg_sub_edges(cuts[0], cuts.drop_first(), b);
        let whole = seg_sub_edges(a, cuts, b);
        assert forall|i: int| 0 <= i < whole.len() - 1 implies
            (#[trigger] whole[i]).q == whole[i + 1].p by {
            if i > 0 {
                assert(whole[i] == rest[i - 1] && whole[i + 1] == rest[i]);
            } else {
                assert(whole[0].q == cuts[0] && whole[1] == rest[0]);
            }
        }
    }
}

/// The noded sub-edges of a whole chain reproduce it: they run nose to
/// tail from the chain's first coordinate to its last, so their
/// concatenation is the original coordinate sequence with the cut points
/// inserted.
pub proof fn lemma_noded_chain(coords: Seq<Coord>, pts: Seq<IsectPt>, imax: int)
    requires
        1 <= imax <= coords.len() - 1,
    ensures
        noded_spec(coords, pts, imax).len() >= imax,
        noded_spec(coords, pts, imax)[0].p == coords[0],
        noded_spec(coords, pts, imax).last().q == coords[imax],
        forall|i: int| 0 <= i < noded_spec(coords, pts, imax).len() - 1
            ==> (#[trigger] noded_spec(coords, pts, imax)[i]).q
                == noded_spec(coords, pts, imax)[i + 1].p,
    decreases imax,
{
    let cuts = cut_points(pts, pts.len() as int, imax - 1, coords[imax - 1], coords[imax]);
    lemma_seg_sub_edges_chain(coords[imax - 1], cuts, coords[imax]);
    let seg = seg_sub_edges(coords[imax - 1], cuts, coords[imax]);
    let whole = noded_spec(coords, pts, imax);
    if imax == 1 {
        assert(noded_spec(coords, pts, 0) == Seq::<SubEdge>::empty());
        assert(whole == Seq::<SubEdge>::empty() + seg);
        assert(whole =~= seg);
        assert forall|i: int| 0 <= i < whole.len() - 1 implies
            (#[trigger] whole[i]).q == whole[i + 1].p by {
            assert(whole[i] == seg[i] && whole[i + 1] == seg[i + 1]);
        }
    } else {
        lemma_noded_chain(coords, pts, imax - 1);
        let prev = noded_spec(coords, pts, imax - 1);
        assert(whole == prev + seg);
        assert(whole[0] == prev[0]);
        assert(whole.last() == seg.last());
        assert forall|i: int| 0 <= i < whole.len() - 1 implies
            (#[trigger] whole[i]).q == whole[i + 1].p by {
            if i < prev.len() - 1 {
                assert(whole[i] == prev[i] && whole[i + 1] == prev[i + 1]);
            } else if i == prev.len() - 1 {
                assert(whole[i] == prev.last() && whole[i + 1] == seg[0]);
                assert(prev.last().q == coords[imax - 1] && seg[0].p == coords[imax - 1]);
            } else {
                assert(whole[i] == seg[i - prev.len()] && whole[i + 1] == seg[i + 1 - prev.len()]);
            }
        }
    }
}

/// Noding splits only where a recorded point lies strictly inside a
/// segment: when every recorded point coincides with an endpoint of its
/// segment, the noder returns exactly the original segments, so re-running
/// it on an already-noded edge set produces no further splits.
pub proof fn lemma_noding_idempotent(coords: Seq<Coord>, pts: Seq<IsectPt>, imax: int)
    requires
        forall|k: int| 0 <= k < pts.len() ==> 0 <= (#[trigger] pts[k]).seg < coords.len() - 1,
        forall|k: int| 0 <= k < pts.len() ==> ((#[trigger] pts[k]).coord == coords[pts[k].seg as int]
            || pts[k].coord == coords[pts[k].seg + 1]),
        0 <= imax <= coords.len() - 1,
    ensures
        noded_spec(coords, pts, imax).len() == imax,
        forall|i: int| 0 <= i < imax ==> noded_spec(coords, pts, imax)[i]
            == (SubEdge { p: coords[i], q: coords[i + 1] }),
    decreases imax,
{
    if imax > 0 {
        lemma_noding_idempotent(coords, pts, imax - 1);
        lemma_no_cuts(coords, pts, pts.len() as int, imax - 1);
    }
}

/// Helper: under the endpoint-only hypothesis no segment has cut points.
proof fn lemma_no_cuts(coords: Seq<Coord>, pts: Seq<IsectPt>, k: int, i: int)
    requires
        forall|m: int| 0 <= m < pts.len() ==> 0 <= (#[trigger] pts[m]).seg < coords.len() - 1,
        forall|m: int| 0 <= m < pts.len() ==> ((#[trigger] pts[m]).coord == coords[pts[m].seg as int]
            || pts[m].coord == coords[pts[m].seg + 1]),
        0 <= i < coords.len() - 1,
        k <= pts.len(),
    ensures
        cut_points(pts, k, i, coords[i], coords[i + 1]) =~= Seq::<Coord>::empty(),
    decreases k,
{
    if k > 0 {
        lemma_no_cuts(coords, pts, k - 1, i);
    }
}

} // verus!
