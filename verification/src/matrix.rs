//! The DE-9IM intersection matrix and the named predicates derived from
//! it.
//!
//! Each cell holds the maximum dimension of the intersection of one
//! region of geometry A (interior, boundary, exterior) with one region of
//! geometry B: -1 for no intersection, else 0, 1 or 2. The matrix of the
//! swapped pair is the transpose. Every named predicate (intersects,
//! contains, touches, crosses, ...) is a pure function of the cells,
//! following the standard DE-9IM pattern semantics with `T` (non-empty),
//! `F` (empty), `*` (any) and explicit digits.

use vstd::prelude::*;
use crate::locate::Location;

verus! {

/// A 3x3 DE-9IM matrix; `ib` is the cell for (interior of A, boundary of
/// B), and so on.
#[derive(Clone, Copy, PartialEq, Eq, Structural, Debug)]
pub struct IntersectionMatrix {
    pub ii: i8,
    pub ib: i8,
    pub ie: i8,
    pub bi: i8,
    pub bb: i8,
    pub be: i8,
    pub ei: i8,
    pub eb: i8,
    pub ee: i8,
}

/// The cell for one pair of regions.
pub open spec fn cell(m: IntersectionMatrix, la: Location, lb: Location) -> int {
    match (la, lb) {
        (Location::Interior, Location::Interior) => m.ii as int,
        (Location::Interior, Location::Boundary) => m.ib as int,
        (Location::Interior, Location::Exterior) => m.ie as int,
        (Location::Boundary, Location::Interior) => m.bi as int,
        (Location::Boundary, Location::Boundary) => m.bb as int,
        (Location::Boundary, Location::Exterior) => m.be as int,
        (Location::Exterior, Location::Interior) => m.ei as int,
        (Location::Exterior, Location::Boundary) => m.eb as int,
        (Location::Exterior, Location::Exterior) => m.ee as int,
    }
}

/// Every cell within -1 ..= 2.
pub open spec fn wf_matrix(m: IntersectionMatrix) -> bool {
    -1 <= m.ii <= 2 && -1 <= m.ib <= 2 && -1 <= m.ie <= 2
        && -1 <= m.bi <= 2 && -1 <= m.bb <= 2 && -1 <= m.be <= 2
        && -1 <= m.ei <= 2 && -1 <= m.eb <= 2 && -1 <= m.ee <= 2
}

/// The matrix with every cell empty.
pub open spec fn empty_matrix() -> IntersectionMatrix {
    IntersectionMatrix {
        ii: -1i8, ib: -1i8, ie: -1i8, bi: -1i8, bb: -1i8, be: -1i8, ei: -1i8, eb: -1i8, ee: -1i8,
    }
}

/// The matrix with one cell raised to at least `d`.
pub open spec fn set_at_least(m: IntersectionMatrix, la: Location, lb: Location, d: int) -> IntersectionMatrix {
    if cell(m, la, lb) >= d {
        m
    } else {
        match (la, lb) {
            (Location::Interior, Location::Interior) => IntersectionMatrix { ii: d as i8, ..m },
            (Location::Interior, Location::Boundary) => IntersectionMatrix { ib: d as i8, ..m },
            (Location::Interior, Location::Exterior) => IntersectionMatrix { ie: d as i8, ..m },
            (Location::Boundary, Location::Interior) => IntersectionMatrix { bi: d as i8, ..m },
            (Location::Boundary, Location::Boundary) => IntersectionMatrix { bb: d as i8, ..m },
            (Location::Boundary, Location::Exterior) => IntersectionMatrix { be: d as i8, ..m },
            (Location::Exterior, Location::Interior) => IntersectionMatrix { ei: d as i8, ..m },
            (Location::Exterior, Location::Boundary) => IntersectionMatrix { eb: d as i8, ..m },
            (Location::Exterior, Location::Exterior) => IntersectionMatrix { ee: d as i8, ..m },
        }
    }
}

/// The transposed matrix: the matrix of the swapped pair.
pub open spec fn transpose_spec(m: IntersectionMatrix) -> IntersectionMatrix {
    IntersectionMatrix {
        ii: m.ii, ib: m.bi, ie: m.ei,
        bi: m.ib, bb: m.bb, be: m.eb,
        ei: m.ie, eb: m.be, ee: m.ee,
    }
}

/// The cellwise maximum of two matrices: the union of their witnesses.
pub open spec fn combine_spec(a: IntersectionMatrix, b: IntersectionMatrix) -> IntersectionMatrix {
    IntersectionMatrix {
        ii: if a.ii >= b.ii { a.ii } else { b.ii },
        ib: if a.ib >= b.ib { a.ib } else { b.ib },
        ie: if a.ie >= b.ie { a.ie } else { b.ie },
        bi: if a.bi >= b.bi { a.bi } else { b.bi },
        bb: if a.bb >= b.bb { a.bb } else { b.bb },
        be: if a.be >= b.be { a.be } else { b.be },
        ei: if a.ei >= b.ei { a.ei } else { b.ei },
        eb: if a.eb >= b.eb { a.eb } else { b.eb },
        ee: if a.ee >= b.ee { a.ee } else { b.ee },
    }
}

impl IntersectionMatrix {
    /// The matrix with every cell empty.
    pub fn new() -> (r: IntersectionMatrix)
        ensures
            r == empty_matrix(),
    {
        IntersectionMatrix { ii: -1, ib: -1, ie: -1, bi: -1, bb: -1, be: -1, ei: -1, eb: -1, ee: -1 }
    }

    /// The cell for one pair of regions.
    pub fn get(&self, la: Location, lb: Location) -> (r: i8)
        ensures
            r as int == cell(*self, la, lb),
    {
        match (la, lb) {
            (Location::Interior, Location::Interior) => self.ii,
            (Location::Interior, Location::Boundary) => self.ib,
            (Location::Interior, Location::Exterior) => self.ie,
            (Location::Boundary, Location::Interior) => self.bi,
            (Location::Boundary, Location::Boundary) => self.bb,
            (Location::Boundary, Location::Exterior) => self.be,
            (Location::Exterior, Location::Interior) => self.ei,
            (Location::Exterior, Location::Boundary) => self.eb,
            (Location::Exterior, Location::Exterior) => self.ee,
        }
    }

    /// Raise one cell to at least `d`.
    pub fn raise(&mut self, la: Location, lb: Location, d: i8)
        requires
            -1 <= d <= 2,
        ensures
            *final(self) == set_at_least(*old(self), la, lb, d as int),
    {
        let cur = self.get(la, lb);
        if cur < d {
            match (la, lb) {
                (Location::Interior, Location::Interior) => { self.ii = d; },
                (Location::Interior, Location::Boundary) => { self.ib = d; },
                (Location::Interior, Location::Exterior) => { self.ie = d; },
                (Location::Boundary, Location::Interior) => { self.bi = d; },
                (Location::Boundary, Location::Boundary) => { self.bb = d; },
                (Location::Boundary, Location::Exterior) => { self.be = d; },
                (Location::Exterior, Location::Interior) => { self.ei = d; },
                (Location::Exterior, Location::Boundary) => { self.eb = d; },
                (Location::Exterior, Location::Exterior) => { self.ee = d; },
            }
        }
    }

    /// The matrix of the swapped pair.
    pub fn transpose(&self) -> (r: IntersectionMatrix)
        ensures
            r == transpose_spec(*self),
    {
        IntersectionMatrix {
            ii: self.ii, ib: self.bi, ie: self.ei,
            bi: self.ib, bb: self.bb, be: self.eb,
            ei: self.ie, eb: self.be, ee: self.ee,
        }
    }

    /// The cellwise maximum with another matrix.
    pub fn combine(&self, o: &IntersectionMatrix) -> (r: IntersectionMatrix)
        ensures
            r == combine_spec(*self, *o),
    {
        IntersectionMatrix {
            ii: if self.ii >= o.ii { self.ii } else { o.ii },
            ib: if self.ib >= o.ib { self.ib } else { o.ib },
            ie: if self.ie >= o.ie { self.ie } else { o.ie },
            bi: if self.bi >= o.bi { self.bi } else { o.bi },
            bb: if self.bb >= o.bb { self.bb } else { o.bb },
            be: if self.be >= o.be { self.be } else { o.be },
            ei: if self.ei >= o.ei { self.ei } else { o.ei },
            eb: if self.eb >= o.eb { self.eb } else { o.eb },
            ee: if self.ee >= o.ee { self.ee } else { o.ee },
        }
    }

    /// Whether one cell value matches one pattern entry: `T` any
    /// non-empty, `F` empty, `*` anything, a digit the exact dimension.
    pub fn cell_matches(v: i8, pc: char) -> (r: bool)
        ensures
            r == pattern_cell(v as int, pc),
    {
        match pc {
            'T' => v >= 0,
            'F' => v == -1,
            '*' => true,
            '0' => v == 0,
            '1' => v == 1,
            '2' => v == 2,
            _ => false,
        }
    }

    /// Whether the matrix matches a 9-entry DE-9IM pattern given in row
    /// order (interior, boundary, exterior of A) x (same for B).
    pub fn matches_pattern(&self, pat: &Vec<char>) -> (r: bool)
        requires
            pat@.len() == 9,
        ensures
            r == matches_spec(*self, pat@),
    {
        Self::cell_matches(self.ii, pat[0]) && Self::cell_matches(self.ib, pat[1])
            && Self::cell_matches(self.ie, pat[2]) && Self::cell_matches(self.bi, pat[3])
            && Self::cell_matches(self.bb, pat[4]) && Self::cell_matches(self.be, pat[5])
            && Self::cell_matches(self.ei, pat[6]) && Self::cell_matches(self.eb, pat[7])
            && Self::cell_matches(self.ee, pat[8])
    }

    /// The two share no point.
    pub fn is_disjoint(&self) -> (r: bool)
        ensures
            r == disjoint_spec(*self),
    {
        self.ii == -1 && self.ib == -1 && self.bi == -1 && self.bb == -1
    }

    /// The two share at least one point.
    pub fn is_intersects(&self) -> (r: bool)
        ensures
            r == !disjoint_spec(*self),
    {
        !self.is_disjoint()
    }

    /// A lies within B.
    pub fn is_within(&self) -> (r: bool)
        ensures
            r == within_spec(*self),
    {
        self.ii != -1 && self.ie == -1 && self.be == -1
    }

    /// A contains B.
    pub fn is_contains(&self) -> (r: bool)
        ensures
            r == contains_spec(*self),
    {
        self.ii != -1 && self.ei == -1 && self.eb == -1
    }

    /// A covers B: every point of B lies in A.
    pub fn is_covers(&self) -> (r: bool)
        ensures
            r == covers_spec(*self),
    {
        (self.ii != -1 || self.ib != -1 || self.bi != -1 || self.bb != -1)
            && self.ei == -1 && self.eb == -1
    }

    /// A and B touch: they intersect, but only on their boundaries.
    pub fn is_touches(&self) -> (r: bool)
        ensures
            r == touches_spec(*self),
    {
        self.ii == -1 && (self.ib != -1 || self.bi != -1 || self.bb != -1)
    }

    /// A and B cross, for the given geometry dimensions.
    pub fn is_crosses(&self, dim_a: i8, dim_b: i8) -> (r: bool)
        ensures
            r == crosses_spec(*self, dim_a as int, dim_b as int),
    {
        if dim_a < dim_b {
            self.ii != -1 && self.ie != -1
        } else if dim_a > dim_b {
            self.ii != -1 && self.ei != -1
        } else if dim_a == 1 && dim_b == 1 {
            self.ii == 0
        } else {
            false
        }
    }

    /// A and B overlap, for the given geometry dimensions.
    pub fn is_overlaps(&self, dim_a: i8, dim_b: i8) -> (r: bool)
        ensures
            r == overlaps_spec(*self, dim_a as int, dim_b as int),
    {
        if dim_a != dim_b {
            false
        } else if dim_a == 1 {
            self.ii == 1 && self.ie != -1 && self.ei != -1
        } else {
            self.ii != -1 && self.ie != -1 && self.ei != -1
        }
    }

    /// A and B are topologically equal: same interior, same boundary.
    pub fn is_equals_topo(&self) -> (r: bool)
        ensures
            r == equals_spec(*self),
    {
        self.ii != -1 && self.ie == -1 && self.be == -1 && self.ei == -1 && self.eb == -1
    }
}

/// One pattern entry against one cell value.
pub open spec fn pattern_cell(v: int, pc: char) -> bool {
    match pc {
        'T' => v >= 0,
        'F' => v == -1,
        '*' => true,
        '0' => v == 0,
        '1' => v == 1,
        '2' => v == 2,
        _ => false,
    }
}

/// The whole 9-entry pattern against the matrix, in row order.
pub open spec fn matches_spec(m: IntersectionMatrix, pat: Seq<char>) -> bool {
    pattern_cell(m.ii as int, pat[0]) && pattern_cell(m.ib as int, pat[1])
        && pattern_cell(m.ie as int, pat[2]) && pattern_cell(m.bi as int, pat[3])
        && pattern_cell(m.bb as int, pat[4]) && pattern_cell(m.be as int, pat[5])
        && pattern_cell(m.ei as int, pat[6]) && pattern_cell(m.eb as int, pat[7])
        && pattern_cell(m.ee as int, pat[8])
}

/// No interior or boundary of one meets interior or boundary of the other.
pub open spec fn disjoint_spec(m: IntersectionMatrix) -> bool {
    m.ii == -1 && m.ib == -1 && m.bi == -1 && m.bb == -1
}

/// A lies within B: interiors meet and A reaches nowhere outside B.
pub open spec fn within_spec(m: IntersectionMatrix) -> bool {
    m.ii != -1 && m.ie == -1 && m.be == -1
}

/// A contains B.
pub open spec fn contains_spec(m: IntersectionMatrix) -> bool {
    m.ii != -1 && m.ei == -1 && m.eb == -1
}

/// A covers B.
pub open spec fn covers_spec(m: IntersectionMatrix) -> bool {
    (m.ii != -1 || m.ib != -1 || m.bi != -1 || m.bb != -1) && m.ei == -1 && m.eb == -1
}

/// A and B touch without sharing interior points.
pub open spec fn touches_spec(m: IntersectionMatrix) -> bool {
    m.ii == -1 && (m.ib != -1 || m.bi != -1 || m.bb != -1)
}

/// A and B cross: interiors meet and each reaches outside the other, in
/// the dimension-dependent DE-9IM sense.
pub open spec fn crosses_spec(m: IntersectionMatrix, dim_a: int, dim_b: int) -> bool {
    if dim_a < dim_b {
        m.ii != -1 && m.ie != -1
    } else if dim_a > dim_b {
        m.ii != -1 && m.ei != -1
    } else if dim_a == 1 && dim_b == 1 {
        m.ii == 0
    } else {
        false
    }
}

/// A and B overlap: equal dimension, interiors meet, each reaches outside
/// the other.
pub open spec fn overlaps_spec(m: IntersectionMatrix, dim_a: int, dim_b: int) -> bool {
    if dim_a != dim_b {
        false
    } else if dim_a == 1 {
        m.ii == 1 && m.ie != -1 && m.ei != -1
    } else {
        m.ii != -1 && m.ie != -1 && m.ei != -1
    }
}

/// A and B are topologically equal.
pub open spec fn equals_spec(m: IntersectionMatrix) -> bool {
    m.ii != -1 && m.ie == -1 && m.be == -1 && m.ei == -1 && m.eb == -1
}

/// Transposition is an involution.
pub proof fn lemma_transpose_involutive(m: IntersectionMatrix)
    ensures
        transpose_spec(transpose_spec(m)) == m,
{
}

/// Transposition distributes over the cellwise maximum.
pub proof fn lemma_transpose_combine(a: IntersectionMatrix, b: IntersectionMatrix)
    ensures
        transpose_spec(combine_spec(a, b)) == combine_spec(transpose_spec(a), transpose_spec(b)),
        combine_spec(a, b) == combine_spec(b, a),
{
}

} // verus!
