//! Fixed-point points and exact integer vector arithmetic.
//!
//! A coordinate is an integer count of `1 / SCALE` length units. All products
//! are formed in `i128`, so every geometric predicate below is exact.

use vstd::prelude::*;

verus! {

/// Fixed-point units per unit of length.
pub const SCALE: i64 = 1000000;

/// Largest magnitude a coordinate may have (`2^29` units).
pub const COORD_LIMIT: i64 = 536870912;

/// Geometric tolerance: lengths, areas and the like below `1e-6` (in length
/// units) count as zero. A plane normal `n = (b - a) x (c - a)` is in units of
/// `SCALE^2`, so it is degenerate when `|n|^2 < (1e-6 * SCALE^2)^2`.
pub const MIN_NORMAL2: u128 = 1000000000000;

/// The Gram determinant `(u.v)^2 - |u|^2 |v|^2` of two edges is in units of
/// `SCALE^4`; it counts as zero below `1e-6 * SCALE^4` in magnitude.
pub const MIN_GRAM: i128 = 1000000000000000000;

/// A point in space, in fixed-point units.
#[derive(Clone, Copy, Debug, PartialEq, Eq, Structural)]
pub struct Point3 {
    pub x: i64,
    pub y: i64,
    pub z: i64,
}

/// A vector with exact integer components, as used in contracts.
pub type Vect = (int, int, int);

/// An executable vector of wide components.
pub type WideVec = (i128, i128, i128);

pub open spec fn in_bounds(p: Point3) -> bool {
    -COORD_LIMIT <= p.x <= COORD_LIMIT && -COORD_LIMIT <= p.y <= COORD_LIMIT && -COORD_LIMIT
        <= p.z <= COORD_LIMIT
}

pub open spec fn all_in_bounds(pts: Seq<Point3>) -> bool {
    forall|i: int| 0 <= i < pts.len() ==> in_bounds(#[trigger] pts[i])
}

pub open spec fn bounded_by(v: WideVec, b: int) -> bool {
    -b <= v.0 <= b && -b <= v.1 <= b && -b <= v.2 <= b
}

pub open spec fn wide(v: WideVec) -> Vect {
    (v.0 as int, v.1 as int, v.2 as int)
}

pub open spec fn coords(p: Point3) -> Vect {
    (p.x as int, p.y as int, p.z as int)
}

pub open spec fn vsub(a: Vect, b: Vect) -> Vect {
    (a.0 - b.0, a.1 - b.1, a.2 - b.2)
}

pub open spec fn vadd(a: Vect, b: Vect) -> Vect {
    (a.0 + b.0, a.1 + b.1, a.2 + b.2)
}

pub open spec fn cross(a: Vect, b: Vect) -> Vect {
    (a.1 * b.2 - a.2 * b.1, a.2 * b.0 - a.0 * b.2, a.0 * b.1 - a.1 * b.0)
}

pub open spec fn dot(a: Vect, b: Vect) -> int {
    a.0 * b.0 + a.1 * b.1 + a.2 * b.2
}

pub open spec fn is_zero(a: Vect) -> bool {
    a.0 == 0 && a.1 == 0 && a.2 == 0
}

/// The vector from `q` to `p`.
pub open spec fn diff(p: Point3, q: Point3) -> Vect {
    vsub(coords(p), coords(q))
}

pub proof fn lemma_mul_bound(a: int, b: int, ba: int, bb: int)
    requires
        -ba <= a <= ba,
        -bb <= b <= bb,
    ensures
        -(ba * bb) <= a * b <= ba * bb,
{
    assert(-(ba * bb) <= a * b <= ba * bb) by (nonlinear_arith)
        requires
            -ba <= a <= ba,
            -bb <= b <= bb,
    ;
}

/// `p - q` with wide components.
pub fn point_diff(p: &Point3, q: &Point3) -> (r: WideVec)
    requires
        in_bounds(*p),
        in_bounds(*q),
    ensures
        wide(r) == diff(*p, *q),
        bounded_by(r, 2 * COORD_LIMIT),
{
    (p.x as i128 - q.x as i128, p.y as i128 - q.y as i128, p.z as i128 - q.z as i128)
}

/// The sum of three points, with wide components.
pub fn point_sum3(p: &Point3, q: &Point3, s: &Point3) -> (r: WideVec)
    requires
        in_bounds(*p),
        in_bounds(*q),
        in_bounds(*s),
    ensures
        wide(r) == vadd(vadd(coords(*p), coords(*q)), coords(*s)),
        bounded_by(r, 3 * COORD_LIMIT),
{
    (
        p.x as i128 + q.x as i128 + s.x as i128,
        p.y as i128 + q.y as i128 + s.y as i128,
        p.z as i128 + q.z as i128 + s.z as i128,
    )
}

/// The cross product of two vectors whose components are below `2^31` in magnitude.
pub fn cross3(a: WideVec, b: WideVec) -> (r: WideVec)
    requires
        bounded_by(a, 0x8000_0000),
        bounded_by(b, 0x8000_0000),
    ensures
        wide(r) == cross(wide(a), wide(b)),
        bounded_by(r, 0x8000_0000_0000_0000),
{
    proof {
        let m: int = 0x8000_0000;
        lemma_mul_bound(a.1 as int, b.2 as int, m, m);
        lemma_mul_bound(a.2 as int, b.1 as int, m, m);
        lemma_mul_bound(a.2 as int, b.0 as int, m, m);
        lemma_mul_bound(a.0 as int, b.2 as int, m, m);
        lemma_mul_bound(a.0 as int, b.1 as int, m, m);
        lemma_mul_bound(a.1 as int, b.0 as int, m, m);
    }
    (a.1 * b.2 - a.2 * b.1, a.2 * b.0 - a.0 * b.2, a.0 * b.1 - a.1 * b.0)
}

/// The dot product of a vector below `2^64` and one below `2^34` in magnitude.
pub fn dot3(a: WideVec, b: WideVec) -> (r: i128)
    requires
        bounded_by(a, 0x1_0000_0000_0000_0000),
        bounded_by(b, 0x4_0000_0000),
    ensures
        r == dot(wide(a), wide(b)),
        -0x10_0000_0000_0000_0000_0000_0000 <= r <= 0x10_0000_0000_0000_0000_0000_0000,
{
    proof {
        let ma: int = 0x1_0000_0000_0000_0000;
        let mb: int = 0x4_0000_0000;
        lemma_mul_bound(a.0 as int, b.0 as int, ma, mb);
        lemma_mul_bound(a.1 as int, b.1 as int, ma, mb);
        lemma_mul_bound(a.2 as int, b.2 as int, ma, mb);
    }
    a.0 * b.0 + a.1 * b.1 + a.2 * b.2
}

} // verus!
