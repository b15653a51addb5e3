//! A triangulated solid: vertex positions with hull triangles, and the
//! ray-triangle test used to draw it. A triangle is skipped when the ray is
//! within the tolerance of parallel to its plane, or when it is nearly
//! degenerate; all tests are exact integer comparisons in fixed-point units.

use vstd::prelude::*;
use crate::geometry::{
    Point3, Vect, all_in_bounds, coords, cross, cross3, diff, dot, dot3, in_bounds, point_diff,
};
use crate::hull::{Locations, Triangle, Triangles};
use crate::geometry::{COORD_LIMIT, MIN_GRAM, MIN_NORMAL2, WideVec, bounded_by, lemma_mul_bound, wide};
use crate::view::{Draw, is_floor_sqrt, isqrt, lemma_norm2_zero, lemma_sqrt_compare, norm2, norm2_wide};

verus! {

pub struct Solid {
    pub locations: Locations,
    pub triangles: Triangles,
}

/// Every vertex id of every triangle names a position.
pub open spec fn triangles_in_range(tris: Seq<Triangle>, n: int) -> bool {
    forall|m: int, c: int| 0 <= m < tris.len() && 0 <= c < 3 ==> (#[trigger] tris[m][c]) < n
}

/// Signed volume spanned by `a`, `b` and the direction `d`.
pub open spec fn triple(a: Vect, b: Vect, d: Vect) -> int {
    dot(cross(a, b), d)
}

/// The Gram determinant `(u.v)^2 - |u|^2 |v|^2` of two edge vectors.
pub open spec fn gram(u: Vect, v: Vect) -> int {
    dot(u, v) * dot(u, v) - norm2(u) * norm2(v)
}

/// The ray `s + r d`, `r >= 0`, meets the closed triangle `(p0, p1, p2)`:
/// - the ray is not parallel to the plane within the tolerance: with `n` in
///   units of `SCALE^2` and `d` of any length, `|n . d / |d|| >= 1e-6 * SCALE^2`,
///   that is `(n . d)^2 >= MIN_NORMAL2 * |d|^2`;
/// - the plane is not behind the source;
/// - the triangle is not degenerate: `|gram(u, v)| >= MIN_GRAM`;
/// - the three edges, seen along the ray, all turn the same way.
pub open spec fn ray_hits(p0: Point3, p1: Point3, p2: Point3, s: Point3, d: Vect) -> bool {
    let u = diff(p1, p0);
    let v = diff(p2, p0);
    let n = cross(u, v);
    let den = dot(n, d);
    let num = dot(n, diff(p0, s));
    let e0 = triple(diff(p0, s), diff(p1, s), d);
    let e1 = triple(diff(p1, s), diff(p2, s), d);
    let e2 = triple(diff(p2, s), diff(p0, s), d);
    &&& den != 0
    &&& den * den >= MIN_NORMAL2 * norm2(d)
    &&& (num == 0 || (num > 0) == (den > 0))
    &&& (gram(u, v) >= MIN_GRAM || gram(u, v) <= -MIN_GRAM)
    &&& ((e0 >= 0 && e1 >= 0 && e2 >= 0) || (e0 <= 0 && e1 <= 0 && e2 <= 0))
}

pub open spec fn ray_hits_triangle(pts: Seq<Point3>, t: Triangle, s: Point3, d: Vect) -> bool {
    ray_hits(pts[t[0] as int], pts[t[1] as int], pts[t[2] as int], s, d)
}

impl Solid {
    pub open spec fn well_formed(&self) -> bool {
        &&& all_in_bounds(self.locations@)
        &&& triangles_in_range(self.triangles@, self.locations@.len() as int)
    }
}

/// The dot product of two edge vectors, with its bound.
fn edge_dot(u: WideVec, v: WideVec) -> (r: i128)
    requires
        bounded_by(u, 2 * COORD_LIMIT),
        bounded_by(v, 2 * COORD_LIMIT),
    ensures
        r == dot(wide(u), wide(v)),
        -3 * 0x1000_0000_0000_0000 <= r <= 3 * 0x1000_0000_0000_0000,
{
    proof {
        let m: int = 0x4000_0000;
        lemma_mul_bound(u.0 as int, v.0 as int, m, m);
        lemma_mul_bound(u.1 as int, v.1 as int, m, m);
        lemma_mul_bound(u.2 as int, v.2 as int, m, m);
    }
    u.0 * v.0 + u.1 * v.1 + u.2 * v.2
}

/// The Gram determinant of two edge vectors.
fn gram_of(u: WideVec, v: WideVec) -> (r: i128)
    requires
        bounded_by(u, 2 * COORD_LIMIT),
        bounded_by(v, 2 * COORD_LIMIT),
    ensures
        r == gram(wide(u), wide(v)),
{
    let uv = edge_dot(u, v);
    let uu = edge_dot(u, u);
    let vv = edge_dot(v, v);
    proof {
        let m: int = 3 * 0x1000_0000_0000_0000int;
        lemma_mul_bound(uv as int, uv as int, m, m);
        lemma_mul_bound(uu as int, vv as int, m, m);
    }
    uv * uv - uu * vv
}

/// Whether the ray from `s` along `d` meets the closed triangle `(p0, p1, p2)`.
fn ray_meets_triangle(p0: &Point3, p1: &Point3, p2: &Point3, s: &Point3, d: &Point3) -> (r: bool)
    requires
        in_bounds(*p0),
        in_bounds(*p1),
        in_bounds(*p2),
        in_bounds(*s),
        in_bounds(*d),
    ensures
        r == ray_hits(*p0, *p1, *p2, *s, coords(*d)),
{
    let dir = (d.x as i128, d.y as i128, d.z as i128);
    let u = point_diff(p1, p0);
    let v = point_diff(p2, p0);
    let nrm = cross3(u, v);
    let den = dot3(nrm, dir);
    if den == 0 {
        return false;
    }
    let d2 = norm2_wide(dir);
    proof {
        lemma_norm2_zero(wide(dir));
        let m = COORD_LIMIT as int;
        lemma_mul_bound(dir.0 as int, dir.0 as int, m, m);
        lemma_mul_bound(dir.1 as int, dir.1 as int, m, m);
        lemma_mul_bound(dir.2 as int, dir.2 as int, m, m);
    }
    let lim = MIN_NORMAL2 * d2 - 1;
    let root = isqrt(lim);
    let aden: u128 = if den < 0 {
        (-den) as u128
    } else {
        den as u128
    };
    proof {
        lemma_sqrt_compare(aden as int, lim as int, root as int);
        assert(aden * aden == den * den) by (nonlinear_arith)
            requires
                aden == den || aden == -den,
        ;
    }
    if aden <= root {
        return false;
    }
    let g = gram_of(u, v);
    if g < MIN_GRAM && g > -MIN_GRAM {
        return false;
    }
    let num = dot3(nrm, point_diff(p0, s));
    if num != 0 && (num > 0) != (den > 0) {
        return false;
    }
    let a0 = point_diff(p0, s);
    let a1 = point_diff(p1, s);
    let a2 = point_diff(p2, s);
    let e0 = dot3(cross3(a0, a1), dir);
    let e1 = dot3(cross3(a1, a2), dir);
    let e2 = dot3(cross3(a2, a0), dir);
    (e0 >= 0 && e1 >= 0 && e2 >= 0) || (e0 <= 0 && e1 <= 0 && e2 <= 0)
}

impl Draw for Solid {
    open spec fn drawable(&self) -> bool {
        self.well_formed()
    }

    open spec fn hit(&self, ray_source: Point3, ray_direction: Point3) -> bool {
        exists|m: int|
            0 <= m < self.triangles@.len() && #[trigger] ray_hits_triangle(
                self.locations@,
                self.triangles@[m],
                ray_source,
                coords(ray_direction),
            )
    }

    fn intersect(&self, ray_source: Point3, ray_direction: Point3) -> (r: bool) {
        let mut m: usize = 0;
        while m < self.triangles.len()
            invariant
                self.well_formed(),
                in_bounds(ray_source),
                in_bounds(ray_direction),
                m <= self.triangles@.len(),
                forall|m2: int|
                    0 <= m2 < m ==> !#[trigger] ray_hits_triangle(
                        self.locations@,
                        self.triangles@[m2],
                        ray_source,
                        coords(ray_direction),
                    ),
            decreases self.triangles.len() - m,
        {
            let t = self.triangles[m];
            assert(t[0] < self.locations@.len() && t[1] < self.locations@.len() && t[2]
                < self.locations@.len()) by {
                assert(self.triangles@[m as int][0] == t[0]);
                assert(self.triangles@[m as int][1] == t[1]);
                assert(self.triangles@[m as int][2] == t[2]);
            }
            let p0 = self.locations[t[0]];
            let p1 = self.locations[t[1]];
            let p2 = self.locations[t[2]];
            if ray_meets_triangle(&p0, &p1, &p2, &ray_source, &ray_direction) {
                assert(ray_hits_triangle(
                    self.locations@,
                    self.triangles@[m as int],
                    ray_source,
                    coords(ray_direction),
                ));
                return true;
            }
            m = m + 1;
        }
        false
    }
}

} // verus!
