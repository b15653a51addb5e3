//! Convex hull triangulation from vertex positions alone.
//!
//! Every triple of distinct vertices is tried as a facet: it is kept when its
//! plane is well defined (the triangle's normal is at least `1e-6` long) and no
//! two points lie on opposite sides of it farther than `1e-6` from it. The
//! tolerance tests are exact integer comparisons in fixed-point units.

use vstd::prelude::*;
use crate::geometry::{
    Point3, Vect, all_in_bounds, bounded_by, coords, cross, cross3, diff, dot, dot3, in_bounds,
    is_zero, point_diff, point_sum3, vadd, wide,
};
use crate::solids::VertexId;
use crate::geometry::MIN_NORMAL2;
use crate::view::{is_floor_sqrt, isqrt, lemma_sqrt_compare, norm2, norm2_wide};

verus! {

/// Positions of the vertices of one solid, indexed by vertex id.
pub type Locations = Vec<Point3>;

/// Three vertex ids; their order gives the facet's winding.
pub type Triangle = [VertexId; 3];

pub type Triangles = Vec<Triangle>;

/// The sorted ids of a triangle whose first id is its smallest.
pub open spec fn key(t: Triangle) -> (int, int, int) {
    if t[1] < t[2] {
        (t[0] as int, t[1] as int, t[2] as int)
    } else {
        (t[0] as int, t[2] as int, t[1] as int)
    }
}

pub open spec fn sorted_triple(k: (int, int, int), n: int) -> bool {
    0 <= k.0 < k.1 < k.2 < n
}

/// Lexicographic order of id triples.
pub open spec fn lex_before(p: (int, int, int), q: (int, int, int)) -> bool {
    p.0 < q.0 || (p.0 == q.0 && (p.1 < q.1 || (p.1 == q.1 && p.2 < q.2)))
}

/// Normal of the plane through points `i`, `j`, `k` (in that winding).
pub open spec fn plane_normal(pts: Seq<Point3>, k: (int, int, int)) -> Vect {
    cross(diff(pts[k.1], pts[k.0]), diff(pts[k.2], pts[k.0]))
}

/// Signed volume of point `l` against the plane of `k`.
pub open spec fn side(pts: Seq<Point3>, k: (int, int, int), l: int) -> int {
    dot(plane_normal(pts, k), diff(pts[l], pts[k.0]))
}

/// Point `l` lies farther than `1e-6` from the plane of `k`: its distance
/// `side / |n|` in fixed-point units exceeds 1, that is `side^2 > |n|^2`.
pub open spec fn off_plane(pts: Seq<Point3>, k: (int, int, int), l: int) -> bool {
    side(pts, k, l) * side(pts, k, l) > norm2(plane_normal(pts, k))
}

pub open spec fn beyond_below(pts: Seq<Point3>, k: (int, int, int), l: int) -> bool {
    side(pts, k, l) < 0 && off_plane(pts, k, l)
}

pub open spec fn beyond_above(pts: Seq<Point3>, k: (int, int, int), l: int) -> bool {
    side(pts, k, l) > 0 && off_plane(pts, k, l)
}

/// The triple spans a plane (normal at least `1e-6` long), and no two points
/// lie beyond the tolerance on opposite sides of it.
pub open spec fn is_hull_facet(pts: Seq<Point3>, k: (int, int, int)) -> bool {
    &&& norm2(plane_normal(pts, k)) >= MIN_NORMAL2
    &&& !((exists|l: int| 0 <= l < pts.len() && #[trigger] beyond_below(pts, k, l)) && (exists|
        l: int,
    |
        0 <= l < pts.len() && #[trigger] beyond_above(pts, k, l)))
}

/// The plane normal of the winding `k` does not point towards the origin, as
/// seen from the triangle's centroid.
pub open spec fn faces_outward(pts: Seq<Point3>, k: (int, int, int)) -> bool {
    dot(plane_normal(pts, k), vadd(vadd(coords(pts[k.0]), coords(pts[k.1])), coords(pts[k.2]))) >= 0
}

/// A triangle as emitted for the sorted triple `key(t)`: smallest id first,
/// the other two swapped exactly when the sorted winding faces inward.
pub open spec fn emitted_facet(pts: Seq<Point3>, t: Triangle) -> bool {
    &&& sorted_triple(key(t), pts.len() as int)
    &&& is_hull_facet(pts, key(t))
    &&& (t[1] < t[2]) == faces_outward(pts, key(t))
}

/// The hull triangles of `pts`: each a facet emitted for its sorted triple,
/// every facet present, in strictly increasing lexicographic order of sorted triples.
pub open spec fn is_hull_of(pts: Seq<Point3>, r: Seq<Triangle>) -> bool {
    &&& forall|m: int| 0 <= m < r.len() ==> emitted_facet(pts, #[trigger] r[m])
    &&& forall|m1: int, m2: int|
        0 <= m1 < m2 < r.len() ==> lex_before(key(#[trigger] r[m1]), key(#[trigger] r[m2]))
    &&& forall|k: (int, int, int)|
        sorted_triple(k, pts.len() as int) && #[trigger] is_hull_facet(pts, k) ==> exists|m: int|
            0 <= m < r.len() && key(#[trigger] r[m]) == k
}

/// Tests the sorted triple `(i, j, k)`: whether it is a hull facet, and whether
/// its winding `i, j, k` faces outward.
fn facet_test(locations: &Locations, i: usize, j: usize, k: usize) -> (r: (bool, bool))
    requires
        all_in_bounds(locations@),
        i < locations.len(),
        j < locations.len(),
        k < locations.len(),
    ensures
        r.0 == is_hull_facet(locations@, (i as int, j as int, k as int)),
        r.1 == faces_outward(locations@, (i as int, j as int, k as int)),
{
    let ghost pts = locations@;
    let ghost tri = (i as int, j as int, k as int);
    let pi = locations[i];
    let pj = locations[j];
    let pk = locations[k];
    assert(in_bounds(pi) && in_bounds(pj) && in_bounds(pk));
    let nrm = cross3(point_diff(&pj, &pi), point_diff(&pk, &pi));
    let outward = dot3(nrm, point_sum3(&pi, &pj, &pk)) >= 0;
    let n2 = norm2_wide(nrm);
    let degenerate = n2 < MIN_NORMAL2;
    let r = isqrt(n2);
    let n = locations.len();
    let mut has_neg = false;
    let mut has_pos = false;
    let mut l: usize = 0;
    while l < n && !(has_neg && has_pos)
        invariant
            pts == locations@,
            n == pts.len(),
            all_in_bounds(pts),
            in_bounds(pi),
            pi == pts[tri.0],
            wide(nrm) == plane_normal(pts, tri),
            bounded_by(nrm, 0x8000_0000_0000_0000),
            n2 == norm2(plane_normal(pts, tri)),
            is_floor_sqrt(r as int, n2 as int),
            l <= n,
            has_neg == exists|l2: int| 0 <= l2 < l && #[trigger] beyond_below(pts, tri, l2),
            has_pos == exists|l2: int| 0 <= l2 < l && #[trigger] beyond_above(pts, tri, l2),
        decreases n - l,
    {
        let pl = locations[l];
        assert(in_bounds(pl));
        let d = dot3(nrm, point_diff(&pl, &pi));
        assert(d == side(pts, tri, l as int));
        let ad: u128 = if d < 0 {
            (-d) as u128
        } else {
            d as u128
        };
        proof {
            lemma_sqrt_compare(ad as int, n2 as int, r as int);
            assert(ad * ad == d * d) by (nonlinear_arith)
                requires
                    ad == d || ad == -d,
            ;
        }
        let off = ad > r;
        assert(off == off_plane(pts, tri, l as int));
        assert(beyond_below(pts, tri, l as int) == (d < 0 && off));
        assert(beyond_above(pts, tri, l as int) == (d > 0 && off));
        if d < 0 && off {
            has_neg = true;
        }
        if d > 0 && off {
            has_pos = true;
        }
        l = l + 1;
    }
    (!degenerate && !(has_neg && has_pos), outward)
}

/// The convex hull facets of the points, each wound outward, each sorted
/// vertex triple at most once.
pub fn hull_triangles(locations: &Locations) -> (r: Triangles)
    requires
        all_in_bounds(locations@),
    ensures
        is_hull_of(locations@, r@),
{
    let ghost pts = locations@;
    let n = locations.len();
    let mut tris: Triangles = Vec::new();
    let mut a: usize = 0;
    while a < n
        invariant
            pts == locations@,
            n == pts.len(),
            all_in_bounds(pts),
            a <= n,
            forall|m: int| 0 <= m < tris@.len() ==> emitted_facet(pts, #[trigger] tris@[m]),
            forall|m1: int, m2: int|
                0 <= m1 < m2 < tris@.len() ==> lex_before(
                    key(#[trigger] tris@[m1]),
                    key(#[trigger] tris@[m2]),
                ),
            forall|m: int| 0 <= m < tris@.len() ==> (#[trigger] key(tris@[m])).0 < a,
            forall|t: (int, int, int)|
                sorted_triple(t, n as int) && t.0 < a && #[trigger] is_hull_facet(pts, t)
                    ==> exists|m: int| 0 <= m < tris@.len() && key(#[trigger] tris@[m]) == t,
        decreases n - a,
    {
        let mut b: usize = a + 1;
        while b < n
            invariant
                pts == locations@,
                n == pts.len(),
                all_in_bounds(pts),
                a < n,
                a < b <= n,
                forall|m: int| 0 <= m < tris@.len() ==> emitted_facet(pts, #[trigger] tris@[m]),
                forall|m1: int, m2: int|
                    0 <= m1 < m2 < tris@.len() ==> lex_before(
                        key(#[trigger] tris@[m1]),
                        key(#[trigger] tris@[m2]),
                    ),
                forall|m: int|
                    0 <= m < tris@.len() ==> lex_before(
                        #[trigger] key(tris@[m]),
                        (a as int, b as int, b as int),
                    ),
                forall|t: (int, int, int)|
                    sorted_triple(t, n as int) && lex_before(t, (a as int, b as int, b as int))
                        && #[trigger] is_hull_facet(pts, t) ==> exists|m: int|
                        0 <= m < tris@.len() && key(#[trigger] tris@[m]) == t,
            decreases n - b,
        {
            let mut c: usize = b + 1;
            while c < n
                invariant
                    pts == locations@,
                    n == pts.len(),
                    all_in_bounds(pts),
                    a < b < n,
                    b < c <= n,
                    forall|m: int|
                        0 <= m < tris@.len() ==> emitted_facet(pts, #[trigger] tris@[m]),
                    forall|m1: int, m2: int|
                        0 <= m1 < m2 < tris@.len() ==> lex_before(
                            key(#[trigger] tris@[m1]),
                            key(#[trigger] tris@[m2]),
                        ),
                    forall|m: int|
                        0 <= m < tris@.len() ==> lex_before(
                            #[trigger] key(tris@[m]),
                            (a as int, b as int, c as int),
                        ),
                    forall|t: (int, int, int)|
                        sorted_triple(t, n as int) && lex_before(t, (a as int, b as int, c as int))
                            && #[trigger] is_hull_facet(pts, t) ==> exists|m: int|
                            0 <= m < tris@.len() && key(#[trigger] tris@[m]) == t,
                decreases n - c,
            {
                let (facet, outward) = facet_test(locations, a, b, c);
                if facet {
                    let tri: Triangle = if outward {
                        [a, b, c]
                    } else {
                        [a, c, b]
                    };
                    assert(key(tri) == (a as int, b as int, c as int));
                    let ghost old_tris = tris@;
                    tris.push(tri);
                    assert(tris@[old_tris.len() as int] == tri);
                    assert forall|m: int| 0 <= m < old_tris.len() implies tris@[m] == old_tris[m] by {}
                }
                c = c + 1;
            }
            b = b + 1;
        }
        a = a + 1;
    }
    tris
}

proof fn lemma_emitted_key_determines(pts: Seq<Point3>, t1: Triangle, t2: Triangle)
    requires
        emitted_facet(pts, t1),
        emitted_facet(pts, t2),
        key(t1) == key(t2),
    ensures
        t1 == t2,
{
    assert(t1 =~= t2);
}

proof fn lemma_hull_prefix(pts: Seq<Point3>, r1: Seq<Triangle>, r2: Seq<Triangle>, m: int)
    requires
        is_hull_of(pts, r1),
        is_hull_of(pts, r2),
        0 <= m <= r1.len(),
        m <= r2.len(),
    ensures
        forall|p: int| 0 <= p < m ==> r1[p] == r2[p],
    decreases m,
{
    if m > 0 {
        let i = m - 1;
        lemma_hull_prefix(pts, r1, r2, i);
        let k1 = key(r1[i]);
        let k2 = key(r2[i]);
        assert(emitted_facet(pts, r1[i]));
        assert(emitted_facet(pts, r2[i]));
        let p = choose|p: int| 0 <= p < r2.len() && key(#[trigger] r2[p]) == k1;
        let q = choose|q: int| 0 <= q < r1.len() && key(#[trigger] r1[q]) == k2;
        if p < i {
            assert(r1[p] == r2[p]);
            assert(lex_before(key(r1[p]), key(r1[i])));
        }
        if q < i {
            assert(r1[q] == r2[q]);
            assert(lex_before(key(r2[q]), key(r2[i])));
        }
        if p > i {
            assert(lex_before(key(r2[i]), key(r2[p])));
            if q > i {
                assert(lex_before(key(r1[i]), key(r1[q])));
            }
        }
        assert(p == i);
        lemma_emitted_key_determines(pts, r1[i], r2[i]);
    }
}

/// Triangulating the same positions twice gives the same triangles, in the same
/// order and with the same windings.
pub proof fn lemma_hull_idempotent(pts: Seq<Point3>, r1: Seq<Triangle>, r2: Seq<Triangle>)
    requires
        is_hull_of(pts, r1),
        is_hull_of(pts, r2),
    ensures
        r1 == r2,
{
    if r1.len() <= r2.len() {
        lemma_hull_prefix(pts, r1, r2, r1.len() as int);
        if r1.len() < r2.len() {
            let t = r2[r1.len() as int];
            assert(emitted_facet(pts, t));
            let p = choose|p: int| 0 <= p < r1.len() && key(#[trigger] r1[p]) == key(t);
            assert(r1[p] == r2[p]);
            assert(lex_before(key(r2[p]), key(r2[r1.len() as int])));
        }
    } else {
        lemma_hull_prefix(pts, r1, r2, r2.len() as int);
        let t = r1[r2.len() as int];
        assert(emitted_facet(pts, t));
        let p = choose|p: int| 0 <= p < r2.len() && key(#[trigger] r2[p]) == key(t);
        assert(r1[p] == r2[p]);
        assert(lex_before(key(r1[p]), key(r1[r2.len() as int])));
    }
    assert(r1 =~= r2);
}

} // verus!
