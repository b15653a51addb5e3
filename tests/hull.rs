use platonic::geometry::{Point3, SCALE};
use platonic::hull::hull_triangles;
use std::collections::BTreeSet;

fn p(x: f64, y: f64, z: f64) -> Point3 {
    let s = SCALE as f64;
    Point3 { x: (x * s).round() as i64, y: (y * s).round() as i64, z: (z * s).round() as i64 }
}

fn sorted(t: &[usize; 3]) -> [usize; 3] {
    let mut k = *t;
    k.sort();
    k
}

fn outward(pts: &[Point3], t: &[usize; 3]) -> i128 {
    let d = |a: &Point3, b: &Point3| {
        [(a.x - b.x) as i128, (a.y - b.y) as i128, (a.z - b.z) as i128]
    };
    let u = d(&pts[t[1]], &pts[t[0]]);
    let v = d(&pts[t[2]], &pts[t[0]]);
    let n = [u[1] * v[2] - u[2] * v[1], u[2] * v[0] - u[0] * v[2], u[0] * v[1] - u[1] * v[0]];
    let c = [
        (pts[t[0]].x + pts[t[1]].x + pts[t[2]].x) as i128,
        (pts[t[0]].y + pts[t[1]].y + pts[t[2]].y) as i128,
        (pts[t[0]].z + pts[t[1]].z + pts[t[2]].z) as i128,
    ];
    n[0] * c[0] + n[1] * c[1] + n[2] * c[2]
}

fn tetrahedron() -> Vec<Point3> {
    vec![p(1.0, 1.0, 1.0), p(1.0, -1.0, -1.0), p(-1.0, 1.0, -1.0), p(-1.0, -1.0, 1.0)]
}

#[test]
fn regular_tetrahedron_has_four_facets() {
    let pts = tetrahedron();
    let tris = hull_triangles(&pts);
    assert_eq!(tris.len(), 4);
    let keys: BTreeSet<[usize; 3]> = tris.iter().map(sorted).collect();
    assert_eq!(keys.len(), 4);
    for v in 0..4 {
        assert!(tris.iter().any(|t| t.contains(&v)));
    }
    for t in tris.iter() {
        assert!(outward(&pts, t) > 0);
    }
}

#[test]
fn tetrahedron_exact_triangles() {
    let tris = hull_triangles(&tetrahedron());
    assert_eq!(tris, vec![[0, 1, 2], [0, 3, 1], [0, 2, 3], [1, 3, 2]]);
}

#[test]
fn hull_twice_gives_same_triangles() {
    let pts = vec![
        p(0.9, 0.1, 0.2),
        p(-0.8, 0.3, 0.1),
        p(0.1, -0.7, 0.4),
        p(0.2, 0.5, -0.9),
        p(-0.1, -0.2, 0.8),
        p(0.05, 0.02, -0.01),
    ];
    let a = hull_triangles(&pts);
    let b = hull_triangles(&pts);
    assert_eq!(a, b);
    let ka: BTreeSet<[usize; 3]> = a.iter().map(sorted).collect();
    let kb: BTreeSet<[usize; 3]> = b.iter().map(sorted).collect();
    assert_eq!(ka, kb);
}

#[test]
fn interior_point_is_left_out() {
    let mut pts = tetrahedron();
    pts.push(p(0.0, 0.0, 0.0));
    let tris = hull_triangles(&pts);
    assert_eq!(tris.len(), 4);
    assert!(tris.iter().all(|t| !t.contains(&4)));
}

#[test]
fn perturbed_cube_has_twelve_facets() {
    let corners = [
        (-1.0, -1.0, -1.0),
        (1.0, -1.0, -1.0),
        (1.0, 1.0, -1.0),
        (-1.0, 1.0, -1.0),
        (-1.0, -1.0, 1.0),
        (1.0, -1.0, 1.0),
        (1.0, 1.0, 1.0),
        (-1.0, 1.0, 1.0),
    ];
    let jitter = [0.013, -0.021, 0.017, -0.009, 0.024, -0.015, 0.011, -0.019];
    let pts: Vec<Point3> = corners
        .iter()
        .enumerate()
        .map(|(i, &(x, y, z))| {
            let j = jitter[i];
            p(x + j, y - 0.7 * j, z + 0.4 * j)
        })
        .collect();
    let tris = hull_triangles(&pts);
    assert_eq!(tris.len(), 12);
    for v in 0..8 {
        assert!(tris.iter().any(|t| t.contains(&v)));
    }
    for t in tris.iter() {
        assert!(outward(&pts, t) > 0);
    }
}

#[test]
fn exact_cube_keeps_every_coplanar_triple() {
    let mut pts = Vec::new();
    for &x in &[-1.0, 1.0] {
        for &y in &[-1.0, 1.0] {
            for &z in &[-1.0, 1.0] {
                pts.push(p(x, y, z));
            }
        }
    }
    // Four coplanar corners per face: each of the four triples of a face is a facet.
    assert_eq!(hull_triangles(&pts).len(), 24);
}

#[test]
fn degenerate_inputs_give_no_triangles() {
    assert!(hull_triangles(&Vec::new()).is_empty());
    assert!(hull_triangles(&vec![p(0.0, 0.0, 0.0), p(1.0, 0.0, 0.0)]).is_empty());
    let line = vec![p(0.0, 0.0, 0.0), p(1.0, 1.0, 1.0), p(2.0, 2.0, 2.0), p(3.0, 3.0, 3.0)];
    assert!(hull_triangles(&line).is_empty());
}

#[test]
fn flat_square_keeps_all_triples() {
    let pts = vec![p(0.0, 0.0, 0.0), p(1.0, 0.0, 0.0), p(1.0, 1.0, 0.0), p(0.0, 1.0, 0.0)];
    assert_eq!(hull_triangles(&pts).len(), 4);
}

#[test]
fn tiny_triangle_is_skipped() {
    // Three points one fixed-point unit apart: the normal is far below 1e-6 long.
    let pts = vec![
        Point3 { x: 0, y: 0, z: 0 },
        Point3 { x: 1, y: 0, z: 0 },
        Point3 { x: 0, y: 1, z: 0 },
    ];
    assert!(hull_triangles(&pts).is_empty());
}

#[test]
fn points_within_tolerance_of_a_face_keep_it() {
    // One point exactly 1e-6 above the plane of the first three, one exactly 1e-6
    // below: neither is beyond the tolerance, so the face stays.
    let pts = vec![
        p(0.0, 0.0, 0.0),
        p(1.0, 0.0, 0.0),
        p(0.0, 1.0, 0.0),
        Point3 { x: 200_000, y: 200_000, z: 1 },
        Point3 { x: 300_000, y: 300_000, z: -1 },
    ];
    let keys: BTreeSet<[usize; 3]> = hull_triangles(&pts).iter().map(sorted).collect();
    assert!(keys.contains(&[0, 1, 2]));
}

#[test]
fn points_beyond_tolerance_on_both_sides_drop_the_face() {
    let pts = vec![
        p(0.0, 0.0, 0.0),
        p(1.0, 0.0, 0.0),
        p(0.0, 1.0, 0.0),
        Point3 { x: 200_000, y: 200_000, z: 2 },
        Point3 { x: 300_000, y: 300_000, z: -2 },
    ];
    let keys: BTreeSet<[usize; 3]> = hull_triangles(&pts).iter().map(sorted).collect();
    assert!(!keys.contains(&[0, 1, 2]));
}
