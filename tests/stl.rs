use platonic::geometry::{Point3, SCALE};
use platonic::pipeline::{default_output, stl, OutputType};
use platonic::solids::PlatonicSolid;
use platonic::stl::to_stl;

fn p(x: f64, y: f64, z: f64) -> Point3 {
    let s = SCALE as f64;
    Point3 { x: (x * s).round() as i64, y: (y * s).round() as i64, z: (z * s).round() as i64 }
}

#[test]
fn one_facet_text() {
    let pts = vec![p(0.0, 0.0, 0.0), p(1.0, 0.0, 0.0), p(0.0, 1.0, 0.0)];
    let text = to_stl("tri", &vec![[0, 1, 2]], &pts);
    let expected = [
        "solid tri",
        "  facet normal 0.000000 0.000000 1.000000",
        "    outer loop",
        "      vertex 0.000000 0.000000 0.000000",
        "      vertex 1.000000 0.000000 0.000000",
        "      vertex 0.000000 1.000000 0.000000",
        "    endloop",
        "  endfacet",
        "endsolid tri",
        "",
    ]
    .join("\n");
    assert_eq!(text, expected);
}

#[test]
fn negative_and_fractional_coordinates() {
    let pts = vec![
        Point3 { x: -500_000, y: 1_234_567, z: -3 },
        Point3 { x: 2_000_000, y: 0, z: 0 },
        Point3 { x: 0, y: -12_000_001, z: 0 },
    ];
    let text = to_stl("n", &vec![[0, 1, 2]], &pts);
    assert!(text.contains("      vertex -0.500000 1.234567 -0.000003\n"));
    assert!(text.contains("      vertex 2.000000 0.000000 0.000000\n"));
    assert!(text.contains("      vertex 0.000000 -12.000001 0.000000\n"));
}

#[test]
fn degenerate_facet_has_zero_normal() {
    let pts = vec![p(0.0, 0.0, 0.0), p(1.0, 1.0, 1.0), p(2.0, 2.0, 2.0)];
    let text = to_stl("d", &vec![[0, 1, 2]], &pts);
    assert!(text.contains("  facet normal 0.000000 0.000000 0.000000\n"));
}

#[test]
fn tilted_normal_is_unit_rounded_to_nearest() {
    let pts = vec![p(0.0, 0.0, 0.0), p(1.0, 0.0, 0.0), p(0.0, 1.0, 1.0)];
    let text = to_stl("t", &vec![[0, 1, 2]], &pts);
    // Normal (0, -1, 1) / sqrt(2) = (0, -0.7071067.., 0.7071067..).
    assert!(text.contains("  facet normal 0.000000 -0.707107 0.707107\n"));
}

#[test]
fn empty_mesh_text() {
    assert_eq!(to_stl("empty", &Vec::new(), &Vec::new()), "solid empty\nendsolid empty\n");
}

fn parse_vertices(text: &str) -> Vec<[f64; 3]> {
    text.lines()
        .filter_map(|l| l.trim().strip_prefix("vertex "))
        .map(|rest| {
            let v: Vec<f64> = rest.split(' ').map(|t| t.parse().unwrap()).collect();
            [v[0], v[1], v[2]]
        })
        .collect()
}

#[test]
fn mesh_text_round_trip() {
    let pts = vec![
        p(0.123456, -1.5, 2.0),
        p(-0.75, 0.25, 0.000001),
        p(1.0, 1.0, -1.0),
        p(-2.5, 0.5, 0.5),
    ];
    let tris = vec![[0, 1, 2], [0, 3, 1], [1, 3, 2]];
    let text = to_stl("mesh", &tris, &pts);
    assert!(text.starts_with("solid mesh\n"));
    assert!(text.ends_with("endsolid mesh\n"));
    assert_eq!(text.matches("  facet normal ").count(), 3);
    assert_eq!(text.matches("    outer loop\n").count(), 3);
    let verts = parse_vertices(&text);
    assert_eq!(verts.len(), 9);
    for (k, t) in tris.iter().enumerate() {
        for c in 0..3 {
            let q = pts[t[c]];
            let back = verts[3 * k + c];
            let s = SCALE as f64;
            assert_eq!((back[0] * s).round() as i64, q.x);
            assert_eq!((back[1] * s).round() as i64, q.y);
            assert_eq!((back[2] * s).round() as i64, q.z);
        }
    }
}

#[test]
fn static_mesh_for_tetrahedron() {
    let pts = vec![p(1.0, 1.0, 1.0), p(1.0, -1.0, -1.0), p(-1.0, 1.0, -1.0), p(-1.0, -1.0, 1.0)];
    let text = stl(&PlatonicSolid::Tetrahedron, &pts);
    assert!(text.starts_with("solid Tetrahedron\n"));
    assert!(text.ends_with("endsolid Tetrahedron\n"));
    assert_eq!(text.matches("endfacet").count(), 4);
}

#[test]
fn default_output_names() {
    assert_eq!(default_output(&PlatonicSolid::Cube, &OutputType::Stl), "Cube.stl");
    assert_eq!(default_output(&PlatonicSolid::Dodecahedron, &OutputType::Stl), "Dodecahedron.stl");
    assert_eq!(default_output(&PlatonicSolid::Cube, &OutputType::EvolutionGif), "out.gif");
}

#[test]
fn normal_components_round_to_nearest() {
    // Normal (1, 2, 2) / 3 = (0.3333333.., 0.6666666.., 0.6666666..).
    let pts = vec![
        Point3 { x: 0, y: 0, z: 0 },
        Point3 { x: 2_000_000, y: -1_000_000, z: 0 },
        Point3 { x: 2_000_000, y: 0, z: -1_000_000 },
    ];
    let text = to_stl("r", &vec![[0, 1, 2]], &pts);
    assert!(text.contains("  facet normal 0.333333 0.666667 0.666667\n"), "{}", text);
}
