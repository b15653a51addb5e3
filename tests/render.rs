use platonic::geometry::{Point3, SCALE};
use platonic::pipeline::render_snapshot;
use platonic::solid::Solid;
use platonic::view::{gray_to_rgb, isqrt, to_luma, view, Draw, Image, ViewParams};

fn p(x: f64, y: f64, z: f64) -> Point3 {
    let s = SCALE as f64;
    Point3 { x: (x * s).round() as i64, y: (y * s).round() as i64, z: (z * s).round() as i64 }
}

fn camera(width: usize, height: usize, pixel: f64) -> ViewParams {
    ViewParams {
        camera_center: p(0.0, 0.0, -10.0),
        camera_normal: p(0.0, 0.0, 1.0),
        image_width_px: width,
        image_height_px: height,
        pixel_size: (pixel * SCALE as f64).round() as i64,
    }
}

fn one_triangle(z: f64) -> Solid {
    Solid {
        locations: vec![p(-1.0, -1.0, z), p(1.0, -1.0, z), p(0.0, 1.0, z)],
        triangles: vec![[0, 1, 2]],
    }
}

fn hits(solid: &Solid, cfg: &ViewParams) -> usize {
    let image = view(solid, cfg);
    to_luma(&image).iter().filter(|&&v| v == 255).count()
}

#[test]
fn triangle_in_front_is_seen() {
    let cfg = camera(400, 400, 0.01);
    assert!(hits(&one_triangle(0.0), &cfg) > 0);
}

#[test]
fn triangle_behind_is_not_seen() {
    let cfg = camera(400, 400, 0.01);
    assert_eq!(hits(&one_triangle(-20.0), &cfg), 0);
}

#[test]
fn image_shape_and_values() {
    let cfg = camera(30, 20, 0.2);
    let image = view(&one_triangle(0.0), &cfg);
    assert_eq!(image.rows(), 20);
    assert_eq!(image.cols(), 30);
    let luma = to_luma(&image);
    assert_eq!(luma.len(), 600);
    assert!(luma.iter().all(|&v| v == 0 || v == 255));
}

#[test]
fn pixel_axes_follow_the_basis() {
    // Looking along +z the sensor axes are u = -y (columns) and v = +x (rows).
    // A triangle covering only world x > 0.5 lights rows past the middle only.
    let solid = Solid {
        locations: vec![p(0.5, -0.3, 0.0), p(0.9, -0.3, 0.0), p(0.7, 0.3, 0.0)],
        triangles: vec![[0, 1, 2]],
    };
    let cfg = camera(20, 20, 0.1);
    let image = view(&solid, &cfg);
    let mut lit_rows = Vec::new();
    for row in 0..20 {
        for col in 0..20 {
            if image.get(row, col) == 255 {
                lit_rows.push(row);
            }
        }
    }
    assert!(!lit_rows.is_empty());
    assert!(lit_rows.iter().all(|&r| r >= 15 && r < 20));
    // Pixel (x = 10, y = 17) has its ray at world (0.75, -0.05).
    assert_eq!(image.get(17, 10), 255);
    assert_eq!(image.get(2, 10), 0);
}

#[test]
fn ray_through_triangle_hits() {
    let solid = one_triangle(0.0);
    assert!(solid.intersect(p(0.0, 0.0, -5.0), p(0.0, 0.0, 1.0)));
    assert!(solid.intersect(p(0.0, 0.0, 5.0), p(0.0, 0.0, -1.0)));
}

#[test]
fn ray_pointing_away_misses() {
    let solid = one_triangle(0.0);
    assert!(!solid.intersect(p(0.0, 0.0, -5.0), p(0.0, 0.0, -1.0)));
}

#[test]
fn ray_beside_triangle_misses() {
    let solid = one_triangle(0.0);
    assert!(!solid.intersect(p(3.0, 0.0, -5.0), p(0.0, 0.0, 1.0)));
}

#[test]
fn ray_parallel_to_plane_misses() {
    let solid = one_triangle(0.0);
    assert!(!solid.intersect(p(-5.0, 0.0, 0.0), p(1.0, 0.0, 0.0)));
}

#[test]
fn ray_through_vertex_hits() {
    let solid = one_triangle(0.0);
    assert!(solid.intersect(p(1.0, -1.0, -5.0), p(0.0, 0.0, 1.0)));
}

#[test]
fn degenerate_triangle_is_never_hit() {
    let solid = Solid {
        locations: vec![p(-1.0, 0.0, 0.0), p(0.0, 0.0, 0.0), p(1.0, 0.0, 0.0)],
        triangles: vec![[0, 1, 2]],
    };
    assert!(!solid.intersect(p(0.0, 0.0, -5.0), p(0.0, 0.0, 1.0)));
}

#[test]
fn integer_square_roots() {
    assert_eq!(isqrt(0), 0);
    assert_eq!(isqrt(1), 1);
    assert_eq!(isqrt(15), 3);
    assert_eq!(isqrt(16), 4);
    assert_eq!(isqrt(1_000_000_000_000), 1_000_000);
    assert_eq!(isqrt(u128::MAX), u64::MAX as u128);
}

#[test]
fn tilted_camera_renders() {
    let cfg = ViewParams {
        camera_center: p(-6.0, -6.0, -6.0),
        camera_normal: p(1.0, 1.0, 1.0),
        image_width_px: 40,
        image_height_px: 40,
        pixel_size: (0.1 * SCALE as f64) as i64,
    };
    let pts = vec![p(1.0, 1.0, 1.0), p(1.0, -1.0, -1.0), p(-1.0, 1.0, -1.0), p(-1.0, -1.0, 1.0)];
    let image = render_snapshot(pts, &cfg);
    let luma = to_luma(&image);
    assert_eq!(luma.len(), 1600);
    assert!(luma.iter().any(|&v| v == 255));
    assert!(luma.iter().any(|&v| v == 0));
}

#[test]
fn empty_solid_renders_black() {
    let solid = Solid { locations: Vec::new(), triangles: Vec::new() };
    let cfg = camera(10, 8, 0.1);
    let luma = to_luma(&view(&solid, &cfg));
    assert_eq!(luma, vec![0u8; 80]);
}

#[test]
fn tiny_triangle_is_not_hit() {
    // A triangle 3 fixed-point units wide: its normal is far below the tolerance.
    let solid = Solid {
        locations: vec![
            Point3 { x: 0, y: 0, z: 0 },
            Point3 { x: 3, y: 0, z: 0 },
            Point3 { x: 0, y: 3, z: 0 },
        ],
        triangles: vec![[0, 1, 2]],
    };
    assert!(!solid.intersect(Point3 { x: 1, y: 1, z: -5_000_000 }, p(0.0, 0.0, 1.0)));
}

#[test]
fn grazing_ray_is_not_hit() {
    // The ray is within 1e-6 of parallel to the triangle's plane.
    let solid = one_triangle(0.0);
    let src = p(-5.0, 0.0, -0.000001);
    let dir = Point3 { x: SCALE, y: 0, z: 0 };
    assert!(!solid.intersect(src, dir));
}

#[test]
fn gray_expands_to_three_equal_bytes() {
    assert_eq!(gray_to_rgb(&vec![0, 255, 7]), vec![0, 0, 0, 255, 255, 255, 7, 7, 7]);
    assert!(gray_to_rgb(&Vec::new()).is_empty());
}

#[test]
fn empty_image_shapes() {
    let img = Image::zeros(0, 5);
    assert_eq!(img.rows(), 0);
    assert_eq!(img.cols(), 5);
    assert!(to_luma(&img).is_empty());
    let img = Image::zeros(2, 3);
    assert_eq!(to_luma(&img), vec![0u8; 6]);
}
