//! Orthographic ray casting of a drawable object onto a pixel grid.
//!
//! The camera basis is built from the viewing direction as in the usual
//! construction: a helper axis not nearly parallel to the normal is crossed with
//! it to give `u`, and the normal crossed with `u` gives `v`. Both are scaled to
//! unit length in fixed-point units, rounding each component toward zero.

use vstd::prelude::*;
use crate::geometry::{
    COORD_LIMIT, Point3, SCALE, Vect, WideVec, bounded_by, coords, cross, cross3, dot, in_bounds,
    is_zero, wide,
};

verus! {

/// `r` is the integer square root of `x`, rounded down.
pub open spec fn is_floor_sqrt(r: int, x: int) -> bool {
    0 <= r && r * r <= x < (r + 1) * (r + 1)
}

pub open spec fn floor_sqrt(x: int) -> int {
    choose|r: int| is_floor_sqrt(r, x)
}

proof fn lemma_floor_sqrt_unique(r1: int, r2: int, x: int)
    requires
        is_floor_sqrt(r1, x),
        is_floor_sqrt(r2, x),
    ensures
        r1 == r2,
{
    if r1 < r2 {
        assert((r1 + 1) * (r1 + 1) <= r2 * r2) by (nonlinear_arith)
            requires
                0 <= r1 < r2,
        ;
    }
    if r2 < r1 {
        assert((r2 + 1) * (r2 + 1) <= r1 * r1) by (nonlinear_arith)
            requires
                0 <= r2 < r1,
        ;
    }
}

/// For `k >= 0`: `k^2 <= x` exactly when `k` is at most the floor square root of `x`.
pub proof fn lemma_sqrt_compare(k: int, x: int, r: int)
    requires
        k >= 0,
        is_floor_sqrt(r, x),
    ensures
        k * k <= x <==> k <= r,
{
    if k <= r {
        assert(k * k <= r * r) by (nonlinear_arith)
            requires
                0 <= k <= r,
        ;
    } else {
        assert((r + 1) * (r + 1) <= k * k) by (nonlinear_arith)
            requires
                0 <= r,
                r + 1 <= k,
        ;
    }
}

/// The integer square root of `x`, rounded down.
pub fn isqrt(x: u128) -> (r: u128)
    ensures
        r == floor_sqrt(x as int),
        is_floor_sqrt(r as int, x as int),
        r < 0x1_0000_0000_0000_0000,
{
    let mut lo: u128 = 0;
    let mut hi: u128 = 0x1_0000_0000_0000_0000;
    while hi - lo > 1
        invariant
            lo < hi <= 0x1_0000_0000_0000_0000,
            lo * lo <= x,
            x < hi * hi,
        decreases hi - lo,
    {
        let mid = lo + (hi - lo) / 2;
        assert(mid * mid < 0x1_0000_0000_0000_0000 * 0x1_0000_0000_0000_0000) by (nonlinear_arith)
            requires
                mid < 0x1_0000_0000_0000_0000,
        ;
        if mid * mid <= x {
            lo = mid;
        } else {
            hi = mid;
        }
    }
    proof {
        assert(is_floor_sqrt(lo as int, x as int));
        lemma_floor_sqrt_unique(lo as int, floor_sqrt(x as int), x as int);
    }
    lo
}

/// Division of `a` by a positive `b`, rounded toward zero.
pub open spec fn trunc_div(a: int, b: int) -> int {
    if a >= 0 {
        a / b
    } else {
        -((-a) / b)
    }
}

fn div_toward_zero(a: i128, b: i128) -> (r: i128)
    requires
        b > 0,
        a > i128::MIN,
    ensures
        r == trunc_div(a as int, b as int),
{
    if a >= 0 {
        a / b
    } else {
        -((-a) / b)
    }
}

pub open spec fn norm2(v: Vect) -> int {
    dot(v, v)
}

/// The helper axis: `z`, unless the normal is within about 25 degrees of it
/// (`n.z^2 >= 0.81 |n|^2`), then `x`.
pub open spec fn helper_axis(n: Vect) -> Vect {
    if 100 * (n.2 * n.2) < 81 * norm2(n) {
        (0, 0, 1)
    } else {
        (1, 0, 0)
    }
}

pub open spec fn raw_u(n: Vect) -> Vect {
    cross(helper_axis(n), n)
}

pub open spec fn raw_v(n: Vect) -> Vect {
    cross(n, raw_u(n))
}

/// `w` scaled to length `SCALE`, each component rounded toward zero.
pub open spec fn unit_scaled(w: Vect) -> Vect {
    let len = floor_sqrt(norm2(w));
    (
        trunc_div(w.0 * SCALE, len),
        trunc_div(w.1 * SCALE, len),
        trunc_div(w.2 * SCALE, len),
    )
}

/// The sensor axes `(u, v)` for a viewing direction, each of length `SCALE`.
pub open spec fn sensor_basis(n: Vect) -> (Vect, Vect) {
    (unit_scaled(raw_u(n)), unit_scaled(raw_v(n)))
}

/// The first sensor axis before scaling, written out.
proof fn lemma_raw_u_form(n: Vect)
    ensures
        100 * (n.2 * n.2) < 81 * norm2(n) ==> raw_u(n) == (-n.1, n.0, 0int),
        !(100 * (n.2 * n.2) < 81 * norm2(n)) ==> raw_u(n) == (0int, -n.2, n.1),
{
    if 100 * (n.2 * n.2) < 81 * norm2(n) {
        assert(helper_axis(n) == (0int, 0int, 1int));
    } else {
        assert(helper_axis(n) == (1int, 0int, 0int));
    }
}

pub proof fn lemma_square_nonneg(a: int)
    ensures
        a * a >= 0,
{
    assert(a * a >= 0) by (nonlinear_arith);
}

pub proof fn lemma_norm2_zero(v: Vect)
    ensures
        norm2(v) >= 0,
        norm2(v) == 0 <==> is_zero(v),
{
    lemma_square_nonneg(v.0);
    lemma_square_nonneg(v.1);
    lemma_square_nonneg(v.2);
    if v.0 != 0 {
        assert(v.0 * v.0 > 0) by (nonlinear_arith)
            requires
                v.0 != 0,
        ;
    }
    if v.1 != 0 {
        assert(v.1 * v.1 > 0) by (nonlinear_arith)
            requires
                v.1 != 0,
        ;
    }
    if v.2 != 0 {
        assert(v.2 * v.2 > 0) by (nonlinear_arith)
            requires
                v.2 != 0,
        ;
    }
}

proof fn lemma_raw_axes_nonzero(n: Vect)
    requires
        !is_zero(n),
    ensures
        !is_zero(raw_u(n)),
        !is_zero(raw_v(n)),
{
    lemma_norm2_zero(n);
    lemma_square_nonneg(n.0);
    lemma_square_nonneg(n.1);
    lemma_square_nonneg(n.2);
    lemma_raw_u_form(n);
    let v = raw_v(n);
    if 100 * (n.2 * n.2) < 81 * norm2(n) {
        if n.0 == 0 && n.1 == 0 {
            assert(norm2(n) == n.2 * n.2);
        }
        let u = raw_u(n);
        assert(v.2 == n.0 * u.1 - n.1 * u.0);
        assert(v.2 == n.0 * n.0 + n.1 * n.1) by (nonlinear_arith)
            requires
                v.2 == n.0 * u.1 - n.1 * u.0,
                u == (-n.1, n.0, 0int),
        ;
        lemma_norm2_zero((n.0, n.1, 0int));
    } else {
        if n.2 == 0 {
            assert(n.2 * n.2 == 0);
        }
        let u = raw_u(n);
        assert(v.0 == n.1 * u.2 - n.2 * u.1);
        assert(v.0 == n.1 * n.1 + n.2 * n.2) by (nonlinear_arith)
            requires
                v.0 == n.1 * u.2 - n.2 * u.1,
                u == (0int, -n.2, n.1),
        ;
        lemma_norm2_zero((0int, n.1, n.2));
    }
}

/// The squared length of a vector whose components are below `2^63`.
pub(crate) fn norm2_wide(w: WideVec) -> (r: u128)
    requires
        bounded_by(w, 0x8000_0000_0000_0000),
    ensures
        r == norm2(wide(w)),
{
    let a0: u128 = if w.0 >= 0 { w.0 as u128 } else { (-w.0) as u128 };
    let a1: u128 = if w.1 >= 0 { w.1 as u128 } else { (-w.1) as u128 };
    let a2: u128 = if w.2 >= 0 { w.2 as u128 } else { (-w.2) as u128 };
    proof {
        let m: int = 0x8000_0000_0000_0000;
        assert(a0 * a0 <= m * m) by (nonlinear_arith)
            requires
                a0 <= m,
        ;
        assert(a1 * a1 <= m * m) by (nonlinear_arith)
            requires
                a1 <= m,
        ;
        assert(a2 * a2 <= m * m) by (nonlinear_arith)
            requires
                a2 <= m,
        ;
        assert(a0 * a0 == w.0 * w.0) by (nonlinear_arith)
            requires
                a0 == w.0 || a0 == -w.0,
        ;
        assert(a1 * a1 == w.1 * w.1) by (nonlinear_arith)
            requires
                a1 == w.1 || a1 == -w.1,
        ;
        assert(a2 * a2 == w.2 * w.2) by (nonlinear_arith)
            requires
                a2 == w.2 || a2 == -w.2,
        ;
    }
    a0 * a0 + a1 * a1 + a2 * a2
}

proof fn lemma_component_below_length(c: int, w: Vect, r: int)
    requires
        c == w.0 || c == w.1 || c == w.2,
        is_floor_sqrt(r, norm2(w)),
        r > 0,
    ensures
        -SCALE <= trunc_div(c * SCALE, r) <= SCALE,
{
    lemma_square_nonneg(w.0);
    lemma_square_nonneg(w.1);
    lemma_square_nonneg(w.2);
    let a = if c >= 0 {
        c
    } else {
        -c
    };
    assert(a * a == c * c) by (nonlinear_arith)
        requires
            a == c || a == -c,
    ;
    assert(a * a <= norm2(w));
    assert(a <= r) by (nonlinear_arith)
        requires
            a * a < (r + 1) * (r + 1),
            a >= 0,
            r >= 0,
    ;
    assert(a * SCALE <= r * SCALE) by (nonlinear_arith)
        requires
            a <= r,
    ;
    assert((a * SCALE) / r <= SCALE) by (nonlinear_arith)
        requires
            a * SCALE <= r * SCALE,
            r > 0,
    ;
    assert(a * SCALE >= 0) by (nonlinear_arith)
        requires
            a >= 0,
    ;
    if c < 0 {
        assert(-(c * SCALE) == a * SCALE);
    }
}

/// `w` scaled to length `SCALE`; `w` is nonzero with components below `2^63`.
pub(crate) fn unit_scale(w: WideVec) -> (r: WideVec)
    requires
        bounded_by(w, 0x8000_0000_0000_0000),
        !is_zero(wide(w)),
    ensures
        wide(r) == unit_scaled(wide(w)),
        bounded_by(r, SCALE as int),
{
    let len = isqrt(norm2_wide(w));
    proof {
        lemma_norm2_zero(wide(w));
        assert(is_floor_sqrt(len as int, norm2(wide(w))));
        if len == 0 {
            assert((len + 1) * (len + 1) == 1);
        }
        lemma_component_below_length(w.0 as int, wide(w), len as int);
        lemma_component_below_length(w.1 as int, wide(w), len as int);
        lemma_component_below_length(w.2 as int, wide(w), len as int);
    }
    let len = len as i128;
    (
        div_toward_zero(w.0 * (SCALE as i128), len),
        div_toward_zero(w.1 * (SCALE as i128), len),
        div_toward_zero(w.2 * (SCALE as i128), len),
    )
}

/// The orthonormal sensor axes for the viewing direction `normal`, scaled to
/// length `SCALE`.
fn basis(normal: &Point3) -> (r: (WideVec, WideVec))
    requires
        in_bounds(*normal),
        !is_zero(coords(*normal)),
    ensures
        (wide(r.0), wide(r.1)) == sensor_basis(coords(*normal)),
        bounded_by(r.0, SCALE as int),
        bounded_by(r.1, SCALE as int),
{
    let n: WideVec = (normal.x as i128, normal.y as i128, normal.z as i128);
    proof {
        let m = COORD_LIMIT as int;
        crate::geometry::lemma_mul_bound(n.0 as int, n.0 as int, m, m);
        crate::geometry::lemma_mul_bound(n.1 as int, n.1 as int, m, m);
        crate::geometry::lemma_mul_bound(n.2 as int, n.2 as int, m, m);
    }
    let nz2 = n.2 * n.2;
    let n2 = n.0 * n.0 + n.1 * n.1 + nz2;
    let helper: WideVec = if 100 * nz2 < 81 * n2 {
        (0, 0, 1)
    } else {
        (1, 0, 0)
    };
    let u = cross3(helper, n);
    proof {
        lemma_raw_u_form(coords(*normal));
        lemma_raw_axes_nonzero(coords(*normal));
    }
    let v = cross3(n, u);
    (unit_scale(u), unit_scale(v))
}

/// Anything that can answer whether a ray meets it.
pub trait Draw {
    /// The object's data is consistent enough to be drawn.
    spec fn drawable(&self) -> bool;

    /// The ray from `ray_source` along `ray_direction` meets the object.
    spec fn hit(&self, ray_source: Point3, ray_direction: Point3) -> bool;

    fn intersect(&self, ray_source: Point3, ray_direction: Point3) -> (r: bool)
        requires
            self.drawable(),
            in_bounds(ray_source),
            in_bounds(ray_direction),
        ensures
            r == self.hit(ray_source, ray_direction),
    ;
}

/// A grayscale image, rows by columns, held in an `ndarray::Array2<u8>`.
#[verifier::external_body]
pub struct Image {
    pixels: ndarray::Array2<u8>,
}

/// The pixels of an image in logical order, the column index varying fastest.
pub uninterp spec fn image_pixels(img: Image) -> Seq<u8>;

/// The shape of an image, `(rows, columns)`.
pub uninterp spec fn image_shape(img: Image) -> (nat, nat);

impl Image {
    /// Relies on `ndarray::Array2::zeros`: an array of the given shape whose
    /// elements are all zero; it panics when the product of the nonzero axis
    /// lengths overflows `isize`.
    #[verifier::external_body]
    pub fn zeros(rows: usize, cols: usize) -> (r: Image)
        requires
            rows <= isize::MAX,
            cols <= isize::MAX,
            rows * cols <= isize::MAX,
        ensures
            image_shape(r) == (rows as nat, cols as nat),
            image_pixels(r) == Seq::new((rows * cols) as nat, |i: int| 0u8),
    {
        Image { pixels: ndarray::Array2::<u8>::zeros((rows, cols)) }
    }

    /// Relies on `ArrayBase::nrows`: the length of the first axis.
    #[verifier::external_body]
    pub fn rows(&self) -> (r: usize)
        ensures
            r == image_shape(*self).0,
    {
        self.pixels.nrows()
    }

    /// Relies on `ArrayBase::ncols`: the length of the second axis.
    #[verifier::external_body]
    pub fn cols(&self) -> (r: usize)
        ensures
            r == image_shape(*self).1,
    {
        self.pixels.ncols()
    }

    /// Relies on indexing an `Array2` by `(row, column)`: the element there; it
    /// panics outside the shape.
    #[verifier::external_body]
    pub fn get(&self, row: usize, col: usize) -> (r: u8)
        requires
            row < image_shape(*self).0,
            col < image_shape(*self).1,
        ensures
            r == image_pixels(*self)[row * image_shape(*self).1 + col],
    {
        self.pixels[(row, col)]
    }

    /// Relies on mutable indexing of an `Array2` by `(row, column)`: the one
    /// element there is replaced; it panics outside the shape.
    #[verifier::external_body]
    fn set(&mut self, row: usize, col: usize, value: u8)
        requires
            row < image_shape(*old(self)).0,
            col < image_shape(*old(self)).1,
        ensures
            image_shape(*final(self)) == image_shape(*old(self)),
            image_pixels(*final(self)) == image_pixels(*old(self)).update(
                row * image_shape(*old(self)).1 + col,
                value,
            ),
    {
        self.pixels[(row, col)] = value;
    }
}

/// Largest magnitude of a camera-center coordinate, and of the sensor's width
/// or height in fixed-point units (`2^28`).
pub const SENSOR_LIMIT: i64 = 268435456;

/// An orthographic camera: a sensor centered at `camera_center`, facing along
/// `camera_normal`, of `image_width_px` by `image_height_px` square pixels of
/// side `pixel_size` (fixed-point units).
pub struct ViewParams {
    pub camera_center: Point3,
    pub camera_normal: Point3,
    pub image_width_px: usize,
    pub image_height_px: usize,
    pub pixel_size: i64,
}

impl ViewParams {
    pub open spec fn valid(&self) -> bool {
        &&& in_bounds(self.camera_normal)
        &&& !is_zero(coords(self.camera_normal))
        &&& -SENSOR_LIMIT <= self.camera_center.x <= SENSOR_LIMIT
        &&& -SENSOR_LIMIT <= self.camera_center.y <= SENSOR_LIMIT
        &&& -SENSOR_LIMIT <= self.camera_center.z <= SENSOR_LIMIT
        &&& self.pixel_size > 0
        &&& self.image_width_px * self.pixel_size <= SENSOR_LIMIT
        &&& self.image_height_px * self.pixel_size <= SENSOR_LIMIT
        &&& self.image_height_px * self.image_width_px <= isize::MAX
    }
}

/// Offset along one sensor axis component `axis` of the center of pixel `idx`
/// out of `count`: `pixel_size * (idx + 1/2 - count / 2) * axis / SCALE`.
pub open spec fn pixel_offset(pixel_size: int, idx: int, count: int, axis: int) -> int {
    trunc_div(pixel_size * (2 * idx + 1 - count) * axis, 2 * SCALE)
}

/// The source of the ray through pixel `(x, y)`.
pub open spec fn pixel_ray_source(cfg: ViewParams, x: int, y: int) -> Point3 {
    let (u, v) = sensor_basis(coords(cfg.camera_normal));
    let ps = cfg.pixel_size as int;
    let w = cfg.image_width_px as int;
    let h = cfg.image_height_px as int;
    Point3 {
        x: (cfg.camera_center.x + pixel_offset(ps, x, w, u.0) + pixel_offset(ps, y, h, v.0)) as i64,
        y: (cfg.camera_center.y + pixel_offset(ps, x, w, u.1) + pixel_offset(ps, y, h, v.1)) as i64,
        z: (cfg.camera_center.z + pixel_offset(ps, x, w, u.2) + pixel_offset(ps, y, h, v.2)) as i64,
    }
}

/// The value of pixel `(x, y)`: 255 where its ray meets the object, else 0.
pub open spec fn pixel_value<D: Draw>(object: &D, cfg: ViewParams, x: int, y: int) -> u8 {
    if object.hit(pixel_ray_source(cfg, x, y), cfg.camera_normal) {
        255
    } else {
        0
    }
}

proof fn lemma_pixel_offset_bound(ps: int, idx: int, count: int, axis: int)
    requires
        ps > 0,
        0 <= idx < count,
        count * ps <= SENSOR_LIMIT,
        -SCALE <= axis <= SCALE,
    ensures
        -SENSOR_LIMIT / 2 <= pixel_offset(ps, idx, count, axis) <= SENSOR_LIMIT / 2,
{
    let k = 2 * idx + 1 - count;
    assert(-count <= k <= count);
    let a = ps * k * axis;
    assert(-(count * ps * SCALE) <= a <= count * ps * SCALE) by (nonlinear_arith)
        requires
            a == ps * k * axis,
            ps > 0,
            -count <= k <= count,
            -SCALE <= axis <= SCALE,
    ;
    assert(count * ps * SCALE <= SENSOR_LIMIT * SCALE) by (nonlinear_arith)
        requires
            count * ps <= SENSOR_LIMIT,
    ;
    let b = if a >= 0 {
        a
    } else {
        -a
    };
    assert(b / (2 * SCALE) <= SENSOR_LIMIT / 2) by (nonlinear_arith)
        requires
            0 <= b <= SENSOR_LIMIT * SCALE,
    ;
}

/// The pixel-center offset along one axis component, in fixed-point units.
fn offset_along(pixel_size: i64, idx: usize, count: usize, axis: i128) -> (r: i128)
    requires
        pixel_size > 0,
        idx < count,
        count * pixel_size <= SENSOR_LIMIT,
        -SCALE <= axis <= SCALE,
    ensures
        r == pixel_offset(pixel_size as int, idx as int, count as int, axis as int),
        -SENSOR_LIMIT / 2 <= r <= SENSOR_LIMIT / 2,
{
    proof {
        lemma_pixel_offset_bound(pixel_size as int, idx as int, count as int, axis as int);
        assert(pixel_size <= SENSOR_LIMIT) by (nonlinear_arith)
            requires
                count * pixel_size <= SENSOR_LIMIT,
                count >= 1,
                pixel_size > 0,
        ;
        let k = 2 * idx + 1 - count;
        crate::geometry::lemma_mul_bound(pixel_size as int, k, SENSOR_LIMIT as int, count as int);
        crate::geometry::lemma_mul_bound(
            pixel_size * k,
            axis as int,
            SENSOR_LIMIT * count,
            SCALE as int,
        );
    }
    let k = 2 * (idx as i128) + 1 - (count as i128);
    div_toward_zero((pixel_size as i128) * k * axis, 2 * (SCALE as i128))
}

/// The ray source of pixel `(x, y)` for the sensor axes `u`, `v`.
fn ray_source_at(cfg: &ViewParams, u: WideVec, v: WideVec, x: usize, y: usize) -> (r: Point3)
    requires
        cfg.valid(),
        (wide(u), wide(v)) == sensor_basis(coords(cfg.camera_normal)),
        bounded_by(u, SCALE as int),
        bounded_by(v, SCALE as int),
        x < cfg.image_width_px,
        y < cfg.image_height_px,
    ensures
        r == pixel_ray_source(*cfg, x as int, y as int),
        in_bounds(r),
{
    let ps = cfg.pixel_size;
    let w = cfg.image_width_px;
    let h = cfg.image_height_px;
    let c = cfg.camera_center;
    let rx = c.x as i128 + offset_along(ps, x, w, u.0) + offset_along(ps, y, h, v.0);
    let ry = c.y as i128 + offset_along(ps, x, w, u.1) + offset_along(ps, y, h, v.1);
    let rz = c.z as i128 + offset_along(ps, x, w, u.2) + offset_along(ps, y, h, v.2);
    Point3 { x: rx as i64, y: ry as i64, z: rz as i64 }
}

proof fn lemma_pixel_index(y1: int, x1: int, y2: int, x2: int, w: int)
    requires
        0 <= x1 < w,
        0 <= x2 < w,
        0 <= y1,
        0 <= y2,
        y1 * w + x1 == y2 * w + x2,
    ensures
        y1 == y2 && x1 == x2,
{
    if y1 < y2 {
        assert(y1 * w + w <= y2 * w) by (nonlinear_arith)
            requires
                y1 < y2,
                w > 0,
        ;
    }
    if y2 < y1 {
        assert(y2 * w + w <= y1 * w) by (nonlinear_arith)
            requires
                y2 < y1,
                w > 0,
        ;
    }
}

proof fn lemma_pixel_index_bound(y: int, x: int, h: int, w: int)
    requires
        0 <= x < w,
        0 <= y < h,
    ensures
        0 <= y * w + x < h * w,
{
    assert(0 <= y * w + x < h * w) by (nonlinear_arith)
        requires
            0 <= x < w,
            0 <= y < h,
    ;
}

/// Renders `object` through the camera `cfg`: one orthographic ray per pixel
/// along the camera normal, pixel `(x, y)` at row `y` and column `x`.
pub fn view<D: Draw>(object: &D, cfg: &ViewParams) -> (r: Image)
    requires
        object.drawable(),
        cfg.valid(),
    ensures
        image_shape(r) == (cfg.image_height_px as nat, cfg.image_width_px as nat),
        image_pixels(r).len() == cfg.image_height_px * cfg.image_width_px,
        forall|y: int, x: int|
            0 <= y < cfg.image_height_px && 0 <= x < cfg.image_width_px ==> #[trigger] image_pixels(
                r,
            )[y * cfg.image_width_px + x] == pixel_value(object, *cfg, x, y),
{
    let (u, v) = basis(&cfg.camera_normal);
    let w = cfg.image_width_px;
    let h = cfg.image_height_px;
    assert(w <= SENSOR_LIMIT && h <= SENSOR_LIMIT) by (nonlinear_arith)
        requires
            w * cfg.pixel_size <= SENSOR_LIMIT,
            h * cfg.pixel_size <= SENSOR_LIMIT,
            cfg.pixel_size > 0,
    ;
    let mut image = Image::zeros(h, w);
    let mut x: usize = 0;
    while x < w
        invariant
            cfg.valid(),
            object.drawable(),
            w == cfg.image_width_px,
            h == cfg.image_height_px,
            (wide(u), wide(v)) == sensor_basis(coords(cfg.camera_normal)),
            bounded_by(u, SCALE as int),
            bounded_by(v, SCALE as int),
            x <= w,
            image_shape(image) == (h as nat, w as nat),
            image_pixels(image).len() == h * w,
            forall|y2: int, x2: int|
                0 <= y2 < h && 0 <= x2 < x ==> #[trigger] image_pixels(image)[y2 * w + x2]
                    == pixel_value(object, *cfg, x2, y2),
        decreases w - x,
    {
        let mut y: usize = 0;
        while y < h
            invariant
                cfg.valid(),
                object.drawable(),
                w == cfg.image_width_px,
                h == cfg.image_height_px,
                (wide(u), wide(v)) == sensor_basis(coords(cfg.camera_normal)),
                bounded_by(u, SCALE as int),
                bounded_by(v, SCALE as int),
                x < w,
                y <= h,
                image_shape(image) == (h as nat, w as nat),
                image_pixels(image).len() == h * w,
                forall|y2: int, x2: int|
                    0 <= y2 < h && 0 <= x2 < x ==> #[trigger] image_pixels(image)[y2 * w + x2]
                        == pixel_value(object, *cfg, x2, y2),
                forall|y2: int|
                    0 <= y2 < y ==> #[trigger] image_pixels(image)[y2 * w + x] == pixel_value(
                        object,
                        *cfg,
                        x as int,
                        y2,
                    ),
            decreases h - y,
        {
            let source = ray_source_at(cfg, u, v, x, y);
            let value: u8 = if object.intersect(source, cfg.camera_normal) {
                255
            } else {
                0
            };
            let ghost before = image_pixels(image);
            image.set(y, x, value);
            proof {
                let idx = y * w + x;
                lemma_pixel_index_bound(y as int, x as int, h as int, w as int);
                assert(image_pixels(image)[idx] == value);
                assert(value == pixel_value(object, *cfg, x as int, y as int));
                assert forall|y2: int, x2: int|
                    0 <= y2 < h && 0 <= x2 < w && (y2 != y || x2 != x) implies image_pixels(
                    image,
                )[y2 * w + x2] == #[trigger] before[y2 * w + x2] by {
                    lemma_pixel_index_bound(y2, x2, h as int, w as int);
                    if y2 * w + x2 == idx {
                        lemma_pixel_index(y2, x2, y as int, x as int, w as int);
                    }
                }
                assert forall|y2: int, x2: int|
                    0 <= y2 < h && 0 <= x2 < x implies #[trigger] image_pixels(image)[y2 * w + x2]
                    == pixel_value(object, *cfg, x2, y2) by {
                    assert(before[y2 * w + x2] == pixel_value(object, *cfg, x2, y2));
                }
                assert forall|y2: int| 0 <= y2 < y + 1 implies #[trigger] image_pixels(image)[y2 * w
                    + x] == pixel_value(object, *cfg, x as int, y2) by {
                    if y2 < y {
                        assert(before[y2 * w + x] == pixel_value(object, *cfg, x as int, y2));
                    }
                }
            }
            y = y + 1;
        }
        x = x + 1;
    }
    image
}

/// The pixels of an image, row after row.
pub fn to_luma(image: &Image) -> (r: Vec<u8>)
    requires
        image_pixels(*image).len() == image_shape(*image).0 * image_shape(*image).1,
    ensures
        r@ == image_pixels(*image),
{
    let rows = image.rows();
    let cols = image.cols();
    let mut out: Vec<u8> = Vec::new();
    let mut row: usize = 0;
    while row < rows
        invariant
            rows == image_shape(*image).0,
            cols == image_shape(*image).1,
            image_pixels(*image).len() == rows * cols,
            row <= rows,
            out@ == image_pixels(*image).subrange(0, row * cols),
        decreases rows - row,
    {
        let mut col: usize = 0;
        while col < cols
            invariant
                rows == image_shape(*image).0,
                cols == image_shape(*image).1,
                image_pixels(*image).len() == rows * cols,
                row < rows,
                col <= cols,
                out@ == image_pixels(*image).subrange(0, row * cols + col),
            decreases cols - col,
        {
            proof {
                lemma_pixel_index_bound(row as int, col as int, rows as int, cols as int);
            }
            out.push(image.get(row, col));
            assert(out@ =~= image_pixels(*image).subrange(0, row * cols + col + 1));
            col = col + 1;
        }
        assert((row + 1) * cols == row * cols + cols) by (nonlinear_arith);
        row = row + 1;
    }
    assert(out@ =~= image_pixels(*image));
    out
}

/// Gray pixels expanded to RGB: each gray byte becomes three equal bytes, in order.
pub fn gray_to_rgb(luma: &Vec<u8>) -> (r: Vec<u8>)
    requires
        3 * luma.len() <= usize::MAX,
    ensures
        r@.len() == 3 * luma@.len(),
        forall|i: int, c: int| 0 <= i < luma@.len() && 0 <= c < 3 ==> #[trigger] r@[3 * i + c] == luma@[i],
{
    let mut rgb: Vec<u8> = Vec::new();
    let mut i: usize = 0;
    while i < luma.len()
        invariant
            i <= luma.len(),
            rgb@.len() == 3 * i,
            forall|j: int, c: int| 0 <= j < i && 0 <= c < 3 ==> #[trigger] rgb@[3 * j + c] == luma@[j],
        decreases luma.len() - i,
    {
        let y = luma[i];
        rgb.push(y);
        rgb.push(y);
        rgb.push(y);
        i = i + 1;
    }
    rgb
}

} // verus!
