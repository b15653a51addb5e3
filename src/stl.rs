//! ASCII mesh (STL) text for a triangulated solid.
//!
//! Numbers are written with six decimals. Positions are fixed-point with
//! `SCALE` units per length unit, so a coordinate is written exactly. A facet
//! normal is the unit normal in the same units, each component rounded to the
//! nearest unit, or the zero vector for a degenerate triangle.

use vstd::prelude::*;
use vstd::string::StringExecFns;
use crate::geometry::{
    Point3, SCALE, Vect, WideVec, all_in_bounds, bounded_by, coords, cross, cross3, diff,
    in_bounds, is_zero, point_diff, wide,
};
use crate::hull::{Triangle, Triangles, Locations};
use crate::solid::triangles_in_range;
use crate::view::{floor_sqrt, isqrt, lemma_norm2_zero, norm2, norm2_wide};
use vstd::arithmetic::div_mod::{lemma_fundamental_div_mod, lemma_fundamental_div_mod_converse};

verus! {

pub open spec fn digit_char(d: int) -> char {
    if d == 0 {
        '0'
    } else if d == 1 {
        '1'
    } else if d == 2 {
        '2'
    } else if d == 3 {
        '3'
    } else if d == 4 {
        '4'
    } else if d == 5 {
        '5'
    } else if d == 6 {
        '6'
    } else if d == 7 {
        '7'
    } else if d == 8 {
        '8'
    } else {
        '9'
    }
}

/// Decimal digits of `n`, without leading zeros (`"0"` for zero).
pub open spec fn digits_of(n: nat) -> Seq<char>
    decreases n,
{
    if n < 10 {
        seq![digit_char(n as int)]
    } else {
        digits_of(n / 10).push(digit_char((n % 10) as int))
    }
}

/// The last `k` decimal digits of `n`, padded with zeros.
pub open spec fn padded_digits(n: nat, k: nat) -> Seq<char>
    decreases k,
{
    if k == 0 {
        seq![]
    } else {
        padded_digits(n / 10, (k - 1) as nat).push(digit_char((n % 10) as int))
    }
}

/// A fixed-point value `v / SCALE` written with six decimals.
pub open spec fn fixed_text(v: int) -> Seq<char> {
    let a = if v < 0 {
        -v
    } else {
        v
    };
    let sign = if v < 0 {
        seq!['-']
    } else {
        seq![]
    };
    sign + digits_of((a / SCALE as int) as nat) + seq!['.'] + padded_digits((a % SCALE as int) as nat, 6)
}

fn digit_str(d: u64) -> (r: &'static str)
    requires
        d < 10,
    ensures
        r@ == seq![digit_char(d as int)],
{
    proof {
        reveal_strlit("0");
        reveal_strlit("1");
        reveal_strlit("2");
        reveal_strlit("3");
        reveal_strlit("4");
        reveal_strlit("5");
        reveal_strlit("6");
        reveal_strlit("7");
        reveal_strlit("8");
        reveal_strlit("9");
    }
    match d {
        0 => "0",
        1 => "1",
        2 => "2",
        3 => "3",
        4 => "4",
        5 => "5",
        6 => "6",
        7 => "7",
        8 => "8",
        _ => "9",
    }
}

fn push_digits(out: &mut String, n: u64)
    ensures
        final(out)@ == old(out)@ + digits_of(n as nat),
    decreases n,
{
    if n >= 10 {
        push_digits(out, n / 10);
    }
    out.append(digit_str(n % 10));
    proof {
        if n >= 10 {
            assert(final(out)@ =~= old(out)@ + digits_of(n as nat));
        } else {
            assert(final(out)@ =~= old(out)@ + digits_of(n as nat));
        }
    }
}

fn push_padded(out: &mut String, n: u64, k: u64)
    ensures
        final(out)@ == old(out)@ + padded_digits(n as nat, k as nat),
    decreases k,
{
    if k > 0 {
        push_padded(out, n / 10, k - 1);
        out.append(digit_str(n % 10));
        assert(final(out)@ =~= old(out)@ + padded_digits(n as nat, k as nat));
    } else {
        assert(final(out)@ =~= old(out)@ + padded_digits(n as nat, k as nat));
    }
}

/// Appends `v / SCALE` with six decimals.
fn push_fixed(out: &mut String, v: i128)
    requires
        -0x1_0000_0000_0000_0000 < v < 0x1_0000_0000_0000_0000,
    ensures
        final(out)@ == old(out)@ + fixed_text(v as int),
{
    let a: u128 = if v < 0 {
        (-v) as u128
    } else {
        v as u128
    };
    if v < 0 {
        proof {
            reveal_strlit("-");
        }
        out.append("-");
    }
    let ghost signed = out@;
    push_digits(out, (a / (SCALE as u128)) as u64);
    proof {
        reveal_strlit(".");
    }
    out.append(".");
    push_padded(out, (a % (SCALE as u128)) as u64, 6);
    assert(final(out)@ =~= old(out)@ + fixed_text(v as int));
}

/// Three values separated by single spaces.
pub open spec fn vector_text(v: Vect) -> Seq<char> {
    fixed_text(v.0) + seq![' '] + fixed_text(v.1) + seq![' '] + fixed_text(v.2)
}

/// Component `c` of a vector of squared length `n2`, scaled to length `SCALE`
/// and rounded to the nearest unit. With `x = SCALE |c| / sqrt(n2)`, the
/// rounded magnitude is `floor(x + 1/2) = (floor(2 x) + 1) / 2`, and
/// `floor(2 x) = floor_sqrt(floor(4 SCALE^2 c^2 / n2))`.
pub open spec fn rounded_unit_component(c: int, n2: int) -> int {
    let m = floor_sqrt((4 * SCALE * SCALE * (c * c)) / n2);
    if c < 0 {
        -((m + 1) / 2)
    } else {
        (m + 1) / 2
    }
}

/// The unit normal written for the triangle `(p0, p1, p2)`; zero when degenerate.
pub open spec fn facet_normal(p0: Point3, p1: Point3, p2: Point3) -> Vect {
    let n = cross(diff(p1, p0), diff(p2, p0));
    let n2 = norm2(n);
    if is_zero(n) {
        (0, 0, 0)
    } else {
        (
            rounded_unit_component(n.0, n2),
            rounded_unit_component(n.1, n2),
            rounded_unit_component(n.2, n2),
        )
    }
}

/// The line that gives a facet's normal.
pub open spec fn normal_line(p0: Point3, p1: Point3, p2: Point3) -> Seq<char> {
    "  facet normal "@ + vector_text(facet_normal(p0, p1, p2)) + "\n"@
}

/// The line that gives one corner of a facet.
pub open spec fn vertex_line(p: Point3) -> Seq<char> {
    "      vertex "@ + vector_text(coords(p)) + "\n"@
}

/// The facet block of one triangle.
pub open spec fn facet_text(pts: Seq<Point3>, t: Triangle) -> Seq<char> {
    let p0 = pts[t[0] as int];
    let p1 = pts[t[1] as int];
    let p2 = pts[t[2] as int];
    normal_line(p0, p1, p2) + "    outer loop\n"@ + vertex_line(p0) + vertex_line(p1) + vertex_line(
        p2,
    ) + "    endloop\n"@ + "  endfacet\n"@
}

/// The facet blocks of the triangles, in order.
pub open spec fn facets_text(pts: Seq<Point3>, tris: Seq<Triangle>) -> Seq<char>
    decreases tris.len(),
{
    if tris.len() == 0 {
        seq![]
    } else {
        facets_text(pts, tris.drop_last()) + facet_text(pts, tris.last())
    }
}

/// The whole mesh text of a named solid.
pub open spec fn stl_text(name: Seq<char>, pts: Seq<Point3>, tris: Seq<Triangle>) -> Seq<char> {
    "solid "@ + name + "\n"@ + facets_text(pts, tris) + "endsolid "@ + name + "\n"@
}

fn push_vector(out: &mut String, v: WideVec)
    requires
        bounded_by(v, 0xFFFF_FFFF_FFFF_FFFF),
    ensures
        final(out)@ == old(out)@ + vector_text(wide(v)),
{
    proof {
        reveal_strlit(" ");
    }
    push_fixed(out, v.0);
    out.append(" ");
    push_fixed(out, v.1);
    out.append(" ");
    push_fixed(out, v.2);
    assert(final(out)@ =~= old(out)@ + vector_text(wide(v)));
}

fn point_vec(p: &Point3) -> (r: WideVec)
    requires
        in_bounds(*p),
    ensures
        wide(r) == coords(*p),
        bounded_by(r, 0xFFFF_FFFF_FFFF_FFFF),
{
    (p.x as i128, p.y as i128, p.z as i128)
}

/// `floor(4 SCALE^2 p / n2)`, by long division one decimal factor at a time so
/// that no intermediate value overflows.
fn scaled_quotient(p: u128, n2: u128) -> (q: u128)
    requires
        0 < n2 < 0x1000_0000_0000_0000_0000_0000_0000_0000,
        p <= n2,
    ensures
        q as int == (4 * SCALE * SCALE * (p as int)) / (n2 as int),
        q <= 4 * SCALE * SCALE,
{
    let mut q: u128 = p / n2;
    let mut b: u128 = p % n2;
    let ghost mut f: int = 1;
    proof {
        lemma_fundamental_div_mod(p as int, n2 as int);
        assert(q <= 1) by (nonlinear_arith)
            requires
                q == p / n2,
                p <= n2,
                n2 > 0,
        ;
    }
    let mut i: u32 = 0;
    while i < 12
        invariant
            0 < n2 < 0x1000_0000_0000_0000_0000_0000_0000_0000,
            p <= n2,
            i <= 12,
            q * n2 + b == f * p,
            b < n2,
            q <= f,
            f == crate::stl_decode::pow10(i as nat),
        decreases 12 - i,
    {
        proof {
            reveal_with_fuel(crate::stl_decode::pow10, 13);
            assert(f <= 100000000000) by {
                if i == 0 {} else if i == 1 {} else if i == 2 {} else if i == 3 {} else if i == 4 {
                } else if i == 5 {} else if i == 6 {} else if i == 7 {} else if i == 8 {
                } else if i == 9 {} else if i == 10 {} else {}
            }
        }
        let t = 10 * b;
        let ghost old_q = q;
        let ghost old_b = b;
        let ghost old_f = f;
        proof {
            lemma_fundamental_div_mod(t as int, n2 as int);
            assert(t / n2 < 10) by (nonlinear_arith)
                requires
                    t == 10 * b,
                    b < n2,
                    n2 > 0,
            ;
        }
        q = 10 * q + t / n2;
        b = t % n2;
        proof {
            f = 10 * f;
            assert(crate::stl_decode::pow10((i + 1) as nat) == 10 * old_f);
            assert(q * n2 + b == f * p) by (nonlinear_arith)
                requires
                    q == 10 * old_q + t / n2,
                    b == t % n2,
                    t == n2 * (t / n2) + t % n2,
                    old_q * n2 + old_b == old_f * p,
                    t == 10 * old_b,
                    f == 10 * old_f,
            ;
            assert(q <= f) by (nonlinear_arith)
                requires
                    q * n2 + b == f * p,
                    p <= n2,
                    n2 > 0,
                    b >= 0,
                    f >= 0,
            ;
        }
        i = i + 1;
    }
    proof {
        reveal_with_fuel(crate::stl_decode::pow10, 13);
        assert(f == 1000000000000);
    }
    let t = 4 * b;
    let ghost old_q = q;
    proof {
        lemma_fundamental_div_mod(t as int, n2 as int);
        assert(t / n2 < 4) by (nonlinear_arith)
            requires
                t == 4 * b,
                b < n2,
                n2 > 0,
        ;
    }
    q = 4 * q + t / n2;
    let r = t % n2;
    proof {
        assert(q * n2 + r == 4 * f * p) by (nonlinear_arith)
            requires
                q == 4 * old_q + t / n2,
                r == t % n2,
                t == n2 * (t / n2) + t % n2,
                old_q * n2 + b == f * p,
                t == 4 * b,
        ;
        lemma_fundamental_div_mod_converse(4 * f * p, n2 as int, q as int, r as int);
        assert(q <= 4 * f) by (nonlinear_arith)
            requires
                q * n2 + r == 4 * f * p,
                p <= n2,
                n2 > 0,
                r >= 0,
                f >= 0,
        ;
    }
    q
}

/// One component of the rounded unit normal.
fn rounded_component(c: i128, n2: u128) -> (r: i128)
    requires
        -0x8000_0000_0000_0000 <= c <= 0x8000_0000_0000_0000,
        c * c <= n2,
        0 < n2 < 0x1000_0000_0000_0000_0000_0000_0000_0000,
    ensures
        r == rounded_unit_component(c as int, n2 as int),
        -SCALE <= r <= SCALE,
{
    let a: u128 = if c < 0 {
        (-c) as u128
    } else {
        c as u128
    };
    proof {
        assert(a * a == c * c) by (nonlinear_arith)
            requires
                a == c || a == -c,
        ;
        assert(a * a <= 0x4000_0000_0000_0000_0000_0000_0000_0000) by (nonlinear_arith)
            requires
                a <= 0x8000_0000_0000_0000,
        ;
    }
    let q = scaled_quotient(a * a, n2);
    let m = isqrt(q);
    proof {
        crate::view::lemma_sqrt_compare(2 * SCALE as int, q as int, m as int);
        assert(m <= 2 * SCALE) by (nonlinear_arith)
            requires
                m * m <= q,
                q <= 4 * SCALE * SCALE,
                m >= 0,
        ;
    }
    let k = ((m + 1) / 2) as i128;
    if c < 0 {
        -k
    } else {
        k
    }
}

fn normal_of(p0: &Point3, p1: &Point3, p2: &Point3) -> (r: WideVec)
    requires
        in_bounds(*p0),
        in_bounds(*p1),
        in_bounds(*p2),
    ensures
        wide(r) == facet_normal(*p0, *p1, *p2),
        bounded_by(r, 0xFFFF_FFFF_FFFF_FFFF),
{
    let a = point_diff(p1, p0);
    let b = point_diff(p2, p0);
    let n = cross3(a, b);
    if n.0 == 0 && n.1 == 0 && n.2 == 0 {
        (0, 0, 0)
    } else {
        proof {
            let m: int = 0x4000_0000;
            crate::geometry::lemma_mul_bound(a.1 as int, b.2 as int, m, m);
            crate::geometry::lemma_mul_bound(a.2 as int, b.1 as int, m, m);
            crate::geometry::lemma_mul_bound(a.2 as int, b.0 as int, m, m);
            crate::geometry::lemma_mul_bound(a.0 as int, b.2 as int, m, m);
            crate::geometry::lemma_mul_bound(a.0 as int, b.1 as int, m, m);
            crate::geometry::lemma_mul_bound(a.1 as int, b.0 as int, m, m);
            let k: int = 0x2000_0000_0000_0000;
            crate::geometry::lemma_mul_bound(n.0 as int, n.0 as int, k, k);
            crate::geometry::lemma_mul_bound(n.1 as int, n.1 as int, k, k);
            crate::geometry::lemma_mul_bound(n.2 as int, n.2 as int, k, k);
        }
        let n2 = norm2_wide(n);
        proof {
            lemma_norm2_zero(wide(n));
            crate::view::lemma_square_nonneg(n.0 as int);
            crate::view::lemma_square_nonneg(n.1 as int);
            crate::view::lemma_square_nonneg(n.2 as int);
        }
        (rounded_component(n.0, n2), rounded_component(n.1, n2), rounded_component(n.2, n2))
    }
}

fn push_vertex_line(out: &mut String, p: &Point3)
    requires
        in_bounds(*p),
    ensures
        final(out)@ == old(out)@ + vertex_line(*p),
{
    out.append("      vertex ");
    push_vector(out, point_vec(p));
    out.append("\n");
    assert(final(out)@ =~= old(out)@ + vertex_line(*p));
}

fn push_facet(out: &mut String, locations: &Locations, t: Triangle)
    requires
        all_in_bounds(locations@),
        t[0] < locations.len(),
        t[1] < locations.len(),
        t[2] < locations.len(),
    ensures
        final(out)@ == old(out)@ + facet_text(locations@, t),
{
    let p0 = locations[t[0]];
    let p1 = locations[t[1]];
    let p2 = locations[t[2]];
    let ghost start = out@;
    out.append("  facet normal ");
    push_vector(out, normal_of(&p0, &p1, &p2));
    out.append("\n");
    assert(out@ =~= start + normal_line(p0, p1, p2));
    let ghost s1 = out@;
    out.append("    outer loop\n");
    push_vertex_line(out, &p0);
    push_vertex_line(out, &p1);
    push_vertex_line(out, &p2);
    out.append("    endloop\n");
    out.append("  endfacet\n");
    assert(out@ =~= s1 + "    outer loop\n"@ + vertex_line(p0) + vertex_line(p1) + vertex_line(p2)
        + "    endloop\n"@ + "  endfacet\n"@);
    assert(out@ =~= start + facet_text(locations@, t));
}

/// The mesh text of the solid `name`: a header line, one facet block per
/// triangle in order, a footer line.
pub fn to_stl(name: &str, triangles: &Triangles, locations: &Locations) -> (r: String)
    requires
        all_in_bounds(locations@),
        triangles_in_range(triangles@, locations@.len() as int),
    ensures
        r@ == stl_text(name@, locations@, triangles@),
{
    let mut out = String::new();
    out.append("solid ");
    out.append(name);
    out.append("\n");
    let ghost head = out@;
    let mut m: usize = 0;
    while m < triangles.len()
        invariant
            all_in_bounds(locations@),
            triangles_in_range(triangles@, locations@.len() as int),
            m <= triangles.len(),
            head == "solid "@ + name@ + "\n"@,
            out@ == head + facets_text(locations@, triangles@.subrange(0, m as int)),
        decreases triangles.len() - m,
    {
        let t = triangles[m];
        assert(t[0] < locations.len() && t[1] < locations.len() && t[2] < locations.len()) by {
            assert(triangles@[m as int][0] == t[0]);
            assert(triangles@[m as int][1] == t[1]);
            assert(triangles@[m as int][2] == t[2]);
        }
        push_facet(&mut out, locations, t);
        assert(triangles@.subrange(0, m + 1).drop_last() =~= triangles@.subrange(0, m as int));
        m = m + 1;
        assert(out@ =~= head + facets_text(locations@, triangles@.subrange(0, m as int)));
    }
    assert(triangles@.subrange(0, m as int) =~= triangles@);
    out.append("endsolid ");
    out.append(name);
    out.append("\n");
    assert(out@ =~= stl_text(name@, locations@, triangles@));
    out
}

} // verus!
