//! Reading mesh text back: a decoder for the numbers, vectors and lines that
//! the writer produces, and the proofs that decoding recovers what was written.

use vstd::prelude::*;
use crate::geometry::{Point3, SCALE, Vect, coords};
use crate::hull::Triangle;
use crate::stl::{
    digit_char, digits_of, facet_normal, facet_text, facets_text, fixed_text, normal_line,
    padded_digits, stl_text, vector_text, vertex_line,
};

verus! {

pub open spec fn digit_value(c: char) -> int {
    if c == '1' {
        1
    } else if c == '2' {
        2
    } else if c == '3' {
        3
    } else if c == '4' {
        4
    } else if c == '5' {
        5
    } else if c == '6' {
        6
    } else if c == '7' {
        7
    } else if c == '8' {
        8
    } else if c == '9' {
        9
    } else {
        0
    }
}

pub open spec fn is_digit(c: char) -> bool {
    c == '0' || c == '1' || c == '2' || c == '3' || c == '4' || c == '5' || c == '6' || c == '7'
        || c == '8' || c == '9'
}

/// The value of a string of decimal digits.
pub open spec fn decode_digits(s: Seq<char>) -> int
    decreases s.len(),
{
    if s.len() == 0 {
        0
    } else {
        decode_digits(s.drop_last()) * 10 + digit_value(s.last())
    }
}

pub open spec fn pow10(k: nat) -> int
    decreases k,
{
    if k == 0 {
        1
    } else {
        10 * pow10((k - 1) as nat)
    }
}

/// Index of the first `c` in `s`, or the length of `s` when there is none.
pub open spec fn first_index(s: Seq<char>, c: char) -> nat
    decreases s.len(),
{
    if s.len() == 0 {
        0
    } else if s[0] == c {
        0
    } else {
        1 + first_index(s.subrange(1, s.len() as int), c)
    }
}

/// What comes before the first `c`.
pub open spec fn before(s: Seq<char>, c: char) -> Seq<char> {
    s.subrange(0, first_index(s, c) as int)
}

/// What comes after the first `c`.
pub open spec fn after(s: Seq<char>, c: char) -> Seq<char> {
    s.subrange(first_index(s, c) + 1int, s.len() as int)
}

pub open spec fn lacks(s: Seq<char>, c: char) -> bool {
    forall|i: int| 0 <= i < s.len() ==> s[i] != c
}

pub open spec fn all_digits(s: Seq<char>) -> bool {
    forall|i: int| 0 <= i < s.len() ==> is_digit(#[trigger] s[i])
}

/// A number written with decimals: optional `-`, digits, `.`, digits.
pub open spec fn decode_fixed(s: Seq<char>) -> int {
    let neg = s.len() > 0 && s[0] == '-';
    let body = if neg {
        s.subrange(1, s.len() as int)
    } else {
        s
    };
    let mag = decode_digits(before(body, '.')) * SCALE + decode_digits(after(body, '.'));
    if neg {
        -mag
    } else {
        mag
    }
}

/// Three numbers separated by single spaces.
pub open spec fn decode_vector(s: Seq<char>) -> Vect {
    let rest = after(s, ' ');
    (decode_fixed(before(s, ' ')), decode_fixed(before(rest, ' ')), decode_fixed(after(rest, ' ')))
}

proof fn lemma_digit_round_trip(d: int)
    requires
        0 <= d < 10,
    ensures
        digit_value(digit_char(d)) == d,
        is_digit(digit_char(d)),
{
}

proof fn lemma_digits_of(n: nat)
    ensures
        decode_digits(digits_of(n)) == n,
        all_digits(digits_of(n)),
        digits_of(n).len() > 0,
    decreases n,
{
    if n < 10 {
        lemma_digit_round_trip(n as int);
        assert(digits_of(n).drop_last() =~= Seq::<char>::empty());
        assert(decode_digits(Seq::<char>::empty()) == 0);
        assert(digits_of(n).last() == digit_char(n as int));
    } else {
        lemma_digits_of(n / 10);
        lemma_digit_round_trip((n % 10) as int);
        assert(digits_of(n).drop_last() =~= digits_of(n / 10));
        assert(digits_of(n).last() == digit_char((n % 10) as int));
        assert(decode_digits(digits_of(n)) == (n / 10) * 10 + n % 10);
    }
}

proof fn lemma_padded_digits(n: nat, k: nat)
    requires
        n < pow10(k),
    ensures
        decode_digits(padded_digits(n, k)) == n,
        all_digits(padded_digits(n, k)),
        padded_digits(n, k).len() == k,
    decreases k,
{
    if k > 0 {
        assert(n / 10 < pow10((k - 1) as nat)) by (nonlinear_arith)
            requires
                n < 10 * pow10((k - 1) as nat),
        ;
        lemma_padded_digits(n / 10, (k - 1) as nat);
        lemma_digit_round_trip((n % 10) as int);
        assert(padded_digits(n, k).drop_last() =~= padded_digits(n / 10, (k - 1) as nat));
    }
}

proof fn lemma_first_index(a: Seq<char>, b: Seq<char>, c: char)
    requires
        lacks(a, c),
    ensures
        first_index(a + seq![c] + b, c) == a.len(),
        before(a + seq![c] + b, c) == a,
        after(a + seq![c] + b, c) == b,
    decreases a.len(),
{
    let s = a + seq![c] + b;
    if a.len() > 0 {
        let a1 = a.subrange(1, a.len() as int);
        assert(s.subrange(1, s.len() as int) =~= a1 + seq![c] + b);
        lemma_first_index(a1, b, c);
    }
    assert(before(s, c) =~= a);
    assert(after(s, c) =~= b);
}

proof fn lemma_digits_lack(s: Seq<char>, c: char)
    requires
        all_digits(s),
        !is_digit(c),
    ensures
        lacks(s, c),
{
    assert forall|i: int| 0 <= i < s.len() implies s[i] != c by {
        assert(is_digit(s[i]));
    }
}

/// Decoding a written number gives the number back.
pub proof fn lemma_fixed_round_trip(v: int)
    ensures
        decode_fixed(fixed_text(v)) == v,
{
    let a = if v < 0 {
        -v
    } else {
        v
    };
    let ip = digits_of((a / SCALE as int) as nat);
    let fp = padded_digits((a % SCALE as int) as nat, 6);
    lemma_digits_of((a / SCALE as int) as nat);
    assert(pow10(6) == 1000000) by {
        reveal_with_fuel(pow10, 7);
    }
    lemma_padded_digits((a % SCALE as int) as nat, 6);
    lemma_digits_lack(ip, '.');
    let body = ip + seq!['.'] + fp;
    lemma_first_index(ip, fp, '.');
    assert(a == (a / SCALE as int) * SCALE + a % SCALE as int);
    if v < 0 {
        assert(fixed_text(v) =~= seq!['-'] + body);
        assert((seq!['-'] + body).subrange(1, (seq!['-'] + body).len() as int) =~= body);
    } else {
        assert(fixed_text(v) =~= body);
        assert(is_digit(ip[0]));
    }
}

/// A written number holds only digits, `-` and `.`.
proof fn lemma_fixed_lacks(v: int, c: char)
    requires
        !is_digit(c),
        c != '-',
        c != '.',
    ensures
        lacks(fixed_text(v), c),
{
    let a = if v < 0 {
        -v
    } else {
        v
    };
    let ip = digits_of((a / SCALE as int) as nat);
    let fp = padded_digits((a % SCALE as int) as nat, 6);
    lemma_digits_of((a / SCALE as int) as nat);
    assert(pow10(6) == 1000000) by {
        reveal_with_fuel(pow10, 7);
    }
    lemma_padded_digits((a % SCALE as int) as nat, 6);
    lemma_digits_lack(ip, c);
    lemma_digits_lack(fp, c);
    let s = fixed_text(v);
    assert forall|i: int| 0 <= i < s.len() implies s[i] != c by {
        let sign: Seq<char> = if v < 0 {
            seq!['-']
        } else {
            seq![]
        };
        assert(s =~= sign + ip + seq!['.'] + fp);
        if i < sign.len() {
        } else if i < sign.len() + ip.len() {
            assert(s[i] == ip[i - sign.len()]);
        } else if i == sign.len() + ip.len() {
        } else {
            assert(s[i] == fp[i - sign.len() - ip.len() - 1]);
        }
    }
}

/// Decoding three written numbers gives the vector back.
pub proof fn lemma_vector_round_trip(v: Vect)
    ensures
        decode_vector(vector_text(v)) == v,
{
    lemma_fixed_lacks(v.0, ' ');
    lemma_fixed_lacks(v.1, ' ');
    lemma_fixed_round_trip(v.0);
    lemma_fixed_round_trip(v.1);
    lemma_fixed_round_trip(v.2);
    let rest = fixed_text(v.1) + seq![' '] + fixed_text(v.2);
    assert(vector_text(v) =~= fixed_text(v.0) + seq![' '] + rest);
    lemma_first_index(fixed_text(v.0), rest, ' ');
    lemma_first_index(fixed_text(v.1), fixed_text(v.2), ' ');
}

/// Lines, each followed by a newline.
pub open spec fn join_lines(lines: Seq<Seq<char>>) -> Seq<char>
    decreases lines.len(),
{
    if lines.len() == 0 {
        seq![]
    } else {
        lines[0] + seq!['\n'] + join_lines(lines.subrange(1, lines.len() as int))
    }
}

/// The lines of a text; a final newline ends the last line.
pub open spec fn lines_of(s: Seq<char>) -> Seq<Seq<char>>
    decreases s.len(),
{
    if s.len() == 0 {
        seq![]
    } else if first_index(s, '\n') < s.len() {
        seq![before(s, '\n')] + lines_of(s.subrange(first_index(s, '\n') + 1int, s.len() as int))
    } else {
        seq![s]
    }
}

/// The numbers of a `vertex` line: what follows its 13-character prefix.
pub open spec fn vertex_field(line: Seq<char>) -> Seq<char> {
    line.subrange(13, line.len() as int)
}

/// The numbers of a `facet normal` line: what follows its 15-character prefix.
pub open spec fn normal_field(line: Seq<char>) -> Seq<char> {
    line.subrange(15, line.len() as int)
}

/// The seven lines of one facet block.
pub open spec fn facet_lines(pts: Seq<Point3>, t: Triangle) -> Seq<Seq<char>> {
    let p0 = pts[t[0] as int];
    let p1 = pts[t[1] as int];
    let p2 = pts[t[2] as int];
    seq![
        "  facet normal "@ + vector_text(facet_normal(p0, p1, p2)),
        "    outer loop"@,
        "      vertex "@ + vector_text(coords(p0)),
        "      vertex "@ + vector_text(coords(p1)),
        "      vertex "@ + vector_text(coords(p2)),
        "    endloop"@,
        "  endfacet"@,
    ]
}

pub open spec fn all_facet_lines(pts: Seq<Point3>, tris: Seq<Triangle>) -> Seq<Seq<char>>
    decreases tris.len(),
{
    if tris.len() == 0 {
        seq![]
    } else {
        all_facet_lines(pts, tris.drop_last()) + facet_lines(pts, tris.last())
    }
}

/// The lines of a mesh text: header, seven per facet, footer.
pub open spec fn mesh_lines(name: Seq<char>, pts: Seq<Point3>, tris: Seq<Triangle>) -> Seq<
    Seq<char>,
> {
    seq!["solid "@ + name] + all_facet_lines(pts, tris) + seq!["endsolid "@ + name]
}

proof fn lemma_lines_of_join(lines: Seq<Seq<char>>)
    requires
        forall|i: int| 0 <= i < lines.len() ==> lacks(#[trigger] lines[i], '\n'),
    ensures
        lines_of(join_lines(lines)) == lines,
    decreases lines.len(),
{
    if lines.len() > 0 {
        let rest = lines.subrange(1, lines.len() as int);
        assert forall|i: int| 0 <= i < rest.len() implies lacks(#[trigger] rest[i], '\n') by {
            assert(rest[i] == lines[i + 1]);
        }
        lemma_lines_of_join(rest);
        let s = join_lines(lines);
        assert(lacks(lines[0], '\n'));
        lemma_first_index(lines[0], join_lines(rest), '\n');
        assert(s.subrange(first_index(s, '\n') + 1int, s.len() as int) == after(s, '\n'));
        assert(lines_of(s) =~= seq![lines[0]] + rest);
        assert(lines =~= seq![lines[0]] + rest);
    }
}

proof fn lemma_join_concat(a: Seq<Seq<char>>, b: Seq<Seq<char>>)
    ensures
        join_lines(a + b) == join_lines(a) + join_lines(b),
    decreases a.len(),
{
    if a.len() == 0 {
        assert(a + b =~= b);
        assert(join_lines(a) + join_lines(b) =~= join_lines(b));
    } else {
        let a1 = a.subrange(1, a.len() as int);
        lemma_join_concat(a1, b);
        assert((a + b).subrange(1, (a + b).len() as int) =~= a1 + b);
        assert(join_lines(a + b) =~= join_lines(a) + join_lines(b));
    }
}

proof fn lemma_join_one(l: Seq<char>)
    ensures
        join_lines(seq![l]) == l + seq!['\n'],
{
    let rest = seq![l].subrange(1, 1);
    assert(rest =~= Seq::<Seq<char>>::empty());
    assert(join_lines(rest) == Seq::<char>::empty());
    assert(join_lines(seq![l]) == l + seq!['\n'] + join_lines(rest));
    assert(l + seq!['\n'] + Seq::<char>::empty() =~= l + seq!['\n']);
}

#[verifier::rlimit(60)]
proof fn lemma_facet_text_lines(pts: Seq<Point3>, t: Triangle)
    ensures
        facet_text(pts, t) == join_lines(facet_lines(pts, t)),
{
    reveal_strlit("\n");
    reveal_strlit("    outer loop\n");
    reveal_strlit("    outer loop");
    reveal_strlit("    endloop\n");
    reveal_strlit("    endloop");
    reveal_strlit("  endfacet\n");
    reveal_strlit("  endfacet");
    let ls = facet_lines(pts, t);
    let p0 = pts[t[0] as int];
    let p1 = pts[t[1] as int];
    let p2 = pts[t[2] as int];
    // Fold the seven lines one at a time.
    assert(ls =~= seq![ls[0]] + seq![ls[1]] + seq![ls[2]] + seq![ls[3]] + seq![ls[4]] + seq![ls[5]]
        + seq![ls[6]]);
    lemma_join_concat(seq![ls[0]], seq![ls[1]]);
    lemma_join_concat(seq![ls[0]] + seq![ls[1]], seq![ls[2]]);
    lemma_join_concat(seq![ls[0]] + seq![ls[1]] + seq![ls[2]], seq![ls[3]]);
    lemma_join_concat(seq![ls[0]] + seq![ls[1]] + seq![ls[2]] + seq![ls[3]], seq![ls[4]]);
    lemma_join_concat(
        seq![ls[0]] + seq![ls[1]] + seq![ls[2]] + seq![ls[3]] + seq![ls[4]],
        seq![ls[5]],
    );
    lemma_join_concat(
        seq![ls[0]] + seq![ls[1]] + seq![ls[2]] + seq![ls[3]] + seq![ls[4]] + seq![ls[5]],
        seq![ls[6]],
    );
    lemma_join_one(ls[0]);
    lemma_join_one(ls[1]);
    lemma_join_one(ls[2]);
    lemma_join_one(ls[3]);
    lemma_join_one(ls[4]);
    lemma_join_one(ls[5]);
    lemma_join_one(ls[6]);
    assert(normal_line(p0, p1, p2) =~= ls[0] + seq!['\n']);
    assert(vertex_line(p0) =~= ls[2] + seq!['\n']);
    assert(vertex_line(p1) =~= ls[3] + seq!['\n']);
    assert(vertex_line(p2) =~= ls[4] + seq!['\n']);
    assert(facet_text(pts, t) =~= join_lines(ls));
}

proof fn lemma_facets_text_lines(pts: Seq<Point3>, tris: Seq<Triangle>)
    ensures
        facets_text(pts, tris) == join_lines(all_facet_lines(pts, tris)),
    decreases tris.len(),
{
    if tris.len() == 0 {
        assert(join_lines(Seq::<Seq<char>>::empty()) == Seq::<char>::empty());
    } else {
        lemma_facets_text_lines(pts, tris.drop_last());
        lemma_facet_text_lines(pts, tris.last());
        lemma_join_concat(all_facet_lines(pts, tris.drop_last()), facet_lines(pts, tris.last()));
    }
}

proof fn lemma_all_facet_lines_index(pts: Seq<Point3>, tris: Seq<Triangle>)
    ensures
        all_facet_lines(pts, tris).len() == 7 * tris.len(),
        forall|k: int, j: int|
            0 <= k < tris.len() && 0 <= j < 7 ==> #[trigger] all_facet_lines(pts, tris)[7 * k + j]
                == facet_lines(pts, tris[k])[j],
    decreases tris.len(),
{
    if tris.len() > 0 {
        let init = tris.drop_last();
        lemma_all_facet_lines_index(pts, init);
        let all = all_facet_lines(pts, tris);
        assert forall|k: int, j: int| 0 <= k < tris.len() && 0 <= j < 7 implies #[trigger] all[7 * k
            + j] == facet_lines(pts, tris[k])[j] by {
            if k < init.len() {
                assert(all_facet_lines(pts, init)[7 * k + j] == facet_lines(pts, init[k])[j]);
                assert(init[k] == tris[k]);
            } else {
                assert(k == init.len());
                assert(all[7 * k + j] == facet_lines(pts, tris.last())[j]);
            }
        }
    }
}

proof fn lemma_lacks_concat(a: Seq<char>, b: Seq<char>, c: char)
    requires
        lacks(a, c),
        lacks(b, c),
    ensures
        lacks(a + b, c),
{
    assert forall|i: int| 0 <= i < (a + b).len() implies (a + b)[i] != c by {
        if i >= a.len() {
            assert((a + b)[i] == b[i - a.len()]);
        }
    }
}

proof fn lemma_vector_lacks_newline(v: Vect)
    ensures
        lacks(vector_text(v), '\n'),
{
    lemma_fixed_lacks(v.0, '\n');
    lemma_fixed_lacks(v.1, '\n');
    lemma_fixed_lacks(v.2, '\n');
    lemma_lacks_concat(fixed_text(v.0), seq![' '], '\n');
    lemma_lacks_concat(fixed_text(v.0) + seq![' '], fixed_text(v.1), '\n');
    lemma_lacks_concat(fixed_text(v.0) + seq![' '] + fixed_text(v.1), seq![' '], '\n');
    lemma_lacks_concat(
        fixed_text(v.0) + seq![' '] + fixed_text(v.1) + seq![' '],
        fixed_text(v.2),
        '\n',
    );
}

proof fn lemma_facet_lines_lack_newline(pts: Seq<Point3>, t: Triangle)
    ensures
        forall|j: int| 0 <= j < 7 ==> lacks(#[trigger] facet_lines(pts, t)[j], '\n'),
{
    reveal_strlit("  facet normal ");
    reveal_strlit("    outer loop");
    reveal_strlit("      vertex ");
    reveal_strlit("    endloop");
    reveal_strlit("  endfacet");
    let p0 = pts[t[0] as int];
    let p1 = pts[t[1] as int];
    let p2 = pts[t[2] as int];
    lemma_vector_lacks_newline(facet_normal(p0, p1, p2));
    lemma_vector_lacks_newline(coords(p0));
    lemma_vector_lacks_newline(coords(p1));
    lemma_vector_lacks_newline(coords(p2));
    lemma_lacks_concat("  facet normal "@, vector_text(facet_normal(p0, p1, p2)), '\n');
    lemma_lacks_concat("      vertex "@, vector_text(coords(p0)), '\n');
    lemma_lacks_concat("      vertex "@, vector_text(coords(p1)), '\n');
    lemma_lacks_concat("      vertex "@, vector_text(coords(p2)), '\n');
}

proof fn lemma_mesh_lines(name: Seq<char>, pts: Seq<Point3>, tris: Seq<Triangle>)
    requires
        lacks(name, '\n'),
    ensures
        stl_text(name, pts, tris) == join_lines(mesh_lines(name, pts, tris)),
        forall|i: int|
            0 <= i < mesh_lines(name, pts, tris).len() ==> lacks(
                #[trigger] mesh_lines(name, pts, tris)[i],
                '\n',
            ),
        mesh_lines(name, pts, tris).len() == 7 * tris.len() + 2,
        forall|k: int, j: int|
            0 <= k < tris.len() && 0 <= j < 7 ==> #[trigger] mesh_lines(name, pts, tris)[1 + 7 * k
                + j] == facet_lines(pts, tris[k])[j],
{
    reveal_strlit("\n");
    reveal_strlit("solid ");
    reveal_strlit("endsolid ");
    let head = "solid "@ + name;
    let foot = "endsolid "@ + name;
    let body = all_facet_lines(pts, tris);
    let lines = mesh_lines(name, pts, tris);
    lemma_facets_text_lines(pts, tris);
    lemma_all_facet_lines_index(pts, tris);
    lemma_join_concat(seq![head], body);
    lemma_join_concat(seq![head] + body, seq![foot]);
    lemma_join_one(head);
    lemma_join_one(foot);
    assert(stl_text(name, pts, tris) =~= join_lines(lines));
    lemma_lacks_concat("solid "@, name, '\n');
    lemma_lacks_concat("endsolid "@, name, '\n');
    assert forall|i: int| 0 <= i < lines.len() implies lacks(#[trigger] lines[i], '\n') by {
        if 1 <= i < lines.len() - 1 {
            let k = (i - 1) / 7;
            let j = (i - 1) % 7;
            assert(i == 1 + 7 * k + j);
            lemma_facet_lines_lack_newline(pts, tris[k]);
            assert(lines[i] == body[7 * k + j]);
        }
    }
    assert forall|k: int, j: int| 0 <= k < tris.len() && 0 <= j < 7 implies #[trigger] lines[1 + 7
        * k + j] == facet_lines(pts, tris[k])[j] by {
        assert(lines[1 + 7 * k + j] == body[7 * k + j]);
    }
}

/// Reading a mesh text back by lines gives the header, seven lines per
/// triangle, and the footer. In each facet block the numbers of the `facet
/// normal` line decode to the facet's unit normal, the three `vertex` lines
/// decode to the coordinates of the triangle's corners in order, and the other
/// lines are `outer loop`, `endloop` and `endfacet`.
#[verifier::rlimit(60)]
pub proof fn lemma_mesh_text_round_trip(name: Seq<char>, pts: Seq<Point3>, tris: Seq<Triangle>)
    requires
        lacks(name, '\n'),
    ensures
        lines_of(stl_text(name, pts, tris)).len() == 7 * tris.len() + 2,
        lines_of(stl_text(name, pts, tris))[0] == "solid "@ + name,
        lines_of(stl_text(name, pts, tris))[7 * tris.len() + 1int] == "endsolid "@ + name,
        forall|k: int, c: int|
            0 <= k < tris.len() && 0 <= c < 3 ==> decode_vector(
                vertex_field(#[trigger] lines_of(stl_text(name, pts, tris))[1 + 7 * k + 2 + c]),
            ) == coords(pts[tris[k][c] as int]),
        forall|k: int|
            0 <= k < tris.len() ==> decode_vector(
                normal_field(#[trigger] lines_of(stl_text(name, pts, tris))[1 + 7 * k]),
            ) == facet_normal(
                pts[tris[k][0] as int],
                pts[tris[k][1] as int],
                pts[tris[k][2] as int],
            ),
        forall|k: int|
            0 <= k < tris.len() ==> #[trigger] lines_of(stl_text(name, pts, tris))[1 + 7 * k + 1]
                == "    outer loop"@ && lines_of(stl_text(name, pts, tris))[1 + 7 * k + 5]
                == "    endloop"@ && lines_of(stl_text(name, pts, tris))[1 + 7 * k + 6]
                == "  endfacet"@,
{
    lemma_mesh_lines(name, pts, tris);
    lemma_lines_of_join(mesh_lines(name, pts, tris));
    let lines = lines_of(stl_text(name, pts, tris));
    reveal_strlit("      vertex ");
    reveal_strlit("  facet normal ");
    assert(lines[7 * tris.len() + 1int] == mesh_lines(name, pts, tris)[7 * tris.len() + 1int]);
    assert forall|k: int, c: int| 0 <= k < tris.len() && 0 <= c < 3 implies decode_vector(
        vertex_field(#[trigger] lines[1 + 7 * k + 2 + c]),
    ) == coords(pts[tris[k][c] as int]) by {
        let p = pts[tris[k][c] as int];
        assert(lines[1 + 7 * k + (2 + c)] == facet_lines(pts, tris[k])[2 + c]);
        assert(vertex_field("      vertex "@ + vector_text(coords(p))) =~= vector_text(coords(p)));
        lemma_vector_round_trip(coords(p));
    }
    assert forall|k: int| 0 <= k < tris.len() implies decode_vector(
        normal_field(#[trigger] lines[1 + 7 * k]),
    ) == facet_normal(pts[tris[k][0] as int], pts[tris[k][1] as int], pts[tris[k][2] as int]) by {
        let nv = facet_normal(
            pts[tris[k][0] as int],
            pts[tris[k][1] as int],
            pts[tris[k][2] as int],
        );
        assert(lines[1 + 7 * k + 0] == facet_lines(pts, tris[k])[0]);
        assert(normal_field("  facet normal "@ + vector_text(nv)) =~= vector_text(nv));
        lemma_vector_round_trip(nv);
    }
    assert forall|k: int| 0 <= k < tris.len() implies #[trigger] lines[1 + 7 * k + 1]
        == "    outer loop"@ && lines[1 + 7 * k + 5] == "    endloop"@ && lines[1 + 7 * k + 6]
        == "  endfacet"@ by {
        assert(lines[1 + 7 * k + 1] == facet_lines(pts, tris[k])[1]);
        assert(lines[1 + 7 * k + 5] == facet_lines(pts, tris[k])[5]);
        assert(lines[1 + 7 * k + 6] == facet_lines(pts, tris[k])[6]);
    }
}

} // verus!
