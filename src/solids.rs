//! Topology of the five Platonic solids: vertex counts, edge lists, faces and
//! the adjacency (neighbor lists) derived from the edges.

use vstd::prelude::*;
use vstd::string::StringExecFns;

verus! {

/// Index of a vertex within one solid, `0..N`.
pub type VertexId = usize;

/// Neighbor list of each vertex, indexed by vertex id.
pub type Neighbors = Vec<Vec<VertexId>>;

#[derive(Clone, Copy, Debug, PartialEq, Eq, Structural)]
pub enum PlatonicSolid {
    Tetrahedron,
    Cube,
    Octahedron,
    Dodecahedron,
    Icosahedron,
}

/// Number of vertices of each solid.
pub open spec fn vertex_count(s: PlatonicSolid) -> nat {
    match s {
        PlatonicSolid::Tetrahedron => 4,
        PlatonicSolid::Cube => 8,
        PlatonicSolid::Octahedron => 6,
        PlatonicSolid::Dodecahedron => 20,
        PlatonicSolid::Icosahedron => 12,
    }
}

pub fn number_of_verticies(platonic_solid: &PlatonicSolid) -> (r: usize)
    ensures
        r == vertex_count(*platonic_solid),
{
    match platonic_solid {
        PlatonicSolid::Tetrahedron => 4,
        PlatonicSolid::Cube => 8,
        PlatonicSolid::Octahedron => 6,
        PlatonicSolid::Dodecahedron => 20,
        PlatonicSolid::Icosahedron => 12,
    }
}

/// The faces of each solid, each a cycle of vertex ids.
pub open spec fn face_table(s: PlatonicSolid) -> Seq<Seq<VertexId>> {
    match s {
        PlatonicSolid::Tetrahedron => seq![
            seq![0, 1, 2],
            seq![0, 3, 1],
            seq![0, 2, 3],
            seq![1, 3, 2],
        ],
        PlatonicSolid::Cube => seq![
            seq![0, 3, 2, 1],
            seq![0, 1, 7, 6],
            seq![0, 6, 5, 3],
            seq![4, 2, 3, 5],
            seq![4, 7, 1, 2],
            seq![4, 5, 6, 7],
        ],
        PlatonicSolid::Octahedron => seq![
            seq![0, 1, 5],
            seq![1, 3, 5],
            seq![3, 4, 5],
            seq![0, 5, 4],
            seq![0, 2, 1],
            seq![1, 2, 3],
            seq![3, 2, 4],
            seq![0, 4, 2],
        ],
        PlatonicSolid::Dodecahedron => seq![
            seq![0, 13, 11, 1, 3],
            seq![0, 3, 2, 8, 10],
            seq![0, 10, 18, 12, 13],
            seq![1, 4, 7, 2, 3],
            seq![1, 11, 14, 5, 4],
            seq![2, 7, 9, 6, 8],
            seq![5, 15, 9, 7, 4],
            seq![5, 14, 17, 19, 15],
            seq![6, 16, 18, 10, 8],
            seq![6, 9, 15, 19, 16],
            seq![12, 17, 14, 11, 13],
            seq![12, 18, 16, 19, 17],
        ],
        PlatonicSolid::Icosahedron => seq![
            seq![0, 11, 5],
            seq![0, 5, 1],
            seq![0, 1, 7],
            seq![0, 7, 10],
            seq![0, 10, 11],
            seq![1, 5, 9],
            seq![5, 11, 4],
            seq![11, 10, 2],
            seq![10, 7, 6],
            seq![7, 1, 8],
            seq![3, 9, 4],
            seq![3, 4, 2],
            seq![3, 2, 6],
            seq![3, 6, 8],
            seq![3, 8, 9],
            seq![4, 9, 5],
            seq![2, 4, 11],
            seq![6, 2, 10],
            seq![8, 6, 7],
            seq![9, 8, 1],
        ],
    }
}

/// The faces of a solid, each a cycle of vertex ids.
pub fn faces_for_solid(solid: &PlatonicSolid) -> (r: Vec<Vec<VertexId>>)
    ensures
        r.deep_view() == face_table(*solid),
{
    let r = match solid {
        PlatonicSolid::Tetrahedron => vec![
            vec![0, 1, 2],
            vec![0, 3, 1],
            vec![0, 2, 3],
            vec![1, 3, 2],
        ],
        PlatonicSolid::Cube => vec![
            vec![0, 3, 2, 1],
            vec![0, 1, 7, 6],
            vec![0, 6, 5, 3],
            vec![4, 2, 3, 5],
            vec![4, 7, 1, 2],
            vec![4, 5, 6, 7],
        ],
        PlatonicSolid::Octahedron => vec![
            vec![0, 1, 5],
            vec![1, 3, 5],
            vec![3, 4, 5],
            vec![0, 5, 4],
            vec![0, 2, 1],
            vec![1, 2, 3],
            vec![3, 2, 4],
            vec![0, 4, 2],
        ],
        PlatonicSolid::Dodecahedron => vec![
            vec![0, 13, 11, 1, 3],
            vec![0, 3, 2, 8, 10],
            vec![0, 10, 18, 12, 13],
            vec![1, 4, 7, 2, 3],
            vec![1, 11, 14, 5, 4],
            vec![2, 7, 9, 6, 8],
            vec![5, 15, 9, 7, 4],
            vec![5, 14, 17, 19, 15],
            vec![6, 16, 18, 10, 8],
            vec![6, 9, 15, 19, 16],
            vec![12, 17, 14, 11, 13],
            vec![12, 18, 16, 19, 17],
        ],
        PlatonicSolid::Icosahedron => vec![
            vec![0, 11, 5],
            vec![0, 5, 1],
            vec![0, 1, 7],
            vec![0, 7, 10],
            vec![0, 10, 11],
            vec![1, 5, 9],
            vec![5, 11, 4],
            vec![11, 10, 2],
            vec![10, 7, 6],
            vec![7, 1, 8],
            vec![3, 9, 4],
            vec![3, 4, 2],
            vec![3, 2, 6],
            vec![3, 6, 8],
            vec![3, 8, 9],
            vec![4, 9, 5],
            vec![2, 4, 11],
            vec![6, 2, 10],
            vec![8, 6, 7],
            vec![9, 8, 1],
        ],
    };
    assert(r.deep_view() =~~= face_table(*solid));
    r
}

/// Number of sides of each face of a solid.
pub open spec fn face_sides(s: PlatonicSolid) -> nat {
    match s {
        PlatonicSolid::Tetrahedron => 3,
        PlatonicSolid::Cube => 4,
        PlatonicSolid::Octahedron => 3,
        PlatonicSolid::Dodecahedron => 5,
        PlatonicSolid::Icosahedron => 3,
    }
}

/// Every face of a solid has the solid's number of sides.
pub proof fn lemma_face_sides(s: PlatonicSolid)
    ensures
        forall|f: int| 0 <= f < face_table(s).len() ==> (#[trigger] face_table(s)[f]).len() == face_sides(s),
{
}

/// The edges of each solid, as pairs of vertex ids.
pub open spec fn edge_table(s: PlatonicSolid) -> Seq<(VertexId, VertexId)> {
    match s {
        PlatonicSolid::Tetrahedron => seq![
            (0, 1), (0, 2), (0, 3), (1, 2), (1, 3), (2, 3),
        ],
        PlatonicSolid::Cube => seq![
            (0, 1), (1, 2), (2, 3), (3, 0), (4, 5), (5, 6), (6, 7), (7, 4),
            (0, 4), (1, 5), (2, 6), (3, 7),
        ],
        PlatonicSolid::Octahedron => seq![
            (0, 1), (0, 2), (0, 3), (0, 4), (5, 1), (5, 2), (5, 3), (5, 4),
            (1, 2), (2, 3), (3, 4), (4, 1),
        ],
        PlatonicSolid::Dodecahedron => seq![
            (0, 8), (0, 12), (0, 16), (1, 9), (1, 12), (1, 17), (2, 10),
            (2, 13), (2, 16), (3, 11), (3, 13), (3, 17), (4, 8), (4, 14),
            (4, 18), (5, 9), (5, 14), (5, 19), (6, 10), (6, 15), (6, 18),
            (7, 11), (7, 15), (7, 19), (8, 10), (9, 11), (12, 14), (13, 15),
            (16, 17), (18, 19),
        ],
        PlatonicSolid::Icosahedron => seq![
            (0, 2), (0, 4), (0, 6), (0, 8), (0, 10), (1, 3), (1, 4), (1, 6),
            (1, 9), (1, 11), (2, 5), (2, 7), (2, 8), (2, 10), (3, 5), (3, 7),
            (3, 9), (3, 11), (4, 6), (4, 8), (4, 9), (5, 7), (5, 8), (5, 9),
            (6, 10), (6, 11), (7, 10), (7, 11), (8, 9), (10, 11),
        ],
    }
}

/// The edge list of a solid.
pub fn edges_for_solid(platonic_solid: &PlatonicSolid) -> (r: Vec<(VertexId, VertexId)>)
    ensures
        r@ == edge_table(*platonic_solid),
{
    match platonic_solid {
        PlatonicSolid::Tetrahedron => vec![
            (0, 1), (0, 2), (0, 3), (1, 2), (1, 3), (2, 3),
        ],
        PlatonicSolid::Cube => vec![
            (0, 1), (1, 2), (2, 3), (3, 0), (4, 5), (5, 6), (6, 7), (7, 4),
            (0, 4), (1, 5), (2, 6), (3, 7),
        ],
        PlatonicSolid::Octahedron => vec![
            (0, 1), (0, 2), (0, 3), (0, 4), (5, 1), (5, 2), (5, 3), (5, 4),
            (1, 2), (2, 3), (3, 4), (4, 1),
        ],
        PlatonicSolid::Dodecahedron => vec![
            (0, 8), (0, 12), (0, 16), (1, 9), (1, 12), (1, 17), (2, 10),
            (2, 13), (2, 16), (3, 11), (3, 13), (3, 17), (4, 8), (4, 14),
            (4, 18), (5, 9), (5, 14), (5, 19), (6, 10), (6, 15), (6, 18),
            (7, 11), (7, 15), (7, 19), (8, 10), (9, 11), (12, 14), (13, 15),
            (16, 17), (18, 19),
        ],
        PlatonicSolid::Icosahedron => vec![
            (0, 2), (0, 4), (0, 6), (0, 8), (0, 10), (1, 3), (1, 4), (1, 6),
            (1, 9), (1, 11), (2, 5), (2, 7), (2, 8), (2, 10), (3, 5), (3, 7),
            (3, 9), (3, 11), (4, 6), (4, 8), (4, 9), (5, 7), (5, 8), (5, 9),
            (6, 10), (6, 11), (7, 10), (7, 11), (8, 9), (10, 11),
        ],
    }
}

/// Every edge of a solid joins two distinct vertices of that solid.
pub open spec fn edges_in_range(edges: Seq<(VertexId, VertexId)>, n: nat) -> bool {
    forall|k: int|
        0 <= k < edges.len() ==> (#[trigger] edges[k]).0 < n && edges[k].1 < n && edges[k].0
            != edges[k].1
}

/// The neighbor list that vertex `v` has after folding in the first `i` edges:
/// for an edge `(a, b)`, `b` is appended to the list of `a`, then `a` to the list of `b`.
pub open spec fn neighbors_upto(edges: Seq<(VertexId, VertexId)>, v: int, i: int) -> Seq<VertexId>
    decreases i,
{
    if i <= 0 {
        seq![]
    } else {
        let prev = neighbors_upto(edges, v, i - 1);
        let e = edges[i - 1];
        let with_a = if e.0 == v {
            prev.push(e.1)
        } else {
            prev
        };
        if e.1 == v {
            with_a.push(e.0)
        } else {
            with_a
        }
    }
}

/// The adjacency of a solid: for each vertex, its neighbors in edge-list order.
pub open spec fn adjacency(s: PlatonicSolid) -> Seq<Seq<VertexId>> {
    Seq::new(vertex_count(s), |v: int| neighbors_upto(edge_table(s), v, edge_table(s).len() as int))
}

pub proof fn lemma_edges_in_range(s: PlatonicSolid)
    ensures
        edges_in_range(edge_table(s), vertex_count(s)),
{
}

/// The adjacency of a solid, built by folding its edge list into a neighbor
/// list per vertex.
pub fn neighbors_for_solid(solid: &PlatonicSolid) -> (r: Neighbors)
    ensures
        r@.len() == vertex_count(*solid),
        forall|v: int| 0 <= v < r@.len() ==> (#[trigger] r@[v])@ == adjacency(*solid)[v],
{
    let edges = edges_for_solid(solid);
    let n = number_of_verticies(solid);
    proof {
        lemma_edges_in_range(*solid);
    }
    let mut neighbors: Neighbors = Vec::new();
    let mut v: usize = 0;
    while v < n
        invariant
            v <= n,
            neighbors@.len() == v,
            forall|w: int| 0 <= w < v ==> (#[trigger] neighbors@[w])@ == Seq::<VertexId>::empty(),
        decreases n - v,
    {
        neighbors.push(Vec::new());
        v = v + 1;
    }
    let mut i: usize = 0;
    while i < edges.len()
        invariant
            edges@ == edge_table(*solid),
            n == vertex_count(*solid),
            edges_in_range(edges@, n as nat),
            i <= edges.len(),
            neighbors@.len() == n,
            forall|w: int|
                0 <= w < n ==> (#[trigger] neighbors@[w])@ == neighbors_upto(edges@, w, i as int),
        decreases edges.len() - i,
    {
        let (a, b) = edges[i];
        assert(a < n && b < n && a != b);
        neighbors[a].push(b);
        neighbors[b].push(a);
        assert forall|w: int| 0 <= w < n implies (#[trigger] neighbors@[w])@ == neighbors_upto(
            edges@,
            w,
            i + 1,
        ) by {
            assert(edges@[i as int] == (a, b));
        }
        i = i + 1;
    }
    neighbors
}

/// Number of edges that meet at each vertex of a solid.
pub open spec fn vertex_degree(s: PlatonicSolid) -> nat {
    match s {
        PlatonicSolid::Tetrahedron => 3,
        PlatonicSolid::Cube => 3,
        PlatonicSolid::Octahedron => 4,
        PlatonicSolid::Dodecahedron => 3,
        PlatonicSolid::Icosahedron => 5,
    }
}

/// Number of edges among the first `i` that touch vertex `v`.
pub open spec fn incident_upto(edges: Seq<(VertexId, VertexId)>, v: int, i: int) -> nat
    decreases i,
{
    if i <= 0 {
        0
    } else {
        let e = edges[i - 1];
        incident_upto(edges, v, i - 1) + if e.0 == v || e.1 == v {
            1nat
        } else {
            0nat
        }
    }
}

proof fn lemma_neighbors_len(edges: Seq<(VertexId, VertexId)>, v: int, i: int)
    requires
        forall|k: int| 0 <= k < i ==> (#[trigger] edges[k]).0 != edges[k].1,
    ensures
        neighbors_upto(edges, v, i).len() == incident_upto(edges, v, i),
    decreases i,
{
    if i > 0 {
        lemma_neighbors_len(edges, v, i - 1);
    }
}

proof fn lemma_incident_tetrahedron(v: int)
    requires
        0 <= v < 4,
    ensures
        incident_upto(edge_table(PlatonicSolid::Tetrahedron), v, 6) == vertex_degree(PlatonicSolid::Tetrahedron),
{
    reveal_with_fuel(incident_upto, 7);
}

proof fn lemma_incident_cube(v: int)
    requires
        0 <= v < 8,
    ensures
        incident_upto(edge_table(PlatonicSolid::Cube), v, 12) == vertex_degree(PlatonicSolid::Cube),
{
    reveal_with_fuel(incident_upto, 13);
}

proof fn lemma_incident_octahedron(v: int)
    requires
        0 <= v < 6,
    ensures
        incident_upto(edge_table(PlatonicSolid::Octahedron), v, 12) == vertex_degree(PlatonicSolid::Octahedron),
{
    reveal_with_fuel(incident_upto, 13);
}

proof fn lemma_incident_dodecahedron(v: int)
    requires
        0 <= v < 20,
    ensures
        incident_upto(edge_table(PlatonicSolid::Dodecahedron), v, 30) == vertex_degree(PlatonicSolid::Dodecahedron),
{
    reveal_with_fuel(incident_upto, 31);
}

proof fn lemma_incident_icosahedron(v: int)
    requires
        0 <= v < 12,
    ensures
        incident_upto(edge_table(PlatonicSolid::Icosahedron), v, 30) == vertex_degree(PlatonicSolid::Icosahedron),
{
    reveal_with_fuel(incident_upto, 31);
}

proof fn lemma_incident_counts(s: PlatonicSolid)
    ensures
        forall|v: int|
            0 <= v < vertex_count(s) ==> #[trigger] incident_upto(edge_table(s), v, edge_table(s).len() as int)
                == vertex_degree(s),
{
    let edges = edge_table(s);
    let n = edges.len() as int;
    assert forall|v: int| 0 <= v < vertex_count(s) implies #[trigger] incident_upto(edges, v, n)
        == vertex_degree(s) by {
        match s {
            PlatonicSolid::Tetrahedron => lemma_incident_tetrahedron(v),
            PlatonicSolid::Cube => lemma_incident_cube(v),
            PlatonicSolid::Octahedron => lemma_incident_octahedron(v),
            PlatonicSolid::Dodecahedron => lemma_incident_dodecahedron(v),
            PlatonicSolid::Icosahedron => lemma_incident_icosahedron(v),
        }
    }
}

/// The adjacency of every solid has the solid's vertex count, each vertex has
/// the solid's vertex degree, and the edge count is `N * degree / 2`. The degree
/// equals the number of sides of a face for the tetrahedron only: the cube has
/// square faces and degree 3, for one.
pub proof fn lemma_adjacency_shape(s: PlatonicSolid)
    ensures
        adjacency(s).len() == vertex_count(s),
        forall|v: int| 0 <= v < vertex_count(s) ==> (#[trigger] adjacency(s)[v]).len() == vertex_degree(s),
        edge_table(s).len() == vertex_count(s) * vertex_degree(s) / 2,
        s == PlatonicSolid::Tetrahedron ==> vertex_degree(s) == face_sides(s),
{
    lemma_edges_in_range(s);
    lemma_incident_counts(s);
    let edges = edge_table(s);
    assert forall|v: int| 0 <= v < vertex_count(s) implies (#[trigger] adjacency(s)[v]).len()
        == vertex_degree(s) by {
        lemma_neighbors_len(edges, v, edges.len() as int);
    }
}

proof fn lemma_neighbors_symmetric(edges: Seq<(VertexId, VertexId)>, a: int, b: int, i: int)
    requires
        0 <= a,
        0 <= b,
        a <= usize::MAX,
        b <= usize::MAX,
    ensures
        neighbors_upto(edges, a, i).contains(b as usize) <==> neighbors_upto(edges, b, i).contains(
            a as usize,
        ),
    decreases i,
{
    if i > 0 {
        lemma_neighbors_symmetric(edges, a, b, i - 1);
        let e = edges[i - 1];
        let pa = neighbors_upto(edges, a, i - 1);
        let pb = neighbors_upto(edges, b, i - 1);
        let na = neighbors_upto(edges, a, i);
        let nb = neighbors_upto(edges, b, i);
        // Each list grows by the far ends of the new edge only.
        assert forall|x: usize| #[trigger] na.contains(x) <==> pa.contains(x) || (e.0 == a && x
            == e.1) || (e.1 == a && x == e.0) by {
            if na.contains(x) {
                let k = choose|k: int| 0 <= k < na.len() && na[k] == x;
                if k < pa.len() {
                    assert(pa[k] == x);
                }
            }
            if pa.contains(x) {
                let k = choose|k: int| 0 <= k < pa.len() && pa[k] == x;
                assert(na[k] == x);
            }
            if e.0 == a && x == e.1 {
                let with_a = pa.push(e.1);
                assert(with_a[pa.len() as int] == x);
                assert(na[pa.len() as int] == x);
            }
            if e.1 == a && x == e.0 {
                assert(na[na.len() - 1] == x);
            }
        }
        assert forall|x: usize| #[trigger] nb.contains(x) <==> pb.contains(x) || (e.0 == b && x
            == e.1) || (e.1 == b && x == e.0) by {
            if nb.contains(x) {
                let k = choose|k: int| 0 <= k < nb.len() && nb[k] == x;
                if k < pb.len() {
                    assert(pb[k] == x);
                }
            }
            if pb.contains(x) {
                let k = choose|k: int| 0 <= k < pb.len() && pb[k] == x;
                assert(nb[k] == x);
            }
            if e.0 == b && x == e.1 {
                let with_b = pb.push(e.1);
                assert(with_b[pb.len() as int] == x);
                assert(nb[pb.len() as int] == x);
            }
            if e.1 == b && x == e.0 {
                assert(nb[nb.len() - 1] == x);
            }
        }
        assert(na.contains(b as usize) == nb.contains(a as usize));
    }
}

/// The adjacency of every solid is symmetric: `b` is a neighbor of `a` exactly
/// when `a` is a neighbor of `b`.
pub proof fn lemma_adjacency_symmetric(s: PlatonicSolid, a: int, b: int)
    requires
        0 <= a < vertex_count(s),
        0 <= b < vertex_count(s),
    ensures
        adjacency(s)[a].contains(b as usize) <==> adjacency(s)[b].contains(a as usize),
{
    lemma_neighbors_symmetric(edge_table(s), a, b, edge_table(s).len() as int);
}

/// The name of a solid as written in output: its variant name.
pub open spec fn solid_name(s: PlatonicSolid) -> Seq<char> {
    match s {
        PlatonicSolid::Tetrahedron => "Tetrahedron"@,
        PlatonicSolid::Cube => "Cube"@,
        PlatonicSolid::Octahedron => "Octahedron"@,
        PlatonicSolid::Dodecahedron => "Dodecahedron"@,
        PlatonicSolid::Icosahedron => "Icosahedron"@,
    }
}

impl PlatonicSolid {
    pub fn name(&self) -> (r: String)
        ensures
            r@ == solid_name(*self),
    {
        match self {
            PlatonicSolid::Tetrahedron => String::from_str("Tetrahedron"),
            PlatonicSolid::Cube => String::from_str("Cube"),
            PlatonicSolid::Octahedron => String::from_str("Octahedron"),
            PlatonicSolid::Dodecahedron => String::from_str("Dodecahedron"),
            PlatonicSolid::Icosahedron => String::from_str("Icosahedron"),
        }
    }
}

} // verus!
