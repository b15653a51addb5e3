use platonic::solids::{
    edges_for_solid, faces_for_solid, neighbors_for_solid, number_of_verticies, PlatonicSolid,
};

const ALL: [PlatonicSolid; 5] = [
    PlatonicSolid::Tetrahedron,
    PlatonicSolid::Cube,
    PlatonicSolid::Octahedron,
    PlatonicSolid::Dodecahedron,
    PlatonicSolid::Icosahedron,
];

fn degree(solid: &PlatonicSolid) -> usize {
    match solid {
        PlatonicSolid::Tetrahedron => 3,
        PlatonicSolid::Cube => 3,
        PlatonicSolid::Octahedron => 4,
        PlatonicSolid::Dodecahedron => 3,
        PlatonicSolid::Icosahedron => 5,
    }
}

#[test]
fn vertex_counts() {
    let counts: Vec<usize> = ALL.iter().map(number_of_verticies).collect();
    assert_eq!(counts, vec![4, 8, 6, 20, 12]);
}

#[test]
fn adjacency_has_vertex_count_and_uniform_degree() {
    for solid in ALL.iter() {
        let n = number_of_verticies(solid);
        let neighbors = neighbors_for_solid(solid);
        assert_eq!(neighbors.len(), n);
        for list in neighbors.iter() {
            assert_eq!(list.len(), degree(solid));
        }
        assert_eq!(edges_for_solid(solid).len(), n * degree(solid) / 2);
    }
}

#[test]
fn adjacency_is_symmetric_and_simple() {
    for solid in ALL.iter() {
        let neighbors = neighbors_for_solid(solid);
        for (a, list) in neighbors.iter().enumerate() {
            for &b in list {
                assert_ne!(a, b);
                assert!(neighbors[b].contains(&a));
                assert_eq!(list.iter().filter(|&&c| c == b).count(), 1);
            }
        }
    }
}

#[test]
fn cube_adjacency() {
    let neighbors = neighbors_for_solid(&PlatonicSolid::Cube);
    assert_eq!(neighbors.len(), 8);
    assert_eq!(edges_for_solid(&PlatonicSolid::Cube).len(), 12);
    assert_eq!(neighbors[0], vec![1, 3, 4]);
    assert_eq!(neighbors[6], vec![5, 7, 2]);
    assert!(neighbors.iter().all(|l| l.len() == 3));
}

#[test]
fn edges_in_range() {
    for solid in ALL.iter() {
        let n = number_of_verticies(solid);
        for &(a, b) in edges_for_solid(solid).iter() {
            assert!(a < n && b < n && a != b);
        }
    }
}

#[test]
fn face_counts_and_sides() {
    let expected = [(4, 3), (6, 4), (8, 3), (12, 5), (20, 3)];
    for (solid, (faces, sides)) in ALL.iter().zip(expected.iter()) {
        let table = faces_for_solid(solid);
        assert_eq!(table.len(), *faces);
        assert!(table.iter().all(|f| f.len() == *sides));
    }
}

#[test]
fn solid_names() {
    let names: Vec<String> = ALL.iter().map(|s| s.name()).collect();
    assert_eq!(names, vec!["Tetrahedron", "Cube", "Octahedron", "Dodecahedron", "Icosahedron"]);
}

#[test]
fn tetrahedron_tables() {
    assert_eq!(
        edges_for_solid(&PlatonicSolid::Tetrahedron),
        vec![(0, 1), (0, 2), (0, 3), (1, 2), (1, 3), (2, 3)]
    );
    assert_eq!(
        faces_for_solid(&PlatonicSolid::Tetrahedron),
        vec![vec![0, 1, 2], vec![0, 3, 1], vec![0, 2, 3], vec![1, 3, 2]]
    );
    assert_eq!(
        neighbors_for_solid(&PlatonicSolid::Tetrahedron),
        vec![vec![1, 2, 3], vec![0, 2, 3], vec![0, 1, 3], vec![0, 1, 2]]
    );
}
