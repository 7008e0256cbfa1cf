use monster_step_viewer::lines::{extract_mesh_edges, polygon_edge_lines, polyline_line_indices};
use monster_step_viewer::mesh::{
    build_indexed_face_geometry, index_corners, merge_faces, triangle_counts, Corner, FaceChunk,
    FaceGeometry, Polygons,
};
use monster_step_viewer::optimize::{optimize_indexed_mesh, optimize_merged_mesh, ColoredFace};
use monster_step_viewer::shell_mesh::build_shell_merged_mesh;

fn corner(pos: usize) -> Corner {
    Corner { pos, nor: Some(0) }
}

fn square() -> Polygons {
    Polygons {
        triangles: Vec::new(),
        quads: vec![[corner(0), corner(1), corner(2), corner(3)]],
        others: Vec::new(),
    }
}

#[test]
fn a_quad_is_two_triangles() {
    let corners: Vec<usize> = square().triangulate().iter().map(|c| c.pos).collect();
    assert_eq!(corners.len(), 6);
    let mut seen = corners.clone();
    seen.sort();
    seen.dedup();
    assert_eq!(seen, vec![0, 1, 2, 3]);
}

#[test]
fn a_polygon_is_a_fan() {
    let polygons = Polygons {
        triangles: vec![[corner(9), corner(8), corner(7)]],
        quads: Vec::new(),
        others: vec![vec![corner(0), corner(1), corner(2), corner(3), corner(4)], vec![corner(5)]],
    };
    let corners: Vec<usize> = polygons.triangulate().iter().map(|c| c.pos).collect();
    assert_eq!(corners, vec![9, 8, 7, 0, 1, 2, 0, 2, 3, 0, 3, 4]);
}

#[test]
fn corners_are_shared() {
    let (unique, indices) = index_corners(&[corner(4), corner(5), corner(4)]);
    assert_eq!(unique, vec![corner(4), corner(5)]);
    assert_eq!(indices, vec![0, 1, 0]);
}

fn square_geometry() -> FaceGeometry<char, i8> {
    build_indexed_face_geometry(&['a', 'b', 'c', 'd'], &[7], 0, &square())
}

#[test]
fn faces_are_indexed_by_position_and_normal() {
    let geometry = square_geometry();
    assert_eq!(geometry.positions.len(), 4);
    assert_eq!(geometry.normals, vec![7, 7, 7, 7]);
    assert_eq!(geometry.indices.len(), 6);
    let bare = Polygons {
        triangles: vec![[Corner { pos: 0, nor: None }; 3]],
        quads: Vec::new(),
        others: Vec::new(),
    };
    let geometry = build_indexed_face_geometry(&['a'], &[7], 1, &bare);
    assert_eq!(geometry.normals, vec![1]);
    assert_eq!(geometry.indices, vec![0, 0, 0]);
}

#[test]
fn faces_are_merged_with_their_numbers() {
    let chunks = vec![
        FaceChunk { geometry: square_geometry(), color: 'x' },
        FaceChunk { geometry: square_geometry(), color: 'y' },
    ];
    assert_eq!(triangle_counts(&chunks), vec![2, 2]);
    let merged = merge_faces(&chunks, 10);
    assert_eq!(merged.positions.len(), 8);
    assert_eq!(merged.colors, vec!['x', 'x', 'x', 'x', 'y', 'y', 'y', 'y']);
    assert_eq!(merged.face_index, vec![10, 10, 10, 10, 11, 11, 11, 11]);
    assert_eq!(merged.indices.len(), 12);
    assert!(merged.indices[6..].iter().all(|i| *i >= 4));
}

fn sorted_triangles(positions: &[char], indices: &[u32]) -> Vec<Vec<char>> {
    let mut triangles: Vec<Vec<char>> = indices
        .chunks(3)
        .map(|t| {
            let mut corners: Vec<char> = t.iter().map(|i| positions[*i as usize]).collect();
            corners.sort();
            corners
        })
        .collect();
    triangles.sort();
    triangles
}

#[test]
fn optimizing_keeps_the_triangles() {
    let chunks = vec![FaceChunk { geometry: square_geometry(), color: 'x' }];
    let merged = merge_faces(&chunks, 3);
    let before = sorted_triangles(&merged.positions, &merged.indices);
    let made = optimize_merged_mesh(merged);
    assert_eq!(sorted_triangles(&made.positions, &made.indices), before);
    assert_eq!(made.face_index, vec![3, 3, 3, 3]);
    assert_eq!(made.normals, vec![7, 7, 7, 7]);
}

#[test]
fn vertices_are_numbered_as_they_are_used() {
    let face = ColoredFace {
        positions: vec!['a', 'b', 'c'],
        normals: vec![1u8, 2, 3],
        colors: vec![11u8, 12, 13],
        indices: vec![2, 0, 1],
    };
    let made = optimize_indexed_mesh(face);
    assert_eq!(made.positions, vec!['c', 'a', 'b']);
    assert_eq!(made.normals, vec![3, 1, 2]);
    assert_eq!(made.colors, vec![13, 11, 12]);
    assert_eq!(made.indices, vec![0, 1, 2]);
}

#[test]
fn a_shell_has_one_mesh_and_its_edges() {
    let chunks = vec![
        FaceChunk { geometry: square_geometry(), color: 'x' },
        FaceChunk { geometry: square_geometry(), color: 'y' },
    ];
    let built = build_shell_merged_mesh(&chunks, 0);
    assert_eq!(built.triangles, vec![2, 2]);
    assert_eq!(built.mesh.positions.len(), 8);
    assert_eq!(built.edge_lines.len(), 2 * 10);
}

#[test]
fn every_edge_is_drawn_once() {
    let mut lines: Vec<(u32, u32)> =
        polygon_edge_lines(&[0, 1, 2, 2, 1, 3]).chunks(2).map(|e| (e[0], e[1])).collect();
    lines.sort();
    assert_eq!(lines, vec![(0, 1), (0, 2), (1, 2), (1, 3), (2, 3)]);
}

#[test]
fn border_edges_belong_to_one_triangle() {
    let mut edges = extract_mesh_edges(&[[0, 1, 2], [2, 1, 3]]);
    edges.sort();
    assert_eq!(edges, vec![(0, 1), (0, 2), (1, 3), (2, 3)]);
}

#[test]
fn polylines_are_lists_of_lines() {
    assert_eq!(polyline_line_indices(&[3, 1, 2]), vec![0, 1, 1, 2, 4, 5]);
}
