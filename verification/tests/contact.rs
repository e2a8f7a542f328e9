use kepler::fem::contact::extract_boundary_segments;
use kepler::mesh::{Cell, ElementKind, Mesh, Point2};
use kepler::numbers::Decimal;

fn point(x: &str, y: &str) -> Point2 {
    Point2::new(Decimal::from_text(x).unwrap(), Decimal::from_text(y).unwrap())
}

fn sorted_edges(mesh: &Mesh) -> Vec<(usize, usize)> {
    let boundary = extract_boundary_segments(mesh);
    let mut edges: Vec<_> = boundary
        .iter()
        .map(|seg| {
            let u = seg.nodes[0];
            let v = seg.nodes[1];
            if u < v { (u, v) } else { (v, u) }
        })
        .collect();
    edges.sort();
    edges
}

#[test]
fn test_extract_boundary_segments() {
    // Create 2 contiguous Tri3 cells sharing one edge
    let points = vec![
        point("0.0", "0.0"),
        point("1.0", "0.0"),
        point("1.0", "1.0"),
        point("0.0", "1.0"),
    ];

    let cells = vec![
        Cell::new(ElementKind::Tri3, vec![0, 1, 2]),
        Cell::new(ElementKind::Tri3, vec![0, 2, 3]),
    ];

    let mesh = Mesh::new_with_cells(points, cells).unwrap();
    let boundary = extract_boundary_segments(&mesh);

    // Edges (0,1), (1,2), (2,3), (3,0) should each occur once
    // Shared edge (0,2) occurs twice, so it should not be in the boundary.
    assert_eq!(boundary.len(), 4);
    assert_eq!(sorted_edges(&mesh), vec![(0, 1), (0, 3), (1, 2), (2, 3)]);
}

#[test]
fn boundary_of_single_quad_is_its_four_edges() {
    let points = vec![point("0", "0"), point("2", "0"), point("2", "2"), point("0", "2")];
    let cells = vec![Cell::new(ElementKind::Quad4, vec![0, 1, 2, 3])];
    let mesh = Mesh::new_with_cells(points, cells).unwrap();
    assert_eq!(sorted_edges(&mesh), vec![(0, 1), (0, 3), (1, 2), (2, 3)]);
    for seg in extract_boundary_segments(&mesh) {
        assert!(seg.nodes[0] < seg.nodes[1]);
    }
}

#[test]
fn boundary_ignores_line_cells_and_interior_edges() {
    let points = vec![
        point("0", "0"),
        point("1", "0"),
        point("1", "1"),
        point("0", "1"),
        point("0.5", "0.5"),
    ];
    let cells = vec![
        Cell::new(ElementKind::Tri3, vec![0, 1, 4]),
        Cell::new(ElementKind::Tri3, vec![1, 2, 4]),
        Cell::new(ElementKind::Tri3, vec![2, 3, 4]),
        Cell::new(ElementKind::Tri3, vec![3, 0, 4]),
        Cell::new(ElementKind::Line2, vec![0, 2]),
    ];
    let mesh = Mesh::new_with_cells(points, cells).unwrap();
    assert_eq!(sorted_edges(&mesh), vec![(0, 1), (0, 3), (1, 2), (2, 3)]);
}
