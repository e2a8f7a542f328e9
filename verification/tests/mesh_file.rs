use kepler::io::mesh::parse_mesh_str;
use kepler::io::FileIoError;
use kepler::mesh::MeshError;

const SQUARE: &str = "# unit square\nnodes\n0 0.0 0.0\n1 1.0 0.0\n2 1.0 1.0\n3 0.0 1.0\ntriangles\n0 0 1 2\n1 0 2 3\n";

#[test]
fn reads_a_square_mesh() {
    let mesh = parse_mesh_str(SQUARE).unwrap();
    assert_eq!(mesh.node_count(), 4);
    assert_eq!(mesh.triangles().len(), 2);
    assert_eq!(mesh.triangles()[1].nodes, [0, 2, 3]);
    assert_eq!(mesh.points()[2].x.as_str(), "1.0");
}

#[test]
fn ids_may_come_in_any_order() {
    let mesh = parse_mesh_str("nodes\n2 2 0\n0 0 0\n1 1 0\ntriangles\n0 0 1 2\n").unwrap();
    assert_eq!(mesh.points()[2].x.as_str(), "2");
}

#[test]
fn unknown_section_is_refused() {
    let err = parse_mesh_str("edges\n").unwrap_err();
    assert_eq!(err, FileIoError::UnknownSection { line: 1, section: "edges".to_string() });
}

#[test]
fn rows_before_a_section_are_refused() {
    let err = parse_mesh_str("0 0 0\n").unwrap_err();
    assert_eq!(err, FileIoError::InvalidLine { line: 1, expected: "a section header" });
}

#[test]
fn missing_triangles_section() {
    let err = parse_mesh_str("nodes\n0 0.0 0.0\n").unwrap_err();
    assert_eq!(err, FileIoError::MissingSection { section: "triangles" });
}

#[test]
fn duplicate_node_id() {
    let err = parse_mesh_str("nodes\n0 0 0\n0 1 1\n").unwrap_err();
    assert_eq!(err, FileIoError::DuplicateId { line: 3, id: 0 });
}

#[test]
fn ids_with_a_gap() {
    let err = parse_mesh_str("nodes\n0 0 0\n2 1 0\n3 0 1\ntriangles\n0 0 2 3\n").unwrap_err();
    assert_eq!(err, FileIoError::NonContiguousId { expected: 1, found: 2 });
}

#[test]
fn triangle_with_missing_node() {
    let err = parse_mesh_str("nodes\n0 0 0\n1 1 0\n2 0 1\ntriangles\n0 0 1 5\n").unwrap_err();
    assert_eq!(err, FileIoError::Mesh(MeshError::CellNodeOutOfBounds { cell: 0, node_count: 3 }));
}

#[test]
fn bad_coordinate() {
    let err = parse_mesh_str("nodes\n0 zero 0\n").unwrap_err();
    assert_eq!(err, FileIoError::ParseFloat { line: 2, value: "zero".to_string() });
}

#[test]
fn node_row_with_wrong_arity() {
    let err = parse_mesh_str("nodes\n0 0\n").unwrap_err();
    assert_eq!(err, FileIoError::InvalidLine { line: 2, expected: "node row: <id> <x> <y>" });
}

#[test]
fn comments_and_blank_lines_change_nothing_read() {
    let plain = "nodes\n0 0.0 0.0\n1 1.0 0.0\n2 1.0 1.0\n3 0.0 1.0\ntriangles\n0 0 1 2\n1 0 2 3\n";
    let annotated = "\n# unit square\nnodes # corners\n\n0 0.0 0.0\n   \n1 1.0 0.0 # right\n2 1.0 1.0\n# top left next\n3 0.0 1.0\r\ntriangles\n\t\n0 0 1 2\n1 0 2 3 #\n";
    assert_eq!(parse_mesh_str(plain).unwrap(), parse_mesh_str(annotated).unwrap());
    assert_eq!(parse_mesh_str(annotated).unwrap(), parse_mesh_str(SQUARE).unwrap());
}

#[test]
fn blank_lines_move_only_the_line_of_an_error() {
    let plain = "nodes\n0 0 0\n0 1 0\n";
    let spaced = "nodes\n\n# again\n0 0 0\n0 1 0\n";
    assert_eq!(parse_mesh_str(plain).unwrap_err(), FileIoError::DuplicateId { line: 3, id: 0 });
    assert_eq!(parse_mesh_str(spaced).unwrap_err(), FileIoError::DuplicateId { line: 5, id: 0 });
    let commented = "nodes\n0 0 0 # first\n0 1 0\n";
    assert_eq!(parse_mesh_str(commented).unwrap_err(), FileIoError::DuplicateId { line: 3, id: 0 });
}
