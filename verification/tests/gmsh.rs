use kepler::io::gmsh::{element_kind_from_gmsh, parse_gmsh_str, parse_physical_name, ImportedMesh};
use kepler::io::FileIoError;
use kepler::mesh::{ElementKind, EntityDimension};

const TRIANGLE: &str = "$MeshFormat\n2.2 0 8\n$EndMeshFormat\n$PhysicalNames\n1\n2 7 \"plate\"\n$EndPhysicalNames\n$Nodes\n3\n10 0 0 0\n20 1 0 0\n30 0 1 0\n$EndNodes\n$Elements\n2\n1 2 2 7 1 10 20 30\n2 1 1 4 10 20\n$EndElements\n";

fn flat(text: &str) -> bool {
    text.parse::<f64>().unwrap().abs() <= 1.0e-12
}

fn import(input: &str) -> ImportedMesh {
    let parsed = parse_gmsh_str(input).unwrap();
    let planar = parsed.z_coordinates().iter().all(|z| flat(z.as_str()));
    parsed.into_imported(planar)
}

#[test]
fn planar_mesh_with_named_and_default_regions() {
    let mesh = import(TRIANGLE);
    assert_eq!(mesh.dimension(), 2);
    assert_eq!(mesh.region_count(), 2);
    let ImportedMesh::TwoD(topology) = mesh else { panic!("expected a planar mesh") };
    assert_eq!(topology.regions()[0].name, "plate");
    assert_eq!(topology.regions()[0].dimension, EntityDimension::Surface);
    assert_eq!(topology.regions()[1].name, "physical_1_4");
    assert_eq!(topology.regions()[1].dimension, EntityDimension::Curve);
    assert_eq!(topology.cells()[0].nodes, vec![0, 1, 2]);
    assert_eq!(topology.cells()[1].region, Some(1));
    assert_eq!(topology.points()[1].coords.len(), 2);
}

#[test]
fn raised_node_makes_a_three_dimensional_mesh() {
    let input = TRIANGLE.replace("30 0 1 0", "30 0 1 0.5");
    let mesh = import(&input);
    assert_eq!(mesh.dimension(), 3);
}

#[test]
fn missing_nodes_section() {
    let err = parse_gmsh_str("$MeshFormat\n2.2 0 8\n$EndMeshFormat\n").unwrap_err();
    assert_eq!(err, FileIoError::MissingGmshNodes);
}

#[test]
fn binary_or_new_format_is_refused() {
    let err = parse_gmsh_str("$MeshFormat\n4.1 0 8\n$EndMeshFormat\n").unwrap_err();
    assert_eq!(err, FileIoError::UnsupportedGmshFormat { version: "4.1".to_string() });
}

#[test]
fn unknown_node_in_element() {
    let input = "$Nodes\n1\n1 0 0 0\n$EndNodes\n$Elements\n1\n1 1 0 1 2\n$EndElements\n";
    let err = parse_gmsh_str(input).unwrap_err();
    assert_eq!(err, FileIoError::UnknownGmshNode { line: 7, node_id: 2 });
}

#[test]
fn unknown_node_is_reported_at_its_element_row() {
    let input = "$Nodes\n1\n1 0 0 0\n$EndNodes\n$Elements\n1\n1 2 0 1 1 9\n$EndElements\n";
    assert_eq!(
        parse_gmsh_str(input).unwrap_err(),
        FileIoError::UnknownGmshNode { line: 7, node_id: 9 }
    );
    let later = "$Nodes\n2\n1 0 0 0\n2 1 0 0\n$EndNodes\n$Elements\n2\n1 1 0 1 2\n2 1 0 2 5\n$EndElements\n";
    assert_eq!(
        parse_gmsh_str(later).unwrap_err(),
        FileIoError::UnknownGmshNode { line: 9, node_id: 5 }
    );
}

#[test]
fn unsupported_element_type() {
    let input = "$Nodes\n1\n1 0 0 0\n$EndNodes\n$Elements\n1\n1 15 0 1\n$EndElements\n";
    let err = parse_gmsh_str(input).unwrap_err();
    assert_eq!(err, FileIoError::UnsupportedGmshElement { line: 7, element_type: 15 });
}

#[test]
fn duplicate_node_in_gmsh() {
    let input = "$Nodes\n2\n1 0 0 0\n1 1 0 0\n$EndNodes\n";
    let err = parse_gmsh_str(input).unwrap_err();
    assert_eq!(err, FileIoError::DuplicateId { line: 4, id: 1 });
}

#[test]
fn truncated_node_section() {
    let err = parse_gmsh_str("$Nodes\n2\n1 0 0 0\n").unwrap_err();
    assert_eq!(err, FileIoError::InvalidLine { line: 4, expected: "node row" });
}

#[test]
fn quoted_names() {
    assert_eq!(parse_physical_name(&"2 1 \"left wall\"".chars().collect::<Vec<_>>(), 3).unwrap(), "left wall");
    assert_eq!(
        parse_physical_name(&"2 1 \"".chars().collect::<Vec<_>>(), 3).unwrap_err(),
        FileIoError::InvalidLine { line: 3, expected: "quoted physical name" }
    );
}

#[test]
fn gmsh_type_numbers() {
    assert_eq!(element_kind_from_gmsh(2), Some(ElementKind::Tri3));
    assert_eq!(element_kind_from_gmsh(5), Some(ElementKind::Hex8));
    assert_eq!(element_kind_from_gmsh(9), None);
}
