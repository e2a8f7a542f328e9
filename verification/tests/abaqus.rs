use kepler::io::abaqus::{
    abaqus_index_underflow, abaqus_to_annotations, abaqus_to_mesh_2d, map_abaqus_element_kind,
    parse_abaqus_str,
};
use kepler::io::FileIoError;
use kepler::mesh::ElementKind;

fn number(d: &kepler::numbers::Decimal) -> f64 {
    d.as_str().parse().unwrap()
}

#[test]
fn parses_minimal_inp_model() {
    let input = r#"
*NODE
1, 0., 0., 0.
2, 1., 0., 0.
3, 0., 1., 0.
*ELEMENT, TYPE=CPS3, ELSET=BLOCK
1, 1, 2, 3
*NSET, NSET=FIXED
1, 3
*MATERIAL, NAME=STEEL
*ELASTIC
210000., 0.3
*DENSITY
7.85e-9
*BOUNDARY
1, 1, 2
*STEP, NAME=LOAD
*STATIC
*END STEP
"#;
    let model = parse_abaqus_str(input).unwrap();
    assert_eq!(model.nodes.len(), 3);
    assert_eq!(model.elements.len(), 1);
    assert_eq!(model.node_set("FIXED").unwrap(), &vec![0, 2]);
    let steel = model.material("STEEL").unwrap();
    assert_eq!(steel.young_modulus.as_ref().map(number), Some(210000.0));
    assert_eq!(model.steps[0].kind, "static");

    let mesh = abaqus_to_mesh_2d(&model).unwrap();
    assert_eq!(mesh.node_count(), 3);
    assert_eq!(mesh.cells().len(), 1);
}

#[test]
fn element_records_type_and_set_of_keyword_line() {
    let input = "*NODE\n1, 0, 0, 0\n2, 1, 0, 0\n3, 0, 1, 0\n*ELEMENT, type=cps3, ELSET=\"PLATE\"\n7, 1, 2, 3\n";
    let model = parse_abaqus_str(input).unwrap();
    assert_eq!(model.elements[0].kind, "cps3");
    assert_eq!(model.elements[0].nodes, vec![1, 2, 3]);
    assert_eq!(model.elements[0].element_set.as_deref(), Some("PLATE"));
}

#[test]
fn node_ids_must_run_on_from_one() {
    let err = parse_abaqus_str("*NODE\n1, 0, 0, 0\n3, 1, 0, 0\n").unwrap_err();
    assert_eq!(err, FileIoError::NonContiguousId { expected: 2, found: 3 });
}

#[test]
fn short_node_row_is_invalid_line() {
    let err = parse_abaqus_str("*NODE\n1, 0, 0\n").unwrap_err();
    assert_eq!(err, FileIoError::InvalidLine { line: 2, expected: "node id, x, y, z" });
}

#[test]
fn comments_are_skipped() {
    let input = "** a comment\n*NODE ! trailing\n1, 0, 0, 0 ! note\n";
    let model = parse_abaqus_str(input).unwrap();
    assert_eq!(model.nodes.len(), 1);
}

#[test]
fn set_ranges_expand_and_sets_stay_sorted() {
    let input = "*NSET, NSET=ZED\n2:4\n*NSET, NSET=ALPHA\n5\n*NSET, NSET=ZED\n9\n";
    let model = parse_abaqus_str(input).unwrap();
    let names: Vec<&str> = model.node_sets.iter().map(|(n, _)| n.as_str()).collect();
    assert_eq!(names, vec!["ALPHA", "ZED"]);
    assert_eq!(model.node_set("ZED").unwrap(), &vec![1, 2, 3, 8]);
    assert_eq!(model.node_set("ALPHA").unwrap(), &vec![4]);
}

#[test]
fn set_line_without_name_is_refused() {
    let err = parse_abaqus_str("*NSET\n1\n").unwrap_err();
    assert_eq!(err, FileIoError::InvalidLine { line: 2, expected: "NSET name on keyword line" });
}

#[test]
fn boundary_expands_components_and_defaults_to_zero() {
    let model = parse_abaqus_str("*BOUNDARY\n4, 1, 3\n2, 2, 2, 0.5\n").unwrap();
    assert_eq!(model.boundaries.len(), 4);
    assert_eq!(model.boundaries[0].node, 3);
    assert_eq!(model.boundaries[2].component, 3);
    assert_eq!(number(&model.boundaries[0].value), 0.0);
    assert_eq!(model.boundaries[3].node, 1);
    assert_eq!(number(&model.boundaries[3].value), 0.5);
}

#[test]
fn zero_index_is_reported_before_parsing() {
    assert!(abaqus_index_underflow("*BOUNDARY\n0, 1, 1\n"));
    assert!(abaqus_index_underflow("*NSET, NSET=A\n0\n"));
    assert!(!abaqus_index_underflow("*NSET, NSET=A\n1\n"));
}

#[test]
fn dynamic_step_and_plastic_points() {
    let input = "*MATERIAL, NAME=M\n*PLASTIC\n250, 0\n300, 0.1\n*STEP, NAME=S\n*DYNAMIC\n";
    let model = parse_abaqus_str(input).unwrap();
    assert_eq!(model.material("M").unwrap().plastic_points.len(), 2);
    assert_eq!(model.steps[0].name, "S");
    assert_eq!(model.steps[0].kind, "dynamic");
}

#[test]
fn element_kinds_map_by_type_name() {
    assert_eq!(map_abaqus_element_kind("cpe4"), ElementKind::Quad4);
    assert_eq!(map_abaqus_element_kind("C3D8"), ElementKind::Hex8);
    assert_eq!(map_abaqus_element_kind("C3D4"), ElementKind::Tet4);
    assert_eq!(map_abaqus_element_kind("S3"), ElementKind::Tri3);
    assert_eq!(map_abaqus_element_kind("B31"), ElementKind::Tri3);
}

#[test]
fn annotations_number_materials_in_name_order() {
    let model = parse_abaqus_str("*MATERIAL, NAME=STEEL\n*MATERIAL, NAME=ALU\n").unwrap();
    let annotations = abaqus_to_annotations(&model);
    let materials = annotations.materials();
    assert_eq!(materials.len(), 2);
    assert_eq!(materials[0].name, "ALU");
    assert_eq!(materials[0].id, 0);
    assert_eq!(materials[1].name, "STEEL");
}

#[test]
fn bad_number_reports_its_line() {
    let err = parse_abaqus_str("*NODE\n1, x, 0, 0\n").unwrap_err();
    assert_eq!(err, FileIoError::ParseFloat { line: 2, value: "x".to_string() });
}
