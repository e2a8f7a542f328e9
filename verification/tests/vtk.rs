use kepler::io::vtk::{check_field_lengths, format_vtk_cells, sanitize_vtk_name, vtk_cell_type};
use kepler::io::FileIoError;
use kepler::mesh::{Cell, ElementKind};

#[test]
fn cell_type_codes() {
    assert_eq!(vtk_cell_type(ElementKind::Tri3), 5);
    assert_eq!(vtk_cell_type(ElementKind::Hex20), 25);
    assert_eq!(vtk_cell_type(ElementKind::Line2), 3);
}

#[test]
fn names_are_sanitized() {
    assert_eq!(sanitize_vtk_name("von Mises-stress"), "von_Mises_stress");
    assert_eq!(sanitize_vtk_name(""), "field");
    assert_eq!(sanitize_vtk_name("u_1"), "u_1");
}

#[test]
fn cell_sections() {
    let cells = vec![Cell::new(ElementKind::Tri3, vec![0, 1, 2]), Cell::new(ElementKind::Line2, vec![2, 3])];
    assert_eq!(format_vtk_cells(&cells), "CELLS 2 7\n3 0 1 2\n2 2 3\nCELL_TYPES 2\n5\n3\n");
}

#[test]
fn field_lengths_must_match_points() {
    let fields = vec![("u".to_string(), 4), ("t".to_string(), 3)];
    assert_eq!(
        check_field_lengths(&fields, 4).unwrap_err(),
        FileIoError::VtkFieldLengthMismatch { name: "t".to_string(), expected: 4, actual: 3 }
    );
    assert!(check_field_lengths(&fields[..1].to_vec(), 4).is_ok());
}

#[test]
fn sanitized_names_stay_as_they_are() {
    for name in ["temperature (K)", "", "u_x", "é"] {
        let once = sanitize_vtk_name(name);
        assert!(!once.is_empty());
        assert_eq!(sanitize_vtk_name(&once), once);
    }
}
