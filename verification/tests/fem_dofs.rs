use kepler::fem::elasticity::{
    active_dof_map, active_dofs, dof_index, dof_index_3d, tet4_dofs, triangle_dofs,
    validate_constraints, validate_constraints_3d, validate_initial_state_lengths, DisplacementComponent,
    DisplacementComponent3D, DisplacementConstraint, DisplacementConstraint3D, ElasticityError, ElasticityHex8,
    ElasticityTet4,
};
use kepler::fem::cms::{partition_dofs, partition_order};
use kepler::fem::element::Element;
use kepler::fem::heat::active_node_map;
use kepler::fem::modal::{constrained_dofs_2d, constrained_dofs_3d, dof_index_2d};
use kepler::fem::poisson::{validate_dirichlet, DirichletError, PoissonTet4, PoissonTri3};
use kepler::fem::quadratic::{ElasticityTet10, PoissonTet10, PoissonTri6};
use kepler::fem::structural_solve::{dof_index_6, StructuralComponent};
use kepler::fem::thermal_struct::cell_dofs;
use kepler::mesh::Tri3;
use kepler::numbers::Decimal;

#[test]
fn dof_numbering() {
    assert_eq!(dof_index(3, DisplacementComponent::Y), 7);
    assert_eq!(dof_index_2d(3, DisplacementComponent::X), 6);
    assert_eq!(dof_index_3d(2, DisplacementComponent3D::Z), 8);
    assert_eq!(dof_index_6(1, StructuralComponent::ThetaZ), 11);
    assert_eq!(DisplacementComponent3D::Y.offset(), 1);
    assert_eq!(triangle_dofs(&Tri3::new([4, 0, 2])), [8, 9, 0, 1, 4, 5]);
    assert_eq!(tet4_dofs([1, 0, 3, 2]), [3, 4, 5, 0, 1, 2, 9, 10, 11, 6, 7, 8]);
    assert_eq!(cell_dofs(&[2, 5]), vec![4, 5, 10, 11]);
}

#[test]
fn active_maps_number_free_dofs() {
    assert_eq!(active_dof_map(4, &[1, 3]), vec![None, Some(0), None, Some(1)]);
    assert_eq!(active_node_map(3, &[2]), vec![None, None, Some(0)]);
}

#[test]
fn constraints_are_checked() {
    let c = |node, component, v: &str| DisplacementConstraint { node, component, value: Decimal::from_text(v).unwrap() };
    let fixed = validate_constraints(3, &[c(0, DisplacementComponent::X, "0"), c(2, DisplacementComponent::Y, "1.5")]).unwrap();
    assert_eq!(fixed.len(), 2);
    assert_eq!(fixed[&5].as_str(), "1.5");
    assert_eq!(active_dofs(6, &fixed), vec![1, 2, 3, 4]);
    assert_eq!(
        validate_constraints(3, &[c(3, DisplacementComponent::X, "0")]).unwrap_err(),
        ElasticityError::ConstraintNodeOutOfBounds { node_id: 3, node_count: 3 }
    );
    assert_eq!(
        validate_constraints(3, &[c(1, DisplacementComponent::X, "0"), c(1, DisplacementComponent::X, "2")]).unwrap_err(),
        ElasticityError::DuplicateConstraint { node_id: 1, component: DisplacementComponent::X }
    );
}

#[test]
fn initial_state_lengths() {
    assert!(validate_initial_state_lengths(3, 3, 3).is_ok());
    assert_eq!(
        validate_initial_state_lengths(3, 2, 3).unwrap_err(),
        ElasticityError::InitialStateLengthMismatch { node_count: 3, initial_len: 2 }
    );
    assert_eq!(
        validate_initial_state_lengths(3, 3, 4).unwrap_err(),
        ElasticityError::InitialStateLengthMismatch { node_count: 3, initial_len: 4 }
    );
}

#[test]
fn elements_describe_themselves() {
    let tri = [0, 1, 2];
    let tet = [0, 1, 2, 3];
    let six = [0, 1, 2, 3, 4, 5];
    let ten = [0, 1, 2, 3, 4, 5, 6, 7, 8, 9];
    let hex = [0, 1, 2, 3, 4, 5, 6, 7];
    assert_eq!(PoissonTri3 { nodes: &tri }.active_fields(), vec!["u".to_string()]);
    assert_eq!(PoissonTet4 { nodes: &tet }.spatial_dimension(), 3);
    assert_eq!(PoissonTri6 { nodes: &six }.node_count(), 6);
    assert_eq!(PoissonTet10 { nodes: &ten }.nodes(), &ten[..]);
    assert_eq!(ElasticityTet4 { nodes: &tet }.active_fields(), vec!["ux", "uy", "uz"]);
    assert_eq!(ElasticityHex8 { nodes: &hex }.node_count(), 8);
    assert_eq!(ElasticityTet10 { nodes: &ten }.spatial_dimension(), 3);
}

#[test]
fn poisson_dirichlet_entries_are_checked_in_order() {
    let d = |s: &str| Decimal::from_text(s).unwrap();
    let ok = validate_dirichlet(3, &[(2, d("1.5")), (0, d("0"))]).unwrap();
    assert_eq!(ok.len(), 2);
    assert_eq!(ok[&2].as_str(), "1.5");
    assert_eq!(
        validate_dirichlet(3, &[(0, d("0")), (3, d("1"))]),
        Err(DirichletError::BoundaryNodeOutOfBounds { node_id: 3, node_count: 3 })
    );
    assert_eq!(
        validate_dirichlet(3, &[(1, d("0")), (1, d("1")), (9, d("2"))]),
        Err(DirichletError::DuplicateBoundaryNode { node_id: 1 })
    );
}

#[test]
fn three_dimensional_constraints_are_checked_in_order() {
    let c = |node, component, v: &str| DisplacementConstraint3D {
        node,
        component,
        value: Decimal::from_text(v).unwrap(),
    };
    let ok = validate_constraints_3d(
        2,
        &[c(1, DisplacementComponent3D::Z, "0.5"), c(0, DisplacementComponent3D::X, "0")],
    )
    .unwrap();
    assert_eq!(ok.keys().copied().collect::<Vec<_>>(), vec![0, 5]);
    assert_eq!(
        validate_constraints_3d(2, &[c(2, DisplacementComponent3D::Y, "1")]),
        Err(ElasticityError::ConstraintNodeOutOfBounds { node_id: 2, node_count: 2 })
    );
    assert_eq!(
        validate_constraints_3d(
            2,
            &[c(1, DisplacementComponent3D::Y, "1"), c(1, DisplacementComponent3D::Y, "2")]
        ),
        Err(ElasticityError::DuplicateConstraint3D {
            node_id: 1,
            component: DisplacementComponent3D::Y
        })
    );
}

#[test]
fn constrained_degrees_of_freedom_are_collected_once() {
    let d = |s: &str| Decimal::from_text(s).unwrap();
    let planar = constrained_dofs_2d(&[
        DisplacementConstraint { node: 3, component: DisplacementComponent::Y, value: d("0") },
        DisplacementConstraint { node: 0, component: DisplacementComponent::X, value: d("1") },
        DisplacementConstraint { node: 3, component: DisplacementComponent::Y, value: d("2") },
    ]);
    assert_eq!(planar.into_iter().collect::<Vec<_>>(), vec![0, 7]);
    let solid = constrained_dofs_3d(&[
        DisplacementConstraint3D { node: 2, component: DisplacementComponent3D::Z, value: d("0") },
        DisplacementConstraint3D { node: 1, component: DisplacementComponent3D::X, value: d("0") },
    ]);
    assert_eq!(solid.into_iter().collect::<Vec<_>>(), vec![3, 8]);
}

#[test]
fn craig_bampton_partition_puts_the_boundary_first() {
    let p = partition_dofs(6, &[4, 1, 4, 9]);
    assert_eq!(p.boundary_dofs, vec![1, 4, 9]);
    assert_eq!(p.internal_dofs, vec![0, 2, 3, 5]);
    let q = partition_dofs(5, &[3, 0, 3]);
    let order = partition_order(5, &q);
    assert_eq!(order, vec![0, 2, 3, 1, 4]);
}
