use kepler::fem::dof::DOFManager;

#[test]
fn test_dof_manager_registration() {
    let mut dm = DOFManager::new();
    assert_eq!(dm.total_dof_count(), 0);

    // Register first DOF
    let idx0_u = dm.register_dof(0, "u");
    assert_eq!(idx0_u, 0);
    assert_eq!(dm.total_dof_count(), 1);

    // Register same DOF again (should return same index)
    assert_eq!(dm.register_dof(0, "u"), 0);
    assert_eq!(dm.total_dof_count(), 1);

    // Register second DOF at same node, different field
    let idx0_v = dm.register_dof(0, "v");
    assert_eq!(idx0_v, 1);
    assert_eq!(dm.total_dof_count(), 2);

    // Register DOF at different node
    let idx1_u = dm.register_dof(1, "u");
    assert_eq!(idx1_u, 2);
    assert_eq!(dm.total_dof_count(), 3);

    // Test retrieval
    assert_eq!(dm.get_eq_index(0, "u"), Some(0));
    assert_eq!(dm.get_eq_index(0, "v"), Some(1));
    assert_eq!(dm.get_eq_index(1, "u"), Some(2));
    assert_eq!(dm.get_eq_index(1, "v"), None);
}

#[test]
fn dof_indices_are_dense_and_stable() {
    let mut dm = DOFManager::new();
    for node in 0..5usize {
        for field in ["ux", "uy"] {
            let expected = node * 2 + if field == "ux" { 0 } else { 1 };
            assert_eq!(dm.register_dof(node, field), expected);
        }
    }
    assert_eq!(dm.total_dof_count(), 10);
    for node in 0..5usize {
        assert_eq!(dm.register_dof(node, "uy"), node * 2 + 1);
        assert_eq!(dm.get_eq_index(node, "ux"), Some(node * 2));
    }
    assert_eq!(dm.total_dof_count(), 10);
    assert_eq!(dm.get_eq_index(5, "ux"), None);
    assert_eq!(dm.get_eq_index(0, "uz"), None);
}

#[test]
fn indices_are_dense_stable_and_counted_once() {
    let mut dm = DOFManager::new();
    assert_eq!(dm, DOFManager::default());
    let a = dm.register_dof(4, "ux");
    let b = dm.register_dof(4, "uy");
    let before = dm.clone();
    assert_eq!(before, dm);
    let c = dm.register_dof(1, "ux");
    assert_eq!((a, b, c), (0, 1, 2));
    assert_eq!(dm.register_dof(4, "ux"), 0);
    assert_eq!(dm.total_dof_count(), 3);
    assert_eq!(dm.get_eq_index(4, "uy"), before.get_eq_index(4, "uy"));
    assert_eq!(before.get_eq_index(1, "ux"), None);
    assert_eq!(dm.get_eq_index(1, "ux"), Some(2));
}

#[test]
fn indices_survive_many_registrations_and_count_distinct_keys() {
    let mut dm = DOFManager::new();
    let keys = [(3, "ux"), (1, "uy"), (3, "ux"), (0, "t"), (1, "uy"), (7, "ux"), (3, "uy")];
    let first = dm.register_dof(3, "ux");
    let mut given = Vec::new();
    for (node, field) in keys {
        given.push(dm.register_dof(node, field));
    }
    assert_eq!(first, 0);
    assert_eq!(given, vec![0, 1, 0, 2, 1, 3, 4]);
    assert_eq!(dm.get_eq_index(3, "ux"), Some(first));
    assert_eq!(dm.total_dof_count(), 5);
    assert_eq!(dm.get_eq_index(2, "ux"), None);
    assert_eq!(dm.get_eq_index(3, "t"), None);
}
