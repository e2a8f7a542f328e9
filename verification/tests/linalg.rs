use kepler::linalg::{LinearSolverBackend, LinearSolverOptions, PreconditionerKind, SolverOptions, SpdHeuristics};

#[test]
fn backend_names() {
    assert_eq!(LinearSolverBackend::from_name(None), Ok(LinearSolverBackend::ConjugateGradient));
    assert_eq!(LinearSolverBackend::from_name(Some("cg")), Ok(LinearSolverBackend::ConjugateGradient));
    assert_eq!(LinearSolverBackend::from_name(Some("gmres")), Ok(LinearSolverBackend::Gmres));
    assert_eq!(
        LinearSolverBackend::from_name(Some("magic")),
        Err("unsupported solver backend 'magic'".to_string())
    );
    assert_eq!(LinearSolverBackend::SparseLdl.as_name(), "sparse_ldl");
    assert_eq!(LinearSolverBackend::ConjugateGradient.as_name(), "conjugate_gradient");
}

#[test]
fn preconditioner_names() {
    assert_eq!(PreconditionerKind::from_name(Some("none")), Ok(PreconditionerKind::Identity));
    assert_eq!(PreconditionerKind::from_name(Some("amg")), Ok(PreconditionerKind::Amg));
    assert_eq!(
        PreconditionerKind::from_name(Some("ilu")),
        Err("unsupported preconditioner 'ilu'".to_string())
    );
    assert_eq!(PreconditionerKind::Jacobi.as_name(), "jacobi");
    assert_eq!(PreconditionerKind::Identity.as_name(), "none");
}

#[test]
fn defaults() {
    let s = SolverOptions::default_options();
    assert_eq!(s.max_iterations, 10_000);
    assert_eq!(s.tolerance.as_str().parse::<f64>().unwrap(), 1.0e-10);
    let l = LinearSolverOptions::default_options();
    assert_eq!(l.backend, LinearSolverBackend::ConjugateGradient);
    assert_eq!(l.preconditioner, PreconditionerKind::Identity);
    assert!(!l.record_residual_history);
}

#[test]
fn spd_heuristics() {
    let h = SpdHeuristics::from_checks(true, true, true, false, 0);
    assert!(h.likely_spd);
    assert!(!h.weakly_diagonally_dominant);
    assert!(!SpdHeuristics::from_checks(true, true, true, true, 1).likely_spd);
    assert!(!SpdHeuristics::from_checks(false, true, true, true, 0).likely_spd);
}

#[test]
fn plain_solver_options_use_conjugate_gradients() {
    let options = kepler::linalg::LinearSolverOptions::from(kepler::linalg::SolverOptions {
        max_iterations: 25,
        tolerance: kepler::numbers::Decimal::from_text("1e-6").unwrap(),
    });
    assert_eq!(options.max_iterations, 25);
    assert_eq!(options.tolerance.as_str(), "1e-6");
    assert_eq!(options.backend, kepler::linalg::LinearSolverBackend::ConjugateGradient);
    assert_eq!(options.preconditioner, kepler::linalg::PreconditionerKind::Identity);
    assert!(!options.record_residual_history);
}
