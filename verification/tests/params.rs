use kepler::io::params::{parse_params_str, resolve_params, validate_params_for_mesh, ValueKind};
use kepler::io::FileIoError;

fn passes(kind: ValueKind, text: &str) -> bool {
    let v: f64 = text.parse().unwrap();
    match kind {
        ValueKind::Source => v.is_finite(),
        _ => v.is_finite() && v > 0.0,
    }
}

fn read(input: &str) -> Result<kepler::io::params::PoissonFileConfig, FileIoError> {
    let parsed = parse_params_str(input);
    let answers: Vec<bool> = parsed.checks.iter().map(|c| passes(c.kind, c.value.as_str())).collect();
    resolve_params(parsed, &answers)
}

#[test]
fn reads_parameters_and_sorted_dirichlet_rows() {
    let config = read("conductivity 2.5\nsource constant 1\nsolver max_iterations 50\ndirichlet\n3 1.0\n0 0.0 # fixed\n").unwrap();
    assert_eq!(config.conductivity.as_str(), "2.5");
    assert_eq!(config.dirichlet.len(), 2);
    assert_eq!(config.dirichlet[0].0, 0);
    assert_eq!(config.dirichlet[1].0, 3);
    assert_eq!(config.solver_options.max_iterations, 50);
    assert_eq!(config.solver_options.tolerance.as_str(), "1e-10");
}

#[test]
fn negative_conductivity_is_refused() {
    let err = read("conductivity -1\nsource constant 1\n").unwrap_err();
    assert!(matches!(err, FileIoError::InvalidConductivity { .. }));
}

#[test]
fn zero_tolerance_is_refused() {
    let err = read("conductivity 1\nsource constant 1\nsolver tolerance 0\n").unwrap_err();
    assert!(matches!(err, FileIoError::InvalidTolerance { .. }));
}

#[test]
fn infinite_source_is_refused() {
    let err = read("conductivity 1\nsource constant inf\n").unwrap_err();
    assert!(matches!(err, FileIoError::InvalidSource { .. }));
}

#[test]
fn duplicate_conductivity() {
    let err = read("conductivity 1\nconductivity 2\n").unwrap_err();
    assert_eq!(err, FileIoError::DuplicateParameter { line: 2, name: "conductivity" });
}

#[test]
fn missing_source() {
    let err = read("conductivity 1\n").unwrap_err();
    assert_eq!(err, FileIoError::MissingParameter { name: "source" });
}

#[test]
fn unsupported_source_and_option() {
    assert_eq!(
        read("source linear 1\n").unwrap_err(),
        FileIoError::UnsupportedSource { line: 1, kind: "linear".to_string() }
    );
    assert_eq!(
        read("solver restart 5\n").unwrap_err(),
        FileIoError::UnsupportedSolverOption { line: 1, option: "restart".to_string() }
    );
}

#[test]
fn zero_iterations() {
    assert_eq!(read("solver max_iterations 0\n").unwrap_err(), FileIoError::InvalidMaxIterations);
}

#[test]
fn duplicate_dirichlet_node() {
    let err = read("dirichlet\n1 0\n1 2\n").unwrap_err();
    assert_eq!(err, FileIoError::DuplicateDirichlet { line: 3, node_id: 1 });
}

#[test]
fn stray_row() {
    let err = read("hello\n").unwrap_err();
    assert_eq!(err, FileIoError::InvalidLine { line: 1, expected: "a parameter row or dirichlet section" });
}

#[test]
fn checks_are_listed_in_file_order() {
    let parsed = parse_params_str("solver tolerance 1e-6\nconductivity 3\nsource constant -2\n");
    let kinds: Vec<ValueKind> = parsed.checks.iter().map(|c| c.kind).collect();
    assert_eq!(kinds, vec![ValueKind::Tolerance, ValueKind::Conductivity, ValueKind::Source]);
}

#[test]
fn dirichlet_nodes_must_exist() {
    let config = read("conductivity 1\nsource constant 0\ndirichlet\n5 1\n").unwrap();
    assert_eq!(
        validate_params_for_mesh(&config, 3).unwrap_err(),
        FileIoError::BoundaryNodeOutOfBounds { node_id: 5, node_count: 3 }
    );
    assert!(validate_params_for_mesh(&config, 6).is_ok());
}

#[test]
fn comments_change_nothing_in_a_parameter_file() {
    let plain = "conductivity 2.5\nsource constant 1\ndirichlet\n0 0.0\n";
    let commented = "conductivity 2.5 # W/mK\nsource constant 1#heat\ndirichlet # fixed nodes\n0 0.0 #\n";
    assert_eq!(read(plain).unwrap(), read(commented).unwrap());
    let bad = "conductivity -1\n";
    let bad_commented = "conductivity -1 # negative\n";
    assert_eq!(read(bad).unwrap_err(), read(bad_commented).unwrap_err());
}
