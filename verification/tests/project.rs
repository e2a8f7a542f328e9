use kepler::io::project::{
    default_project_solver_options, job_to_poisson, validate_project, ProjectDirichlet, ProjectError,
    ProjectFile, ProjectJob, ProjectMesh, ProjectPhysics, ProjectPoint2, ProjectPoissonProblem,
    ProjectSource, ProjectTriangle, PROJECT_SCHEMA_VERSION,
};
use kepler::io::FileIoError;
use kepler::numbers::Decimal;

fn dec(s: &str) -> Decimal {
    Decimal::from_text(s).unwrap()
}

fn job(id: &str, dirichlet_node: usize) -> ProjectJob {
    ProjectJob {
        id: id.to_owned(),
        mesh: ProjectMesh {
            points: vec![
                ProjectPoint2 { x: dec("0"), y: dec("0") },
                ProjectPoint2 { x: dec("1"), y: dec("0") },
                ProjectPoint2 { x: dec("0"), y: dec("1") },
            ],
            triangles: vec![ProjectTriangle { nodes: [0, 1, 2] }],
        },
        physics: ProjectPhysics::Poisson(ProjectPoissonProblem {
            conductivity: dec("2"),
            source: ProjectSource::Constant { value: dec("1") },
            dirichlet: vec![ProjectDirichlet { node: dirichlet_node, value: dec("0") }],
            solver_options: default_project_solver_options(),
        }),
        output: None,
    }
}

fn project(jobs: Vec<ProjectJob>) -> ProjectFile {
    ProjectFile { schema_version: PROJECT_SCHEMA_VERSION, name: None, jobs }
}

#[test]
fn valid_project_passes() {
    assert_eq!(validate_project(&project(vec![job("a", 0), job("b", 2)])), Ok(()));
}

#[test]
fn unsupported_schema_version_is_refused() {
    let mut p = project(vec![job("a", 0)]);
    p.schema_version = 99;
    assert_eq!(
        validate_project(&p),
        Err(ProjectError::UnsupportedSchemaVersion { version: 99, expected: 1 })
    );
}

#[test]
fn project_without_jobs_is_refused() {
    assert_eq!(validate_project(&project(vec![])), Err(ProjectError::MissingJobs));
}

#[test]
fn blank_and_duplicate_job_ids_are_refused() {
    assert_eq!(validate_project(&project(vec![job("  ", 0)])), Err(ProjectError::EmptyJobId));
    assert_eq!(
        validate_project(&project(vec![job("a", 0), job("b", 0), job("a", 1)])),
        Err(ProjectError::DuplicateJobId { id: "a".to_owned() })
    );
}

#[test]
fn dirichlet_node_outside_mesh_is_refused() {
    assert_eq!(
        validate_project(&project(vec![job("a", 3)])),
        Err(ProjectError::Params {
            job_id: "a".to_owned(),
            source: FileIoError::BoundaryNodeOutOfBounds { node_id: 3, node_count: 3 },
        })
    );
}

#[test]
fn bad_triangle_is_a_mesh_error_of_its_job() {
    let mut j = job("a", 0);
    j.mesh.triangles[0].nodes = [0, 1, 7];
    match validate_project(&project(vec![j])) {
        Err(ProjectError::Mesh { job_id, .. }) => assert_eq!(job_id, "a"),
        other => panic!("unexpected {other:?}"),
    }
}

#[test]
fn job_converts_to_poisson_configuration() {
    let (mesh, config) = job_to_poisson(&job("a", 1)).unwrap();
    assert_eq!(mesh.points().len(), 3);
    assert_eq!(config.conductivity.as_str(), "2");
    assert_eq!(config.dirichlet.len(), 1);
    assert_eq!(config.dirichlet[0].0, 1);
}

#[test]
fn legacy_poisson_inputs_become_a_one_job_project() {
    let mesh = kepler::io::mesh::parse_mesh_str(
        "nodes\n0 0.0 0.0\n1 1.0 0.0\n2 0.0 1.0\ntriangles\n0 0 1 2\n",
    )
    .unwrap();
    let parsed = kepler::io::params::parse_params_str(
        "conductivity 2\nsource constant 1\ndirichlet\n0 0\n",
    );
    let passed = vec![true; parsed.checks.len()];
    let config = kepler::io::params::resolve_params(parsed, &passed).unwrap();
    let project = ProjectFile::from_legacy_poisson("square", &mesh, config);
    assert_eq!(project.schema_version, PROJECT_SCHEMA_VERSION);
    assert_eq!(project.jobs.len(), 1);
    let job = &project.jobs[0];
    assert_eq!(job.id, "square");
    assert_eq!(job.mesh.points.len(), 3);
    assert_eq!(job.mesh.points[1].x.as_str(), "1.0");
    assert_eq!(job.mesh.triangles[0].nodes, [0, 1, 2]);
    let ProjectPhysics::Poisson(problem) = &job.physics;
    assert_eq!(problem.conductivity.as_str(), "2");
    assert_eq!(problem.dirichlet.len(), 1);
    assert_eq!(problem.solver_options.max_iterations, 10_000);
    assert_eq!(validate_project(&project), Ok(()));
}

#[test]
fn default_project_and_material_are_empty() {
    let p = ProjectFile::default();
    assert_eq!(p.schema_version, 1);
    assert!(p.name.is_none() && p.jobs.is_empty());
    assert_eq!(validate_project(&p), Err(ProjectError::MissingJobs));
    let m = kepler::io::abaqus::AbaqusMaterial::default();
    assert!(m.young_modulus.is_none() && m.density.is_none() && m.plastic_points.is_empty());
}
