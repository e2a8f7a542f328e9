use kepler::io::project::{
    default_project_solver_options, ProjectDirichlet, ProjectFile, ProjectJob, ProjectMesh,
    ProjectPhysics, ProjectPoint2, ProjectPoissonProblem, ProjectSource, ProjectTriangle,
};
use kepler::linalg::{LinearSolverBackend, PreconditionerKind};
use kepler::numbers::Decimal;
use kepler::server::{
    artifact_id, job_id, job_result_url, job_status_url, parse_addr_arg, usage,
    validate_artifact_name, validate_project_summary, validate_solution_artifact, ArtifactKind,
    ArtifactRecord, ArtifactDownloadResponse, ArtifactUploadResponse, AsyncProjectJobRecord,
    AsyncProjectJobStatus, AsyncProjectResultResponse, AsyncProjectStatusResponse,
    AsyncProjectSubmitResponse, SolverOptionsRequest,
};

fn dec(s: &str) -> Decimal {
    Decimal::from_text(s).unwrap()
}

fn point(x: &str, y: &str) -> ProjectPoint2 {
    ProjectPoint2 { x: dec(x), y: dec(y) }
}

fn triangle_project() -> ProjectFile {
    ProjectFile {
        schema_version: 1,
        name: Some("triangle".to_owned()),
        jobs: vec![ProjectJob {
            id: "triangle".to_owned(),
            mesh: ProjectMesh {
                points: vec![point("0", "0"), point("1", "0"), point("0", "1")],
                triangles: vec![ProjectTriangle { nodes: [0, 1, 2] }],
            },
            physics: ProjectPhysics::Poisson(ProjectPoissonProblem {
                conductivity: dec("1"),
                source: ProjectSource::Constant { value: dec("0") },
                dirichlet: vec![ProjectDirichlet { node: 0, value: dec("0") }],
                solver_options: default_project_solver_options(),
            }),
            output: None,
        }],
    }
}

fn logs(record: &AsyncProjectJobRecord<u32>) -> Vec<&str> {
    record.logs.iter().map(|l| l.as_str()).collect()
}

#[test]
fn job_runs_from_queued_to_completed() {
    let mut record: AsyncProjectJobRecord<u32> = AsyncProjectJobRecord::queued(triangle_project());
    assert_eq!(record.status, AsyncProjectJobStatus::Queued);
    assert_eq!(record.status.as_str(), "queued");
    assert!(record.mark_running());
    assert_eq!(record.status.as_str(), "running");
    record.complete(Ok(7));
    assert_eq!(record.status.as_str(), "completed");
    assert_eq!(record.result, Some(7));
    assert_eq!(logs(&record), vec!["job accepted", "job started", "job completed"]);
}

#[test]
fn failed_job_keeps_its_error() {
    let mut record: AsyncProjectJobRecord<u32> = AsyncProjectJobRecord::queued(triangle_project());
    assert!(record.mark_running());
    record.complete(Err("singular matrix".to_owned()));
    assert_eq!(record.status, AsyncProjectJobStatus::Failed);
    assert_eq!(record.error.as_deref(), Some("singular matrix"));
    assert_eq!(logs(&record).last(), Some(&"job failed: singular matrix"));
}

#[test]
fn cancelled_job_never_starts_and_stays_cancelled() {
    let mut record: AsyncProjectJobRecord<u32> = AsyncProjectJobRecord::queued(triangle_project());
    record.cancel();
    assert_eq!(record.status, AsyncProjectJobStatus::Cancelled);
    assert!(record.cancellation_requested);
    assert!(!record.mark_running());
    record.complete(Ok(3));
    assert_eq!(record.status.as_str(), "cancelled");
    assert_eq!(record.result, None);
    assert_eq!(
        logs(&record),
        vec!["job accepted", "cancellation requested", "worker finished after cancellation"]
    );
}

#[test]
fn cancelling_a_finished_job_keeps_its_status() {
    let mut record: AsyncProjectJobRecord<u32> = AsyncProjectJobRecord::queued(triangle_project());
    assert!(record.mark_running());
    record.complete(Ok(1));
    record.cancel();
    assert_eq!(record.status, AsyncProjectJobStatus::Completed);
    assert_eq!(logs(&record).last(), Some(&"cancellation requested after terminal state"));
}

#[test]
fn running_job_can_be_cancelled() {
    let mut record: AsyncProjectJobRecord<u32> = AsyncProjectJobRecord::queued(triangle_project());
    assert!(record.mark_running());
    record.cancel();
    assert_eq!(record.status.as_str(), "cancelled");
}

#[test]
fn identifiers_and_links() {
    assert_eq!(job_id(1), "project-job-1");
    assert_eq!(job_id(42), "project-job-42");
    assert_eq!(artifact_id(7), "artifact-7");
    assert_eq!(job_status_url("project-job-3"), "/projects/jobs/project-job-3");
    assert_eq!(job_result_url("project-job-3"), "/projects/jobs/project-job-3/result");
    let submit = AsyncProjectSubmitResponse::queued("project-job-9".to_owned());
    assert_eq!(submit.status, "queued");
    assert_eq!(submit.status_url, "/projects/jobs/project-job-9");
    assert_eq!(submit.result_url, "/projects/jobs/project-job-9/result");
}

#[test]
fn status_and_result_reports_follow_the_record() {
    let mut record: AsyncProjectJobRecord<u32> = AsyncProjectJobRecord::queued(triangle_project());
    assert!(record.mark_running());
    record.complete(Ok(5));
    let status = AsyncProjectStatusResponse::from_record("project-job-1".to_owned(), &record);
    assert_eq!(status.status, "completed");
    assert_eq!(status.schema_version, 1);
    assert_eq!(status.project_job_count, 1);
    assert_eq!(status.logs.len(), 3);
    assert_eq!(status.result_url, "/projects/jobs/project-job-1/result");
    let result = AsyncProjectResultResponse::from_record("project-job-1".to_owned(), record);
    assert_eq!(result.status, "completed");
    assert_eq!(result.result, Some(5));
    assert_eq!(result.error, None);
}

#[test]
fn artifact_reports_count_bytes() {
    let record = ArtifactRecord {
        kind: ArtifactKind::Mesh,
        name: "triangle.mesh".to_owned(),
        content: "nodes\n0 0.0 0.0\n".to_owned(),
    };
    let up = ArtifactUploadResponse::from_record("artifact-1", &record);
    assert_eq!(up.kind, "mesh");
    assert_eq!(up.name, "triangle.mesh");
    assert_eq!(up.size_bytes, 16);
    assert_eq!(up.download_url, "/projects/artifacts/artifact-1");
    let down = ArtifactDownloadResponse::from_record("artifact-1".to_owned(), &record);
    assert_eq!(down.content, record.content);
    assert_eq!(down.size_bytes, 16);
    let wide = ArtifactRecord {
        kind: ArtifactKind::Params,
        name: "w".to_owned(),
        content: "é€😀a".to_owned(),
    };
    assert_eq!(ArtifactUploadResponse::from_record("artifact-2", &wide).size_bytes, 2 + 3 + 4 + 1);
    assert_eq!(ArtifactKind::Solution.as_str(), "solution");
}

#[test]
fn artifact_names_and_solution_headers() {
    assert!(validate_artifact_name("result.solution").is_ok());
    assert_eq!(validate_artifact_name("  \t").unwrap_err(), "artifact name must not be empty");
    assert!(validate_solution_artifact("# kepler solution\nnode value\n0 0\n").is_ok());
    assert!(validate_solution_artifact("  node value  \r\n").is_ok());
    assert_eq!(
        validate_solution_artifact("nodes\n0 0\n").unwrap_err(),
        "solution artifact must contain a 'node value' header"
    );
}

fn args(v: &[&str]) -> Vec<String> {
    v.iter().map(|s| s.to_string()).collect()
}

#[test]
fn command_line_of_the_server() {
    assert_eq!(parse_addr_arg(&args(&[])), Ok(None));
    assert_eq!(parse_addr_arg(&args(&["--addr", "0.0.0.0:8080"])), Ok(Some("0.0.0.0:8080".to_owned())));
    assert_eq!(parse_addr_arg(&args(&["-h"])), Err(usage()));
    assert_eq!(usage(), "usage: server [--addr <ip:port>]");
    assert_eq!(parse_addr_arg(&args(&["--port"])), Err("unknown option '--port'".to_owned()));
    assert_eq!(parse_addr_arg(&args(&["--addr"])), Err("missing value for --addr".to_owned()));
    assert_eq!(
        parse_addr_arg(&args(&["--addr", "x", "y"])),
        Err("unexpected argument 'y'".to_owned())
    );
}

#[test]
fn solver_option_requests() {
    let o = SolverOptionsRequest::default().into_options().unwrap();
    assert_eq!(o.max_iterations, 10_000);
    assert_eq!(o.tolerance.as_str(), "1e-10");
    assert_eq!(o.backend, LinearSolverBackend::ConjugateGradient);
    assert_eq!(o.preconditioner, PreconditionerKind::Identity);
    assert!(!o.record_residual_history);
    let o = SolverOptionsRequest {
        backend: Some("gmres".to_owned()),
        preconditioner: Some("none".to_owned()),
        record_residual_history: Some(true),
        ..SolverOptionsRequest::default()
    }
    .into_options()
    .unwrap();
    assert_eq!(o.backend, LinearSolverBackend::Gmres);
    assert!(o.record_residual_history);
    let e = SolverOptionsRequest { backend: Some("magic".to_owned()), ..SolverOptionsRequest::default() }
        .into_options()
        .unwrap_err();
    assert_eq!(e, "unsupported solver backend 'magic'");
    let e = SolverOptionsRequest {
        preconditioner: Some("ilu".to_owned()),
        ..SolverOptionsRequest::default()
    }
    .into_options()
    .unwrap_err();
    assert_eq!(e, "unsupported preconditioner 'ilu'");
}

#[test]
fn project_validation_summary() {
    let v = validate_project_summary(&triangle_project()).unwrap();
    assert_eq!(v.status, "valid");
    assert_eq!(v.schema_version, 1);
    assert_eq!(v.job_count, 1);
    assert_eq!(v.jobs[0].id, "triangle");
    assert_eq!(v.jobs[0].physics, "poisson");
    assert_eq!(v.jobs[0].points, 3);
    assert_eq!(v.jobs[0].triangles, 1);
    let mut bad = triangle_project();
    bad.schema_version = 99;
    assert!(validate_project_summary(&bad).is_err());
}
