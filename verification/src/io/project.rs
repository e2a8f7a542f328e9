//! Project files: a schema version and a list of jobs, each a mesh, a
//! physics problem and an output request; their checks and conversions.
//! Reading and writing the JSON text is left to the caller.
use vstd::prelude::*;
use vstd::std_specs::convert::FromSpec;

use crate::io::params::{validate_params_for_mesh, PoissonFileConfig, SourceConfig};
use crate::io::{FileIoError, IoFault};
use crate::linalg::{LinearSolverBackend, LinearSolverOptions, PreconditionerKind, SolverOptions};
use crate::mesh::{triangle_nodes, triangles_error, triangles_of, Mesh, MeshError, Point2, Tri3};
use crate::numbers::Decimal;
use crate::text::{chars_of, trim, trim_chars};

verus! {

/// The schema version project files are written in.
pub const PROJECT_SCHEMA_VERSION: u32 = 1;

/// A project: its schema version, an optional name and its jobs.
#[derive(Clone, Debug, PartialEq)]
pub struct ProjectFile {
    pub schema_version: u32,
    pub name: Option<String>,
    pub jobs: Vec<ProjectJob>,
}

impl Default for ProjectFile {
    /// A project in the current schema, without a name or jobs.
    fn default() -> (p: Self)
        ensures
            p.schema_version == PROJECT_SCHEMA_VERSION,
            p.name is None,
            p.jobs@.len() == 0,
    {
        ProjectFile { schema_version: PROJECT_SCHEMA_VERSION, name: None, jobs: Vec::new() }
    }
}

/// A job: its id, mesh, physics and output request.
#[derive(Clone, Debug, PartialEq)]
pub struct ProjectJob {
    pub id: String,
    pub mesh: ProjectMesh,
    pub physics: ProjectPhysics,
    pub output: Option<ProjectOutput>,
}

/// A triangle mesh as a project lists it.
#[derive(Clone, Debug, PartialEq)]
pub struct ProjectMesh {
    pub points: Vec<ProjectPoint2>,
    pub triangles: Vec<ProjectTriangle>,
}

/// A point of the plane.
#[derive(Clone, Debug, PartialEq)]
pub struct ProjectPoint2 {
    pub x: Decimal,
    pub y: Decimal,
}

/// A triangle by its three nodes.
#[derive(Clone, Copy, Debug, PartialEq, Eq)]
pub struct ProjectTriangle {
    pub nodes: [usize; 3],
}

/// The physics of a job.
#[derive(Clone, Debug, PartialEq)]
pub enum ProjectPhysics {
    Poisson(ProjectPoissonProblem),
}

/// A Poisson problem.
#[derive(Clone, Debug, PartialEq)]
pub struct ProjectPoissonProblem {
    pub conductivity: Decimal,
    pub source: ProjectSource,
    pub dirichlet: Vec<ProjectDirichlet>,
    pub solver_options: ProjectLinearSolverOptions,
}

/// The source term of a Poisson problem.
#[derive(Clone, Debug, PartialEq)]
pub enum ProjectSource {
    Constant { value: Decimal },
}

/// A prescribed value at a node.
#[derive(Clone, Debug, PartialEq)]
pub struct ProjectDirichlet {
    pub node: usize,
    pub value: Decimal,
}

/// The linear solver options of a job.
#[derive(Clone, Debug, PartialEq)]
pub struct ProjectLinearSolverOptions {
    pub max_iterations: usize,
    pub tolerance: Decimal,
    pub backend: ProjectLinearSolverBackend,
    pub preconditioner: ProjectPreconditionerKind,
    pub record_residual_history: bool,
}

/// The linear solver a job asks for.
#[derive(Clone, Copy, Debug, PartialEq, Eq, Structural)]
pub enum ProjectLinearSolverBackend {
    ConjugateGradient,
    Gmres,
    DenseDirect,
    SparseLdl,
}

/// The preconditioner a job asks for.
#[derive(Clone, Copy, Debug, PartialEq, Eq, Structural)]
pub enum ProjectPreconditionerKind {
    /// No preconditioning (the identity).
    Identity,
    Jacobi,
    Amg,
}

/// What a job writes.
#[derive(Clone, Copy, Debug, PartialEq, Eq, Structural)]
pub struct ProjectOutput {
    pub format: ProjectOutputFormat,
}

/// The format of a job's output.
#[derive(Clone, Copy, Debug, PartialEq, Eq, Structural)]
pub enum ProjectOutputFormat {
    Solution,
}

/// Why a project is not valid.
#[derive(Debug, PartialEq)]
pub enum ProjectError {
    UnsupportedSchemaVersion { version: u32, expected: u32 },
    MissingJobs,
    EmptyJobId,
    DuplicateJobId { id: String },
    Mesh { job_id: String, source: MeshError },
    Params { job_id: String, source: FileIoError },
}

/// A `ProjectError` by its texts.
pub enum ProjectFault {
    UnsupportedSchemaVersion { version: u32, expected: u32 },
    MissingJobs,
    EmptyJobId,
    DuplicateJobId { id: Seq<char> },
    Mesh { job_id: Seq<char>, source: MeshError },
    Params { job_id: Seq<char>, source: IoFault },
}

impl View for ProjectError {
    type V = ProjectFault;

    open spec fn view(&self) -> ProjectFault {
        match self {
            ProjectError::UnsupportedSchemaVersion { version, expected } =>
                ProjectFault::UnsupportedSchemaVersion { version: *version, expected: *expected },
            ProjectError::MissingJobs => ProjectFault::MissingJobs,
            ProjectError::EmptyJobId => ProjectFault::EmptyJobId,
            ProjectError::DuplicateJobId { id } => ProjectFault::DuplicateJobId { id: id@ },
            ProjectError::Mesh { job_id, source } => ProjectFault::Mesh {
                job_id: job_id@,
                source: *source,
            },
            ProjectError::Params { job_id, source } => ProjectFault::Params {
                job_id: job_id@,
                source: source@,
            },
        }
    }
}

impl From<LinearSolverBackend> for ProjectLinearSolverBackend {
    fn from(value: LinearSolverBackend) -> (r: Self) {
        match value {
            LinearSolverBackend::ConjugateGradient => ProjectLinearSolverBackend::ConjugateGradient,
            LinearSolverBackend::Gmres => ProjectLinearSolverBackend::Gmres,
            LinearSolverBackend::DenseDirect => ProjectLinearSolverBackend::DenseDirect,
            LinearSolverBackend::SparseLdl => ProjectLinearSolverBackend::SparseLdl,
        }
    }
}

impl vstd::std_specs::convert::FromSpecImpl<LinearSolverBackend> for ProjectLinearSolverBackend {
    open spec fn obeys_from_spec() -> bool {
        true
    }

    open spec fn from_spec(v: LinearSolverBackend) -> ProjectLinearSolverBackend {
        match v {
            LinearSolverBackend::ConjugateGradient => ProjectLinearSolverBackend::ConjugateGradient,
            LinearSolverBackend::Gmres => ProjectLinearSolverBackend::Gmres,
            LinearSolverBackend::DenseDirect => ProjectLinearSolverBackend::DenseDirect,
            LinearSolverBackend::SparseLdl => ProjectLinearSolverBackend::SparseLdl,
        }
    }
}

impl From<ProjectLinearSolverBackend> for LinearSolverBackend {
    fn from(value: ProjectLinearSolverBackend) -> (r: Self) {
        match value {
            ProjectLinearSolverBackend::ConjugateGradient => LinearSolverBackend::ConjugateGradient,
            ProjectLinearSolverBackend::Gmres => LinearSolverBackend::Gmres,
            ProjectLinearSolverBackend::DenseDirect => LinearSolverBackend::DenseDirect,
            ProjectLinearSolverBackend::SparseLdl => LinearSolverBackend::SparseLdl,
        }
    }
}

impl vstd::std_specs::convert::FromSpecImpl<ProjectLinearSolverBackend> for LinearSolverBackend {
    open spec fn obeys_from_spec() -> bool {
        true
    }

    open spec fn from_spec(v: ProjectLinearSolverBackend) -> LinearSolverBackend {
        match v {
            ProjectLinearSolverBackend::ConjugateGradient => LinearSolverBackend::ConjugateGradient,
            ProjectLinearSolverBackend::Gmres => LinearSolverBackend::Gmres,
            ProjectLinearSolverBackend::DenseDirect => LinearSolverBackend::DenseDirect,
            ProjectLinearSolverBackend::SparseLdl => LinearSolverBackend::SparseLdl,
        }
    }
}

impl From<PreconditionerKind> for ProjectPreconditionerKind {
    fn from(value: PreconditionerKind) -> (r: Self) {
        match value {
            PreconditionerKind::Identity => ProjectPreconditionerKind::Identity,
            PreconditionerKind::Jacobi => ProjectPreconditionerKind::Jacobi,
            PreconditionerKind::Amg => ProjectPreconditionerKind::Amg,
        }
    }
}

impl vstd::std_specs::convert::FromSpecImpl<PreconditionerKind> for ProjectPreconditionerKind {
    open spec fn obeys_from_spec() -> bool {
        true
    }

    open spec fn from_spec(v: PreconditionerKind) -> ProjectPreconditionerKind {
        match v {
            PreconditionerKind::Identity => ProjectPreconditionerKind::Identity,
            PreconditionerKind::Jacobi => ProjectPreconditionerKind::Jacobi,
            PreconditionerKind::Amg => ProjectPreconditionerKind::Amg,
        }
    }
}

impl From<ProjectPreconditionerKind> for PreconditionerKind {
    fn from(value: ProjectPreconditionerKind) -> (r: Self) {
        match value {
            ProjectPreconditionerKind::Identity => PreconditionerKind::Identity,
            ProjectPreconditionerKind::Jacobi => PreconditionerKind::Jacobi,
            ProjectPreconditionerKind::Amg => PreconditionerKind::Amg,
        }
    }
}

impl vstd::std_specs::convert::FromSpecImpl<ProjectPreconditionerKind> for PreconditionerKind {
    open spec fn obeys_from_spec() -> bool {
        true
    }

    open spec fn from_spec(v: ProjectPreconditionerKind) -> PreconditionerKind {
        match v {
            ProjectPreconditionerKind::Identity => PreconditionerKind::Identity,
            ProjectPreconditionerKind::Jacobi => PreconditionerKind::Jacobi,
            ProjectPreconditionerKind::Amg => PreconditionerKind::Amg,
        }
    }
}

impl ProjectLinearSolverOptions {
    /// The options of a linear solve, as a project writes them.
    pub fn from_linear(value: LinearSolverOptions) -> (r: ProjectLinearSolverOptions)
        ensures
            r.max_iterations == value.max_iterations,
            r.tolerance@ == value.tolerance@,
            r.backend == ProjectLinearSolverBackend::from_spec(value.backend),
            r.preconditioner == ProjectPreconditionerKind::from_spec(value.preconditioner),
            r.record_residual_history == value.record_residual_history,
    {
        ProjectLinearSolverOptions {
            max_iterations: value.max_iterations,
            tolerance: value.tolerance,
            backend: ProjectLinearSolverBackend::from(value.backend),
            preconditioner: ProjectPreconditionerKind::from(value.preconditioner),
            record_residual_history: value.record_residual_history,
        }
    }

    /// The options of a linear solve a project asks for.
    pub fn to_linear(&self) -> (r: LinearSolverOptions)
        ensures
            r.max_iterations == self.max_iterations,
            r.tolerance@ == self.tolerance@,
            r.backend == LinearSolverBackend::from_spec(self.backend),
            r.preconditioner == PreconditionerKind::from_spec(self.preconditioner),
            r.record_residual_history == self.record_residual_history,
    {
        LinearSolverOptions {
            max_iterations: self.max_iterations,
            tolerance: self.tolerance.copy(),
            backend: LinearSolverBackend::from(self.backend),
            preconditioner: PreconditionerKind::from(self.preconditioner),
            record_residual_history: self.record_residual_history,
        }
    }
}

impl ProjectMesh {
    /// The points and linear triangles of a mesh, as a project writes them.
    pub fn from_mesh(mesh: &Mesh) -> (r: ProjectMesh)
        ensures
            r.points@.len() == mesh.spec_points().len(),
            forall|i: int|
                0 <= i < r.points@.len() ==> (#[trigger] r.points@[i]).x@
                    == mesh.spec_points()[i].x@ && r.points@[i].y@ == mesh.spec_points()[i].y@,
            r.triangles@.map_values(|t: ProjectTriangle| t.nodes@) == triangles_of(
                mesh.spec_cells(),
            ),
    {
        let source = mesh.points();
        let mut points: Vec<ProjectPoint2> = Vec::new();
        let mut i: usize = 0;
        while i < source.len()
            invariant
                i <= source@.len(),
                source@ == mesh.spec_points(),
                points@.len() == i,
                forall|j: int|
                    0 <= j < i ==> (#[trigger] points@[j]).x@ == source@[j].x@ && points@[j].y@
                        == source@[j].y@,
            decreases source@.len() - i,
        {
            points.push(ProjectPoint2 { x: source[i].x.copy(), y: source[i].y.copy() });
            i += 1;
        }
        let ts = mesh.triangles();
        let mut triangles: Vec<ProjectTriangle> = Vec::new();
        let mut k: usize = 0;
        while k < ts.len()
            invariant
                k <= ts@.len(),
                triangles@.len() == k,
                forall|j: int| 0 <= j < k ==> (#[trigger] triangles@[j]).nodes == ts@[j].nodes,
            decreases ts@.len() - k,
        {
            triangles.push(ProjectTriangle { nodes: ts[k].nodes });
            k += 1;
        }
        assert(triangles@.map_values(|t: ProjectTriangle| t.nodes@) =~= triangle_nodes(ts@));
        ProjectMesh { points, triangles }
    }
}

impl ProjectFile {
    /// A project of one Poisson job, `job_id`, made from a mesh and the
    /// parameters of a parameter file; the job writes its solution. Its
    /// solver options are the file's iteration limits with the conjugate
    /// gradient method, no preconditioner and no residual history.
    pub fn from_legacy_poisson(job_id: &str, mesh: &Mesh, config: PoissonFileConfig) -> (p:
        ProjectFile)
        ensures
            p.schema_version == PROJECT_SCHEMA_VERSION,
            p.name is None,
            p.jobs@.len() == 1,
            p.jobs@[0].id@ == job_id@,
            p.jobs@[0].mesh.points@.len() == mesh.spec_points().len(),
            forall|i: int|
                0 <= i < mesh.spec_points().len() ==> (#[trigger] p.jobs@[0].mesh.points@[i]).x@
                    == mesh.spec_points()[i].x@ && p.jobs@[0].mesh.points@[i].y@
                    == mesh.spec_points()[i].y@,
            p.jobs@[0].mesh.triangles@.map_values(|t: ProjectTriangle| t.nodes@) == triangles_of(
                mesh.spec_cells(),
            ),
            p.jobs@[0].output == Some(ProjectOutput { format: ProjectOutputFormat::Solution }),
            p.jobs@[0].physics matches ProjectPhysics::Poisson(q) && {
                &&& q.conductivity@ == config.conductivity@
                &&& q.source matches ProjectSource::Constant { value } && config.source matches SourceConfig::Constant(c) && value@ == c@
                &&& q.dirichlet@.len() == config.dirichlet@.len()
                &&& forall|i: int|
                    0 <= i < q.dirichlet@.len() ==> (#[trigger] q.dirichlet@[i]).node
                        == config.dirichlet@[i].0 && q.dirichlet@[i].value@
                        == config.dirichlet@[i].1@
                &&& q.solver_options.max_iterations == config.solver_options.max_iterations
                &&& q.solver_options.tolerance@ == config.solver_options.tolerance@
                &&& q.solver_options.backend == ProjectLinearSolverBackend::ConjugateGradient
                &&& q.solver_options.preconditioner == ProjectPreconditionerKind::Identity
                &&& !q.solver_options.record_residual_history
            },
    {
        let ghost dir = config.dirichlet@;
        let PoissonFileConfig { conductivity, source, dirichlet, solver_options } = config;
        let SourceConfig::Constant(value) = source;
        let mut entries: Vec<ProjectDirichlet> = Vec::new();
        let mut i: usize = 0;
        while i < dirichlet.len()
            invariant
                i <= dirichlet@.len(),
                dirichlet@ == dir,
                entries@.len() == i,
                forall|j: int|
                    0 <= j < i ==> (#[trigger] entries@[j]).node == dir[j].0 && entries@[j].value@
                        == dir[j].1@,
            decreases dirichlet@.len() - i,
        {
            entries.push(ProjectDirichlet { node: dirichlet[i].0, value: dirichlet[i].1.copy() });
            i += 1;
        }
        let options = ProjectLinearSolverOptions {
            max_iterations: solver_options.max_iterations,
            tolerance: solver_options.tolerance,
            backend: ProjectLinearSolverBackend::ConjugateGradient,
            preconditioner: ProjectPreconditionerKind::Identity,
            record_residual_history: false,
        };
        let problem = ProjectPoissonProblem {
            conductivity,
            source: ProjectSource::Constant { value },
            dirichlet: entries,
            solver_options: options,
        };
        let mut id = String::new();
        crate::text::append_str(&mut id, job_id);
        assert(id@ =~= job_id@);
        let job = ProjectJob {
            id,
            mesh: ProjectMesh::from_mesh(mesh),
            physics: ProjectPhysics::Poisson(problem),
            output: Some(ProjectOutput { format: ProjectOutputFormat::Solution }),
        };
        let mut jobs: Vec<ProjectJob> = Vec::new();
        jobs.push(job);
        ProjectFile { schema_version: PROJECT_SCHEMA_VERSION, name: None, jobs }
    }
}

/// The solver options a project uses unless it gives others: those of
/// `SolverOptions::default_options`, conjugate gradients without a
/// preconditioner, no residual history.
pub fn default_project_solver_options() -> (o: ProjectLinearSolverOptions)
    ensures
        o.max_iterations == 10_000,
        o.tolerance@ == seq!['1', 'e', '-', '1', '0'],
        o.backend == ProjectLinearSolverBackend::ConjugateGradient,
        o.preconditioner == ProjectPreconditionerKind::Identity,
        !o.record_residual_history,
{
    ProjectLinearSolverOptions::from_linear(LinearSolverOptions::default_options())
}

/// The triangles of a project mesh.
pub open spec fn project_triangles(ts: Seq<ProjectTriangle>) -> Seq<Tri3> {
    ts.map_values(|t: ProjectTriangle| Tri3 { nodes: t.nodes })
}

/// The first Dirichlet entry, in order, on a node outside a mesh of
/// `node_count` nodes.
pub open spec fn dirichlet_fault(ds: Seq<ProjectDirichlet>, node_count: usize) -> Option<IoFault>
    decreases ds.len(),
{
    if ds.len() == 0 {
        None
    } else {
        match dirichlet_fault(ds.drop_last(), node_count) {
            Some(e) => Some(e),
            None => if ds.last().node >= node_count {
                Some(IoFault::BoundaryNodeOutOfBounds { node_id: ds.last().node, node_count })
            } else {
                None
            },
        }
    }
}

/// Why a job is not valid: its mesh is not one, or a Dirichlet entry is on
/// a node the mesh does not have.
pub open spec fn job_fault(job: ProjectJob) -> Option<ProjectFault> {
    let n = job.mesh.points@.len();
    match triangles_error(project_triangles(job.mesh.triangles@), n) {
        Some(e) => Some(ProjectFault::Mesh { job_id: job.id@, source: e }),
        None => match job.physics {
            ProjectPhysics::Poisson(p) => match dirichlet_fault(p.dirichlet@, n as usize) {
                Some(e) => Some(ProjectFault::Params { job_id: job.id@, source: e }),
                None => None,
            },
        },
    }
}

/// Why the jobs are not valid: the first job, in order, with an empty id
/// (once trimmed), an id an earlier job has, or a fault of its own.
pub open spec fn jobs_fault(jobs: Seq<ProjectJob>) -> Option<ProjectFault>
    decreases jobs.len(),
{
    if jobs.len() == 0 {
        None
    } else {
        match jobs_fault(jobs.drop_last()) {
            Some(e) => Some(e),
            None => {
                let job = jobs.last();
                if trim(job.id@).len() == 0 {
                    Some(ProjectFault::EmptyJobId)
                } else if exists|i: int| 0 <= i < jobs.len() - 1 && #[trigger] jobs[i].id@ == job.id@ {
                    Some(ProjectFault::DuplicateJobId { id: job.id@ })
                } else {
                    job_fault(job)
                }
            },
        }
    }
}

/// Why a project is not valid, if it is not.
pub open spec fn project_fault(p: ProjectFile) -> Option<ProjectFault> {
    if p.schema_version != PROJECT_SCHEMA_VERSION {
        Some(
            ProjectFault::UnsupportedSchemaVersion {
                version: p.schema_version,
                expected: PROJECT_SCHEMA_VERSION,
            },
        )
    } else if p.jobs@.len() == 0 {
        Some(ProjectFault::MissingJobs)
    } else {
        jobs_fault(p.jobs@)
    }
}

/// Every job has a non-blank id of its own, a valid mesh and Dirichlet
/// entries on nodes of its mesh.
pub open spec fn jobs_sound(jobs: Seq<ProjectJob>) -> bool {
    &&& forall|i: int| 0 <= i < jobs.len() ==> trim((#[trigger] jobs[i]).id@).len() > 0
    &&& forall|i: int| 0 <= i < jobs.len() ==> job_fault(#[trigger] jobs[i]) is None
    &&& forall|i: int, j: int| 0 <= i < j < jobs.len() ==> jobs[i].id@ != jobs[j].id@
}

proof fn lemma_jobs_without_fault(jobs: Seq<ProjectJob>)
    requires
        jobs_fault(jobs) is None,
    ensures
        jobs_sound(jobs),
    decreases jobs.len(),
{
    if jobs.len() > 0 {
        let init = jobs.drop_last();
        lemma_jobs_without_fault(init);
        let last = jobs.last();
        assert(!exists|i: int| 0 <= i < jobs.len() - 1 && #[trigger] jobs[i].id@ == last.id@);
        assert forall|i: int| 0 <= i < jobs.len() implies trim((#[trigger] jobs[i]).id@).len() > 0 && job_fault(jobs[i]) is None by {
            if i < jobs.len() - 1 {
                assert(jobs[i] == init[i]);
            }
        }
        assert forall|i: int, j: int| 0 <= i < j < jobs.len() implies jobs[i].id@ != jobs[j].id@ by {
            if j < jobs.len() - 1 {
                assert(jobs[i] == init[i] && jobs[j] == init[j]);
            }
        }
    }
}

/// A project that passes validation is written in the current schema, has
/// at least one job, and its jobs have non-blank, distinct ids, valid
/// meshes and Dirichlet entries on nodes of their meshes.
pub proof fn lemma_valid_project_is_sound(p: ProjectFile)
    requires
        project_fault(p) is None,
    ensures
        p.schema_version == PROJECT_SCHEMA_VERSION,
        p.jobs@.len() > 0,
        jobs_sound(p.jobs@),
{
    lemma_jobs_without_fault(p.jobs@);
}

/// The mesh of a project mesh.
fn project_mesh(mesh: &ProjectMesh) -> (r: Result<Mesh, MeshError>)
    ensures
        match r {
            Ok(m) => triangles_error(project_triangles(mesh.triangles@), mesh.points@.len()) is None
                && m.spec_points().len() == mesh.points@.len() && (forall|i: int|
                0 <= i < mesh.points@.len() ==> (#[trigger] m.spec_points()[i]).x@
                    == mesh.points@[i].x@ && m.spec_points()[i].y@ == mesh.points@[i].y@)
                && crate::mesh::are_triangle_cells(
                m.spec_cells(),
                project_triangles(mesh.triangles@),
            ),
            Err(e) => triangles_error(project_triangles(mesh.triangles@), mesh.points@.len()) == Some(
                e,
            ),
        },
{
    let mut points: Vec<Point2> = Vec::new();
    let mut i: usize = 0;
    while i < mesh.points.len()
        invariant
            i <= mesh.points@.len(),
            points@.len() == i,
            forall|j: int|
                0 <= j < i ==> (#[trigger] points@[j]).x@ == mesh.points@[j].x@ && points@[j].y@
                    == mesh.points@[j].y@,
        decreases mesh.points@.len() - i,
    {
        let p = &mesh.points[i];
        points.push(Point2::new(p.x.copy(), p.y.copy()));
        i += 1;
    }
    let mut triangles: Vec<Tri3> = Vec::new();
    let mut k: usize = 0;
    while k < mesh.triangles.len()
        invariant
            k <= mesh.triangles@.len(),
            triangles@ == project_triangles(mesh.triangles@).take(k as int),
        decreases mesh.triangles@.len() - k,
    {
        triangles.push(Tri3::new(mesh.triangles[k].nodes));
        assert(triangles@ =~= project_triangles(mesh.triangles@).take(k + 1));
        k += 1;
    }
    assert(project_triangles(mesh.triangles@).take(mesh.triangles@.len() as int) =~= project_triangles(
        mesh.triangles@,
    ));
    Mesh::new(points, triangles)
}

/// The first Dirichlet entry on a node outside the mesh.
fn check_dirichlet(ds: &Vec<ProjectDirichlet>, node_count: usize) -> (r: Result<(), FileIoError>)
    ensures
        match r {
            Ok(()) => dirichlet_fault(ds@, node_count) is None,
            Err(e) => dirichlet_fault(ds@, node_count) == Some(e@),
        },
{
    let mut i: usize = 0;
    assert(ds@.take(0) =~= Seq::<ProjectDirichlet>::empty());
    while i < ds.len()
        invariant
            i <= ds@.len(),
            dirichlet_fault(ds@.take(i as int), node_count) is None,
        decreases ds@.len() - i,
    {
        assert(ds@.take(i + 1).drop_last() =~= ds@.take(i as int));
        if ds[i].node >= node_count {
            proof {
                lemma_dirichlet_prefix(ds@, node_count, i + 1);
            }
            return Err(FileIoError::BoundaryNodeOutOfBounds { node_id: ds[i].node, node_count });
        }
        i += 1;
    }
    assert(ds@.take(ds@.len() as int) =~= ds@);
    Ok(())
}

proof fn lemma_dirichlet_prefix(ds: Seq<ProjectDirichlet>, node_count: usize, n: int)
    requires
        0 <= n <= ds.len(),
        dirichlet_fault(ds.take(n), node_count) is Some,
    ensures
        dirichlet_fault(ds, node_count) == dirichlet_fault(ds.take(n), node_count),
    decreases ds.len(),
{
    if n < ds.len() {
        assert(ds.drop_last().take(n) =~= ds.take(n));
        lemma_dirichlet_prefix(ds.drop_last(), node_count, n);
    } else {
        assert(ds.take(n) =~= ds);
    }
}

fn copy_string(s: &String) -> (r: String)
    ensures
        r@ == s@,
{
    let c = chars_of(s.as_str());
    crate::text::string_from(c.as_slice())
}

/// Checks a job: its mesh must be one and its Dirichlet entries must be on
/// nodes of that mesh.
pub fn validate_job(job: &ProjectJob) -> (r: Result<(), ProjectError>)
    ensures
        match r {
            Ok(()) => job_fault(*job) is None,
            Err(e) => job_fault(*job) == Some(e@),
        },
{
    let mesh = match project_mesh(&job.mesh) {
        Ok(m) => m,
        Err(source) => {
            return Err(ProjectError::Mesh { job_id: copy_string(&job.id), source });
        },
    };
    match &job.physics {
        ProjectPhysics::Poisson(problem) => {
            match check_dirichlet(&problem.dirichlet, mesh.node_count()) {
                Ok(()) => Ok(()),
                Err(source) => Err(ProjectError::Params { job_id: copy_string(&job.id), source }),
            }
        },
    }
}

/// The mesh and Poisson configuration of a job, once checked.
pub fn job_to_poisson(job: &ProjectJob) -> (r: Result<(Mesh, PoissonFileConfig), ProjectError>)
    ensures
        match r {
            Ok((m, c)) => job_fault(*job) is None && m.spec_points().len() == job.mesh.points@.len()
                && crate::mesh::are_triangle_cells(
                m.spec_cells(),
                project_triangles(job.mesh.triangles@),
            ) && match job.physics {
                ProjectPhysics::Poisson(p) => {
                    &&& c.conductivity@ == p.conductivity@
                    &&& c.dirichlet@.len() == p.dirichlet@.len()
                    &&& forall|i: int|
                        0 <= i < p.dirichlet@.len() ==> (#[trigger] c.dirichlet@[i]).0
                            == p.dirichlet@[i].node && c.dirichlet@[i].1@ == p.dirichlet@[i].value@
                    &&& c.solver_options.max_iterations == p.solver_options.max_iterations
                    &&& c.solver_options.tolerance@ == p.solver_options.tolerance@
                },
            },
            Err(e) => job_fault(*job) == Some(e@),
        },
{
    let mesh = match project_mesh(&job.mesh) {
        Ok(m) => m,
        Err(source) => {
            return Err(ProjectError::Mesh { job_id: copy_string(&job.id), source });
        },
    };
    match &job.physics {
        ProjectPhysics::Poisson(problem) => {
            match check_dirichlet(&problem.dirichlet, mesh.node_count()) {
                Ok(()) => {},
                Err(source) => {
                    return Err(ProjectError::Params { job_id: copy_string(&job.id), source });
                },
            }
            let mut dirichlet: Vec<(usize, Decimal)> = Vec::new();
            let mut i: usize = 0;
            while i < problem.dirichlet.len()
                invariant
                    i <= problem.dirichlet@.len(),
                    dirichlet@.len() == i,
                    forall|j: int|
                        0 <= j < i ==> (#[trigger] dirichlet@[j]).0 == problem.dirichlet@[j].node
                            && dirichlet@[j].1@ == problem.dirichlet@[j].value@,
                decreases problem.dirichlet@.len() - i,
            {
                let d = &problem.dirichlet[i];
                dirichlet.push((d.node, d.value.copy()));
                i += 1;
            }
            let source = match &problem.source {
                ProjectSource::Constant { value } => SourceConfig::Constant(value.copy()),
            };
            let config = PoissonFileConfig {
                conductivity: problem.conductivity.copy(),
                source,
                dirichlet,
                solver_options: SolverOptions {
                    max_iterations: problem.solver_options.max_iterations,
                    tolerance: problem.solver_options.tolerance.copy(),
                },
            };
            Ok((mesh, config))
        },
    }
}

/// Whether an earlier job (before `upto`) has the id.
fn id_taken(jobs: &Vec<ProjectJob>, upto: usize, id: &String) -> (r: bool)
    requires
        upto <= jobs@.len(),
    ensures
        r == exists|i: int| 0 <= i < upto && #[trigger] jobs@[i].id@ == id@,
{
    let target = chars_of(id.as_str());
    let mut i: usize = 0;
    while i < upto
        invariant
            i <= upto <= jobs@.len(),
            target@ == id@,
            forall|j: int| 0 <= j < i ==> (#[trigger] jobs@[j]).id@ != id@,
        decreases upto - i,
    {
        let other = chars_of(jobs[i].id.as_str());
        if crate::text::same_chars(other.as_slice(), target.as_slice()) {
            return true;
        }
        i += 1;
    }
    false
}

proof fn lemma_jobs_prefix(jobs: Seq<ProjectJob>, n: int)
    requires
        0 <= n <= jobs.len(),
        jobs_fault(jobs.take(n)) is Some,
    ensures
        jobs_fault(jobs) == jobs_fault(jobs.take(n)),
    decreases jobs.len(),
{
    if n < jobs.len() {
        assert(jobs.drop_last().take(n) =~= jobs.take(n));
        lemma_jobs_prefix(jobs.drop_last(), n);
    } else {
        assert(jobs.take(n) =~= jobs);
    }
}

/// Checks a project: its schema version, that it has jobs, and each job in
/// order (a non-empty id, not one an earlier job has, and a valid job).
pub fn validate_project(project: &ProjectFile) -> (r: Result<(), ProjectError>)
    ensures
        match r {
            Ok(()) => project_fault(*project) is None,
            Err(e) => project_fault(*project) == Some(e@),
        },
{
    if project.schema_version != PROJECT_SCHEMA_VERSION {
        return Err(
            ProjectError::UnsupportedSchemaVersion {
                version: project.schema_version,
                expected: PROJECT_SCHEMA_VERSION,
            },
        );
    }
    if project.jobs.len() == 0 {
        return Err(ProjectError::MissingJobs);
    }
    let ghost jobs = project.jobs@;
    let mut i: usize = 0;
    assert(jobs.take(0) =~= Seq::<ProjectJob>::empty());
    while i < project.jobs.len()
        invariant
            i <= jobs.len(),
            jobs == project.jobs@,
            project.schema_version == PROJECT_SCHEMA_VERSION,
            jobs.len() > 0,
            jobs_fault(jobs.take(i as int)) is None,
        decreases jobs.len() - i,
    {
        let job = &project.jobs[i];
        let ghost pre = jobs.take(i + 1);
        assert(pre.drop_last() =~= jobs.take(i as int));
        assert(pre.last() == *job);
        let c = chars_of(job.id.as_str());
        let t = trim_chars(c.as_slice());
        if t.len() == 0 {
            proof {
                lemma_jobs_prefix(jobs, i + 1);
            }
            return Err(ProjectError::EmptyJobId);
        }
        let taken = id_taken(&project.jobs, i, &job.id);
        assert(taken == exists|k: int| 0 <= k < pre.len() - 1 && #[trigger] pre[k].id@ == job.id@) by {
            if taken {
                let k = choose|k: int| 0 <= k < i && #[trigger] jobs[k].id@ == job.id@;
                assert(pre[k] == jobs[k]);
            }
            if exists|k: int| 0 <= k < pre.len() - 1 && #[trigger] pre[k].id@ == job.id@ {
                let k = choose|k: int| 0 <= k < pre.len() - 1 && #[trigger] pre[k].id@ == job.id@;
                assert(pre[k] == jobs[k]);
            }
        }
        if taken {
            proof {
                lemma_jobs_prefix(jobs, i + 1);
            }
            return Err(ProjectError::DuplicateJobId { id: copy_string(&job.id) });
        }
        match validate_job(job) {
            Ok(()) => {},
            Err(e) => {
                proof {
                    lemma_jobs_prefix(jobs, i + 1);
                }
                return Err(e);
            },
        }
        i += 1;
    }
    assert(jobs.take(jobs.len() as int) =~= jobs);
    Ok(())
}

} // verus!
