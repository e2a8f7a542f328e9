//! Kepler: mesh, degree-of-freedom and model-description logic of a finite
//! element toolkit, with the file formats it reads and writes.
use vstd::prelude::*;

pub mod annotation;
pub mod condition;
pub mod fem;
pub mod io;
pub mod linalg;
pub mod mesh;
pub mod numbers;
pub mod server;
pub mod text;

pub use annotation::{
    AnnotationError, AnnotationId, EntitySelector, GeometryAnnotations, MaterialAssignment,
    Parameter, ParameterAssignment, ParameterId, ParameterValue, ResolvedAnnotations,
    ResolvedMaterialAssignment, ResolvedParameterAssignment,
};
pub use condition::{
    Condition, ConditionError, ConditionId, ConditionKind, ConditionSet, ConditionSignature,
    ResolvedCondition, ResolvedConditionSet,
};
pub use fem::contact::{extract_boundary_segments, BoundarySegment};
pub use fem::elasticity::{
    DisplacementComponent, DisplacementComponent3D, DisplacementConstraint,
    DisplacementConstraint3D, ElasticityError, ElasticityModel,
};
pub use fem::structural_solve::{dof_index_6, StructuralComponent};
pub use io::abaqus::{
    abaqus_to_annotations, abaqus_to_mesh_2d, parse_abaqus_str, AbaqusBoundary, AbaqusElement,
    AbaqusMaterial, AbaqusModel, AbaqusStep,
};
pub use io::cad::{
    infer_cad_format, plan_cad_meshing_command, validate_cad_meshing_workflow, CadFileFormat,
    CadLengthUnit, CadMeshOutputFormat, CadMeshingDimension, CadMeshingOptions,
    CadMeshingWorkflow, CadSource, CadWorkflowError, ExternalCommand, ExternalMesher,
};
pub use io::gmsh::{parse_gmsh_str, ImportedMesh};
pub use io::mesh::parse_mesh_str;
pub use io::params::{parse_params_str, PoissonFileConfig, SourceConfig};
pub use io::project::{
    default_project_solver_options, job_to_poisson, validate_job, validate_project,
    ProjectDirichlet, ProjectError, ProjectFile, ProjectJob, ProjectLinearSolverBackend,
    ProjectLinearSolverOptions, ProjectMesh, ProjectOutput, ProjectOutputFormat, ProjectPhysics,
    ProjectPoint2, ProjectPoissonProblem, ProjectPreconditionerKind, ProjectSource,
    ProjectTriangle, PROJECT_SCHEMA_VERSION,
};
pub use io::result_format::{KeplerResultCell, RESULT_SCHEMA_VERSION};
pub use io::FileIoError;
pub use linalg::{
    LinearSolverBackend, LinearSolverOptions, PreconditionerKind, SolverOptions, SpdHeuristics,
};
pub use mesh::{
    Cell, CellId, ElementKind, EntityDimension, FacetId, FieldId, MaterialId, Mesh, MeshError,
    MeshTopology, NodeId, Point2, PointD, Region, RegionId, Tri3,
};

verus! {
} // verus!
