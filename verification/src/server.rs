//! The decisions of the REST server: the life of an asynchronous project
//! job, the artifacts it stores, the identifiers and links it hands out,
//! the bodies of its answers and the reading of its command line.
use vstd::prelude::*;

use vstd::utf8::encode_utf8;

use crate::io::project::{
    project_fault, validate_project, ProjectError, ProjectFile, ProjectJob, ProjectPhysics,
};
use crate::linalg::{
    backend_named, preconditioner_named, LinearSolverBackend, LinearSolverOptions,
    PreconditionerKind, SolverOptions,
};
use crate::numbers::{decimal_text, lemma_decimal_text_injective, u64_text, Decimal};
use crate::text::{
    append_chars, append_str, chars_of, is_literal, lines_of, split_lines, trim, trim_chars,
};

verus! {

/// Where an asynchronous project job stands.
#[derive(Clone, Copy, Debug, PartialEq, Eq, Structural)]
pub enum AsyncProjectJobStatus {
    Queued,
    Running,
    Completed,
    Failed,
    Cancelled,
}

/// The name a status is reported under.
pub open spec fn status_name(s: AsyncProjectJobStatus) -> Seq<char> {
    match s {
        AsyncProjectJobStatus::Queued => "queued"@,
        AsyncProjectJobStatus::Running => "running"@,
        AsyncProjectJobStatus::Completed => "completed"@,
        AsyncProjectJobStatus::Failed => "failed"@,
        AsyncProjectJobStatus::Cancelled => "cancelled"@,
    }
}

/// A job that has finished one way or another.
pub open spec fn is_terminal(s: AsyncProjectJobStatus) -> bool {
    s is Completed || s is Failed || s is Cancelled
}

impl AsyncProjectJobStatus {
    /// The name the status is reported under.
    pub fn as_str(&self) -> (s: &'static str)
        ensures
            s@ == status_name(*self),
    {
        match self {
            AsyncProjectJobStatus::Queued => "queued",
            AsyncProjectJobStatus::Running => "running",
            AsyncProjectJobStatus::Completed => "completed",
            AsyncProjectJobStatus::Failed => "failed",
            AsyncProjectJobStatus::Cancelled => "cancelled",
        }
    }
}

/// The characters of each string.
pub open spec fn text_views(v: Seq<String>) -> Seq<Seq<char>> {
    v.map_values(|s: String| s@)
}

/// The characters of an optional string.
pub open spec fn opt_text(o: Option<String>) -> Option<Seq<char>> {
    match o {
        Some(s) => Some(s@),
        None => None,
    }
}

/// The outcome of a worker, with its error message as characters.
pub open spec fn outcome_view<R>(o: Result<R, String>) -> Result<R, Seq<char>> {
    match o {
        Ok(r) => Ok(r),
        Err(e) => Err(e@),
    }
}

/// What the server keeps of an asynchronous job: its status, the project
/// it runs, its log, the result or error of the worker, and whether a
/// cancellation was asked for. `R` is what a finished job yields.
#[derive(Clone, Debug)]
pub struct AsyncProjectJobRecord<R> {
    pub status: AsyncProjectJobStatus,
    pub project: ProjectFile,
    pub logs: Vec<String>,
    pub result: Option<R>,
    pub error: Option<String>,
    pub cancellation_requested: bool,
}

/// A job record with its texts as character sequences.
pub struct JobState<R> {
    pub status: AsyncProjectJobStatus,
    pub project: ProjectFile,
    pub logs: Seq<Seq<char>>,
    pub result: Option<R>,
    pub error: Option<Seq<char>>,
    pub cancellation_requested: bool,
}

impl<R> View for AsyncProjectJobRecord<R> {
    type V = JobState<R>;

    open spec fn view(&self) -> JobState<R> {
        JobState {
            status: self.status,
            project: self.project,
            logs: text_views(self.logs@),
            result: self.result,
            error: opt_text(self.error),
            cancellation_requested: self.cancellation_requested,
        }
    }
}

/// A job just accepted: queued, with the log line `job accepted`.
pub open spec fn queued_state<R>(project: ProjectFile) -> JobState<R> {
    JobState {
        status: AsyncProjectJobStatus::Queued,
        project,
        logs: seq!["job accepted"@],
        result: None,
        error: None,
        cancellation_requested: false,
    }
}

/// The job after a cancellation request: a queued or running job becomes
/// cancelled and logs `cancellation requested`; a finished one keeps its
/// status and logs `cancellation requested after terminal state`. Either
/// way the request is remembered.
pub open spec fn cancel_state<R>(s: JobState<R>) -> JobState<R> {
    let line = if s.status is Queued || s.status is Running {
        "cancellation requested"@
    } else {
        "cancellation requested after terminal state"@
    };
    JobState {
        status: if s.status is Queued || s.status is Running {
            AsyncProjectJobStatus::Cancelled
        } else {
            s.status
        },
        project: s.project,
        logs: s.logs.push(line),
        result: s.result,
        error: s.error,
        cancellation_requested: true,
    }
}

/// A worker may start a job unless a cancellation was asked for or the job
/// is cancelled.
pub open spec fn may_start<R>(s: JobState<R>) -> bool {
    !s.cancellation_requested && !(s.status is Cancelled)
}

/// The job once a worker started it: running, with the log line
/// `job started`.
pub open spec fn start_state<R>(s: JobState<R>) -> JobState<R> {
    JobState {
        status: AsyncProjectJobStatus::Running,
        project: s.project,
        logs: s.logs.push("job started"@),
        result: s.result,
        error: s.error,
        cancellation_requested: s.cancellation_requested,
    }
}

/// The job once its worker finished with `outcome`: a cancelled job only
/// logs `worker finished after cancellation`; otherwise a result completes
/// it (`job completed`) and an error fails it (`job failed: ` and the
/// error).
pub open spec fn finish_state<R>(s: JobState<R>, outcome: Result<R, Seq<char>>) -> JobState<R> {
    if s.status is Cancelled {
        JobState {
            status: s.status,
            project: s.project,
            logs: s.logs.push("worker finished after cancellation"@),
            result: s.result,
            error: s.error,
            cancellation_requested: s.cancellation_requested,
        }
    } else {
        match outcome {
            Ok(r) => JobState {
                status: AsyncProjectJobStatus::Completed,
                project: s.project,
                logs: s.logs.push("job completed"@),
                result: Some(r),
                error: s.error,
                cancellation_requested: s.cancellation_requested,
            },
            Err(e) => JobState {
                status: AsyncProjectJobStatus::Failed,
                project: s.project,
                logs: s.logs.push("job failed: "@ + e),
                result: s.result,
                error: Some(e),
                cancellation_requested: s.cancellation_requested,
            },
        }
    }
}

/// A `String` holding the characters of `lit`.
fn text(lit: &str) -> (s: String)
    ensures
        s@ == lit@,
{
    let mut s = String::new();
    append_str(&mut s, lit);
    s
}

/// Appends a line to a log.
fn log_line(logs: &mut Vec<String>, line: String)
    ensures
        text_views(final(logs)@) == text_views(old(logs)@).push(line@),
{
    let ghost before = logs@;
    logs.push(line);
    assert(text_views(logs@) =~= text_views(before).push(line@));
}

impl<R> AsyncProjectJobRecord<R> {
    /// The record of a job just accepted for `project`.
    pub fn queued(project: ProjectFile) -> (r: Self)
        ensures
            r@ == queued_state::<R>(project),
    {
        let mut logs: Vec<String> = Vec::new();
        log_line(&mut logs, text("job accepted"));
        assert(text_views(logs@) =~= seq!["job accepted"@]);
        AsyncProjectJobRecord {
            status: AsyncProjectJobStatus::Queued,
            project,
            logs,
            result: None,
            error: None,
            cancellation_requested: false,
        }
    }

    /// Records a cancellation request.
    pub fn cancel(&mut self)
        ensures
            final(self)@ == cancel_state(old(self)@),
    {
        self.cancellation_requested = true;
        match self.status {
            AsyncProjectJobStatus::Queued | AsyncProjectJobStatus::Running => {
                self.status = AsyncProjectJobStatus::Cancelled;
                log_line(&mut self.logs, text("cancellation requested"));
            },
            AsyncProjectJobStatus::Completed
            | AsyncProjectJobStatus::Failed
            | AsyncProjectJobStatus::Cancelled => {
                log_line(&mut self.logs, text("cancellation requested after terminal state"));
            },
        }
    }

    /// Starts the job for a worker, unless it may not start; says whether
    /// it started. A job that may not start is left as it was.
    pub fn mark_running(&mut self) -> (started: bool)
        ensures
            started == may_start(old(self)@),
            final(self)@ == (if started {
                start_state(old(self)@)
            } else {
                old(self)@
            }),
    {
        if self.cancellation_requested || self.status == AsyncProjectJobStatus::Cancelled {
            return false;
        }
        self.status = AsyncProjectJobStatus::Running;
        log_line(&mut self.logs, text("job started"));
        true
    }

    /// Records what the worker of the job came back with.
    pub fn complete(&mut self, outcome: Result<R, String>)
        ensures
            final(self)@ == finish_state(old(self)@, outcome_view(outcome)),
    {
        if self.status == AsyncProjectJobStatus::Cancelled {
            log_line(&mut self.logs, text("worker finished after cancellation"));
            return;
        }
        match outcome {
            Ok(result) => {
                self.status = AsyncProjectJobStatus::Completed;
                log_line(&mut self.logs, text("job completed"));
                self.result = Some(result);
            },
            Err(error) => {
                self.status = AsyncProjectJobStatus::Failed;
                let mut line = text("job failed: ");
                append_str(&mut line, error.as_str());
                log_line(&mut self.logs, line);
                self.error = Some(error);
            },
        }
    }
}

/// Once a job is cancelled it stays cancelled: no worker starts it, a
/// second cancellation leaves it cancelled, and a worker that finishes
/// afterwards changes neither its status, its result nor its error.
pub proof fn lemma_cancelled_job_stays_cancelled<R>(s: JobState<R>, outcome: Result<R, Seq<char>>)
    requires
        s.status is Cancelled,
    ensures
        !may_start(s),
        cancel_state(s).status is Cancelled,
        finish_state(s, outcome).status is Cancelled,
        finish_state(s, outcome).result == s.result,
        finish_state(s, outcome).error == s.error,
{
}

/// A cancellation request keeps any worker from starting the job; it
/// cancels a job that has not finished and leaves the status of a finished
/// one as it was.
pub proof fn lemma_cancel_stops_the_job<R>(s: JobState<R>)
    ensures
        !may_start(cancel_state(s)),
        is_terminal(s.status) ==> cancel_state(s).status == s.status,
        !is_terminal(s.status) ==> cancel_state(s).status is Cancelled,
{
}

/// The log of a job only grows: every step keeps the lines already written
/// and appends exactly one.
pub proof fn lemma_log_only_grows<R>(s: JobState<R>, outcome: Result<R, Seq<char>>)
    ensures
        cancel_state(s).logs.len() == s.logs.len() + 1,
        cancel_state(s).logs.take(s.logs.len() as int) == s.logs,
        start_state(s).logs.len() == s.logs.len() + 1,
        start_state(s).logs.take(s.logs.len() as int) == s.logs,
        finish_state(s, outcome).logs.len() == s.logs.len() + 1,
        finish_state(s, outcome).logs.take(s.logs.len() as int) == s.logs,
{
    assert(cancel_state(s).logs.take(s.logs.len() as int) =~= s.logs);
    assert(start_state(s).logs.take(s.logs.len() as int) =~= s.logs);
    assert(finish_state(s, outcome).logs.take(s.logs.len() as int) =~= s.logs);
}

/// A job that a worker starts and finishes with a result is completed and
/// holds that result, its log reading `job accepted`, `job started`,
/// `job completed`.
pub proof fn lemma_job_runs_to_result<R>(project: ProjectFile, r: R)
    ensures
        may_start(queued_state::<R>(project)),
        finish_state(start_state(queued_state::<R>(project)), Ok(r)).status is Completed,
        finish_state(start_state(queued_state::<R>(project)), Ok(r)).result == Some(r),
        finish_state(start_state(queued_state::<R>(project)), Ok(r)).logs == seq![
            "job accepted"@,
            "job started"@,
            "job completed"@,
        ],
{
    assert(finish_state(start_state(queued_state::<R>(project)), Ok(r)).logs =~= seq![
        "job accepted"@,
        "job started"@,
        "job completed"@,
    ]);
}

/// The identifier of the `n`-th job the server accepted.
pub fn job_id(n: u64) -> (id: String)
    ensures
        id@ == "project-job-"@ + decimal_text(n as nat),
{
    let mut id = text("project-job-");
    let digits = u64_text(n);
    append_chars(&mut id, digits.as_slice());
    id
}

/// The identifier of the `n`-th artifact the server stored.
pub fn artifact_id(n: u64) -> (id: String)
    ensures
        id@ == "artifact-"@ + decimal_text(n as nat),
{
    let mut id = text("artifact-");
    let digits = u64_text(n);
    append_chars(&mut id, digits.as_slice());
    id
}

/// Different counts give different identifiers: no two jobs, and no two
/// artifacts, share an id.
pub proof fn lemma_ids_are_distinct(n: u64, m: u64)
    requires
        n != m,
    ensures
        "project-job-"@ + decimal_text(n as nat) != "project-job-"@ + decimal_text(m as nat),
        "artifact-"@ + decimal_text(n as nat) != "artifact-"@ + decimal_text(m as nat),
{
    let (a, b) = (decimal_text(n as nat), decimal_text(m as nat));
    let job = "project-job-"@;
    if job + a == job + b {
        assert((job + a).skip(job.len() as int) =~= a);
        assert((job + b).skip(job.len() as int) =~= b);
        lemma_decimal_text_injective(n as nat, m as nat);
    }
    let art = "artifact-"@;
    if art + a == art + b {
        assert((art + a).skip(art.len() as int) =~= a);
        assert((art + b).skip(art.len() as int) =~= b);
        lemma_decimal_text_injective(n as nat, m as nat);
    }
}

/// `prefix`, `middle` and `suffix` in one string.
fn joined(prefix: &str, middle: &str, suffix: &str) -> (s: String)
    ensures
        s@ == prefix@ + middle@ + suffix@,
{
    let mut s = prefixed(prefix, middle);
    append_str(&mut s, suffix);
    s
}

/// `prefix` followed by `tail`.
fn prefixed(prefix: &str, tail: &str) -> (s: String)
    ensures
        s@ == prefix@ + tail@,
{
    let mut s = text(prefix);
    append_str(&mut s, tail);
    s
}

/// Where the status of a job is read: `/projects/jobs/{job_id}`.
pub fn job_status_url(job_id: &str) -> (u: String)
    ensures
        u@ == "/projects/jobs/"@ + job_id@,
{
    prefixed("/projects/jobs/", job_id)
}

/// Where the result of a job is read: `/projects/jobs/{job_id}/result`.
pub fn job_result_url(job_id: &str) -> (u: String)
    ensures
        u@ == "/projects/jobs/"@ + job_id@ + "/result"@,
{
    joined("/projects/jobs/", job_id, "/result")
}

/// Where an artifact is downloaded: `/projects/artifacts/{artifact_id}`.
pub fn artifact_download_url(artifact_id: &str) -> (u: String)
    ensures
        u@ == "/projects/artifacts/"@ + artifact_id@,
{
    prefixed("/projects/artifacts/", artifact_id)
}

/// The message for a job id the server does not know.
pub fn unknown_job_message(job_id: &str) -> (m: String)
    ensures
        m@ == "unknown project job '"@ + job_id@ + "'"@,
{
    joined("unknown project job '", job_id, "'")
}

/// The message for an artifact id the server does not know.
pub fn unknown_artifact_message(artifact_id: &str) -> (m: String)
    ensures
        m@ == "unknown artifact '"@ + artifact_id@ + "'"@,
{
    joined("unknown artifact '", artifact_id, "'")
}

/// The answer to a job submission: the job is queued, with the links to
/// its status and result.
#[derive(Debug)]
pub struct AsyncProjectSubmitResponse {
    pub job_id: String,
    pub status: &'static str,
    pub status_url: String,
    pub result_url: String,
}

impl AsyncProjectSubmitResponse {
    /// The answer for the job `job_id` just queued.
    pub fn queued(job_id: String) -> (r: Self)
        ensures
            r.job_id@ == job_id@,
            r.status@ == "queued"@,
            r.status_url@ == "/projects/jobs/"@ + job_id@,
            r.result_url@ == "/projects/jobs/"@ + job_id@ + "/result"@,
    {
        let status_url = job_status_url(job_id.as_str());
        let result_url = job_result_url(job_id.as_str());
        AsyncProjectSubmitResponse { job_id, status: "queued", status_url, result_url }
    }
}

/// A copy of a list of strings.
fn copy_lines(v: &Vec<String>) -> (r: Vec<String>)
    ensures
        text_views(r@) == text_views(v@),
{
    let mut r: Vec<String> = Vec::new();
    let mut i: usize = 0;
    while i < v.len()
        invariant
            i <= v@.len(),
            text_views(r@) == text_views(v@.take(i as int)),
        decreases v@.len() - i,
    {
        let ghost before = r@;
        r.push(v[i].clone());
        assert(text_views(r@) =~= text_views(before).push(v@[i as int]@));
        assert(text_views(v@.take(i + 1)) =~= text_views(v@.take(i as int)).push(v@[i as int]@));
        i += 1;
    }
    assert(v@.take(v@.len() as int) =~= v@);
    r
}

/// A copy of an optional string.
fn copy_opt(o: &Option<String>) -> (r: Option<String>)
    ensures
        opt_text(r) == opt_text(*o),
{
    match o {
        Some(s) => Some(s.clone()),
        None => None,
    }
}

/// The status of a job as the server reports it.
#[derive(Debug)]
pub struct AsyncProjectStatusResponse {
    pub job_id: String,
    pub status: &'static str,
    pub schema_version: u32,
    pub project_job_count: usize,
    pub logs: Vec<String>,
    pub error: Option<String>,
    pub result_url: String,
}

impl AsyncProjectStatusResponse {
    /// The report on the job `job_id` kept in `record`.
    pub fn from_record<R>(job_id: String, record: &AsyncProjectJobRecord<R>) -> (r: Self)
        ensures
            r.job_id@ == job_id@,
            r.status@ == status_name(record.status),
            r.schema_version == record.project.schema_version,
            r.project_job_count == record.project.jobs@.len(),
            text_views(r.logs@) == text_views(record.logs@),
            opt_text(r.error) == opt_text(record.error),
            r.result_url@ == "/projects/jobs/"@ + job_id@ + "/result"@,
    {
        let result_url = job_result_url(job_id.as_str());
        AsyncProjectStatusResponse {
            result_url,
            job_id,
            status: record.status.as_str(),
            schema_version: record.project.schema_version,
            project_job_count: record.project.jobs.len(),
            logs: copy_lines(&record.logs),
            error: copy_opt(&record.error),
        }
    }
}

/// The result of a job as the server reports it.
#[derive(Debug)]
pub struct AsyncProjectResultResponse<R> {
    pub job_id: String,
    pub status: &'static str,
    pub result: Option<R>,
    pub error: Option<String>,
    pub logs: Vec<String>,
}

impl<R> AsyncProjectResultResponse<R> {
    /// The report on the result of the job `job_id`, made from its record.
    pub fn from_record(job_id: String, record: AsyncProjectJobRecord<R>) -> (r: Self)
        ensures
            r.job_id@ == job_id@,
            r.status@ == status_name(record.status),
            r.result == record.result,
            opt_text(r.error) == opt_text(record.error),
            text_views(r.logs@) == text_views(record.logs@),
    {
        let status = record.status.as_str();
        AsyncProjectResultResponse {
            job_id,
            status,
            result: record.result,
            error: record.error,
            logs: record.logs,
        }
    }
}

/// What kind of file an artifact is.
#[derive(Clone, Copy, Debug, PartialEq, Eq, Structural)]
pub enum ArtifactKind {
    Mesh,
    Params,
    Project,
    Solution,
}

/// The name an artifact kind is reported under.
pub open spec fn kind_name(k: ArtifactKind) -> Seq<char> {
    match k {
        ArtifactKind::Mesh => "mesh"@,
        ArtifactKind::Params => "params"@,
        ArtifactKind::Project => "project"@,
        ArtifactKind::Solution => "solution"@,
    }
}

impl ArtifactKind {
    /// The name the kind is reported under.
    pub fn as_str(self) -> (s: &'static str)
        ensures
            s@ == kind_name(self),
    {
        match self {
            ArtifactKind::Mesh => "mesh",
            ArtifactKind::Params => "params",
            ArtifactKind::Project => "project",
            ArtifactKind::Solution => "solution",
        }
    }
}

/// A stored artifact: its kind, name and content.
#[derive(Clone, Debug)]
pub struct ArtifactRecord {
    pub kind: ArtifactKind,
    pub name: String,
    pub content: String,
}

/// A copy of a string.
fn copy_text(s: &String) -> (r: String)
    ensures
        r@ == s@,
{
    s.clone()
}

/// The answer to an artifact upload.
#[derive(Debug)]
pub struct ArtifactUploadResponse {
    pub artifact_id: String,
    pub kind: &'static str,
    pub name: String,
    pub size_bytes: usize,
    pub download_url: String,
}

impl ArtifactUploadResponse {
    /// The answer for `record`, stored as `artifact_id`.
    pub fn from_record(artifact_id: &str, record: &ArtifactRecord) -> (r: Self)
        ensures
            r.artifact_id@ == artifact_id@,
            r.kind@ == kind_name(record.kind),
            r.name@ == record.name@,
            r.size_bytes == encode_utf8(record.content@).len() as usize,
            r.download_url@ == "/projects/artifacts/"@ + artifact_id@,
    {
        ArtifactUploadResponse {
            artifact_id: text(artifact_id),
            kind: record.kind.as_str(),
            name: copy_text(&record.name),
            size_bytes: record.content.as_str().len(),
            download_url: artifact_download_url(artifact_id),
        }
    }
}

/// An artifact as it is downloaded.
#[derive(Debug)]
pub struct ArtifactDownloadResponse {
    pub artifact_id: String,
    pub kind: &'static str,
    pub name: String,
    pub content: String,
    pub size_bytes: usize,
}

impl ArtifactDownloadResponse {
    /// The download of `record`, stored as `artifact_id`.
    pub fn from_record(artifact_id: String, record: &ArtifactRecord) -> (r: Self)
        ensures
            r.artifact_id@ == artifact_id@,
            r.kind@ == kind_name(record.kind),
            r.name@ == record.name@,
            r.content@ == record.content@,
            r.size_bytes == encode_utf8(record.content@).len() as usize,
    {
        ArtifactDownloadResponse {
            artifact_id,
            kind: record.kind.as_str(),
            name: copy_text(&record.name),
            size_bytes: record.content.as_str().len(),
            content: copy_text(&record.content),
        }
    }
}

/// The name of an artifact must hold more than whitespace.
pub fn validate_artifact_name(name: &str) -> (r: Result<(), String>)
    ensures
        r is Ok <==> trim(name@).len() > 0,
        r matches Err(m) ==> m@ == "artifact name must not be empty"@,
{
    let c = chars_of(name);
    let t = trim_chars(c.as_slice());
    if t.len() == 0 {
        Err(text("artifact name must not be empty"))
    } else {
        Ok(())
    }
}

/// A solution file has a line that reads `node value` once trimmed.
pub open spec fn has_node_value_header(s: Seq<char>) -> bool {
    exists|i: int| 0 <= i < lines_of(s).len() && trim(#[trigger] lines_of(s)[i]) == "node value"@
}

/// Accepts a solution artifact only if it has the `node value` header.
pub fn validate_solution_artifact(content: &str) -> (r: Result<(), String>)
    ensures
        r is Ok <==> has_node_value_header(content@),
        r matches Err(m) ==> m@ == "solution artifact must contain a 'node value' header"@,
{
    let c = chars_of(content);
    let lines = split_lines(c.as_slice());
    let ghost ls = lines_of(content@);
    let mut i: usize = 0;
    while i < lines.len()
        invariant
            c@ == content@,
            ls == lines_of(content@),
            i <= lines@.len(),
            lines@.len() == ls.len(),
            forall|k: int| 0 <= k < lines@.len() ==> #[trigger] lines@[k]@ == ls[k],
            forall|k: int| 0 <= k < i ==> trim(#[trigger] ls[k]) != "node value"@,
        decreases lines@.len() - i,
    {
        let t = trim_chars(lines[i].as_slice());
        if is_literal(t.as_slice(), "node value") {
            assert(trim(lines_of(content@)[i as int]) == "node value"@);
            assert(has_node_value_header(content@));
            return Ok(());
        }
        i += 1;
    }
    Err(text("solution artifact must contain a 'node value' header"))
}

/// The usage line of the server.
pub open spec fn usage_text() -> Seq<char> {
    "usage: server [--addr <ip:port>]"@
}

/// The usage line of the server.
pub fn usage() -> (s: String)
    ensures
        s@ == usage_text(),
{
    text("usage: server [--addr <ip:port>]")
}

/// What the command line of the server asks for: nothing (the default
/// address), `--addr` and an address, or an error message.
pub open spec fn addr_request(args: Seq<Seq<char>>) -> Result<Option<Seq<char>>, Seq<char>> {
    if args.len() == 0 {
        Ok(None)
    } else if args[0] == "--help"@ || args[0] == "-h"@ {
        Err(usage_text())
    } else if args[0] != "--addr"@ {
        Err("unknown option '"@ + args[0] + "'"@)
    } else if args.len() == 1 {
        Err("missing value for --addr"@)
    } else if args.len() > 2 {
        Err("unexpected argument '"@ + args[2] + "'"@)
    } else {
        Ok(Some(args[1]))
    }
}

/// The address text the command line gives, `None` for the default
/// address, or the message for a command line the server refuses.
pub fn parse_addr_arg(args: &[String]) -> (r: Result<Option<String>, String>)
    ensures
        match r {
            Ok(a) => addr_request(text_views(args@)) == Ok::<Option<Seq<char>>, Seq<char>>(
                opt_text(a),
            ),
            Err(m) => addr_request(text_views(args@)) == Err::<Option<Seq<char>>, Seq<char>>(m@),
        },
{
    let ghost v = text_views(args@);
    if args.len() == 0 {
        return Ok(None);
    }
    let first = chars_of(args[0].as_str());
    assert(first@ == v[0]);
    if is_literal(first.as_slice(), "--help") || is_literal(first.as_slice(), "-h") {
        return Err(usage());
    }
    if !is_literal(first.as_slice(), "--addr") {
        return Err(joined("unknown option '", args[0].as_str(), "'"));
    }
    if args.len() == 1 {
        return Err(text("missing value for --addr"));
    }
    if args.len() > 2 {
        assert(args@[2]@ == v[2]);
        return Err(joined("unexpected argument '", args[2].as_str(), "'"));
    }
    assert(args@[1]@ == v[1]);
    Ok(Some(copy_text(&args[1])))
}

/// The name a physics is reported under.
pub fn physics_name(physics: &ProjectPhysics) -> (s: &'static str)
    ensures
        s@ == "poisson"@,
{
    match physics {
        ProjectPhysics::Poisson(_) => "poisson",
    }
}

/// The solver options a solve request may give; what it leaves out takes
/// its default.
#[derive(Debug, Default)]
pub struct SolverOptionsRequest {
    pub max_iterations: Option<usize>,
    pub tolerance: Option<Decimal>,
    pub backend: Option<String>,
    pub preconditioner: Option<String>,
    pub record_residual_history: Option<bool>,
}

impl SolverOptionsRequest {
    /// The options the request asks for: ten thousand iterations,
    /// tolerance `1e-10`, the conjugate gradient method without
    /// preconditioner and no residual history where it says nothing; an
    /// error for a backend or a preconditioner it names and the server does
    /// not know (the backend is checked first).
    pub fn into_options(self) -> (r: Result<LinearSolverOptions, String>)
        ensures
            backend_named(opt_text(self.backend)) is None ==> (r matches Err(m) && m@
                == "unsupported solver backend '"@ + self.backend->0@ + "'"@),
            backend_named(opt_text(self.backend)) is Some && preconditioner_named(
                opt_text(self.preconditioner),
            ) is None ==> (r matches Err(m) && m@ == "unsupported preconditioner '"@
                + self.preconditioner->0@ + "'"@),
            r is Ok <==> backend_named(opt_text(self.backend)) is Some && preconditioner_named(
                opt_text(self.preconditioner),
            ) is Some,
            r matches Ok(o) ==> {
                &&& o.max_iterations == (match self.max_iterations {
                    Some(n) => n,
                    None => 10_000,
                })
                &&& o.tolerance@ == (match self.tolerance {
                    Some(t) => t@,
                    None => seq!['1', 'e', '-', '1', '0'],
                })
                &&& Some(o.backend) == backend_named(opt_text(self.backend))
                &&& Some(o.preconditioner) == preconditioner_named(opt_text(self.preconditioner))
                &&& o.record_residual_history == (match self.record_residual_history {
                    Some(b) => b,
                    None => false,
                })
            },
    {
        let defaults = SolverOptions::default_options();
        let backend = match &self.backend {
            Some(b) => LinearSolverBackend::from_name(Some(b.as_str())),
            None => LinearSolverBackend::from_name(None),
        };
        let backend = match backend {
            Ok(b) => b,
            Err(m) => return Err(m),
        };
        let preconditioner = match &self.preconditioner {
            Some(p) => PreconditionerKind::from_name(Some(p.as_str())),
            None => PreconditionerKind::from_name(None),
        };
        let preconditioner = match preconditioner {
            Ok(p) => p,
            Err(m) => return Err(m),
        };
        let max_iterations = match self.max_iterations {
            Some(n) => n,
            None => defaults.max_iterations,
        };
        let tolerance = match self.tolerance {
            Some(t) => t,
            None => defaults.tolerance,
        };
        let record_residual_history = match self.record_residual_history {
            Some(b) => b,
            None => false,
        };
        Ok(
            LinearSolverOptions {
                max_iterations,
                tolerance,
                backend,
                preconditioner,
                record_residual_history,
            },
        )
    }
}

/// The summary of a valid job.
#[derive(Clone, Debug)]
pub struct ProjectJobSummaryResponse {
    pub id: String,
    pub status: &'static str,
    pub physics: &'static str,
    pub points: usize,
    pub triangles: usize,
}

impl ProjectJobSummaryResponse {
    /// The summary of `job`: its id, status `valid`, its physics and the
    /// sizes of its mesh.
    pub fn from_job(job: &ProjectJob) -> (r: Self)
        ensures
            r.id@ == job.id@,
            r.status@ == "valid"@,
            r.physics@ == "poisson"@,
            r.points == job.mesh.points@.len(),
            r.triangles == job.mesh.triangles@.len(),
    {
        ProjectJobSummaryResponse {
            id: copy_text(&job.id),
            status: "valid",
            physics: physics_name(&job.physics),
            points: job.mesh.points.len(),
            triangles: job.mesh.triangles.len(),
        }
    }
}

/// The answer to a project validation.
#[derive(Clone, Debug)]
pub struct ProjectValidationResponse {
    pub schema_version: u32,
    pub status: &'static str,
    pub job_count: usize,
    pub jobs: Vec<ProjectJobSummaryResponse>,
}

/// Validates a project and, if it is valid, summarizes it: status `valid`,
/// its schema version, how many jobs it has and a summary of each.
pub fn validate_project_summary(project: &ProjectFile) -> (r: Result<
    ProjectValidationResponse,
    ProjectError,
>)
    ensures
        match r {
            Ok(v) => {
                &&& project_fault(*project) is None
                &&& v.schema_version == project.schema_version
                &&& v.status@ == "valid"@
                &&& v.job_count == project.jobs@.len()
                &&& v.jobs@.len() == project.jobs@.len()
                &&& forall|i: int|
                    0 <= i < v.jobs@.len() ==> {
                        &&& (#[trigger] v.jobs@[i]).id@ == project.jobs@[i].id@
                        &&& v.jobs@[i].status@ == "valid"@
                        &&& v.jobs@[i].physics@ == "poisson"@
                        &&& v.jobs@[i].points == project.jobs@[i].mesh.points@.len()
                        &&& v.jobs@[i].triangles == project.jobs@[i].mesh.triangles@.len()
                    }
            },
            Err(e) => project_fault(*project) == Some(e@),
        },
{
    match validate_project(project) {
        Ok(()) => {},
        Err(e) => return Err(e),
    }
    let mut jobs: Vec<ProjectJobSummaryResponse> = Vec::new();
    let mut i: usize = 0;
    while i < project.jobs.len()
        invariant
            i <= project.jobs@.len(),
            jobs@.len() == i,
            forall|k: int|
                0 <= k < i ==> {
                    &&& (#[trigger] jobs@[k]).id@ == project.jobs@[k].id@
                    &&& jobs@[k].status@ == "valid"@
                    &&& jobs@[k].physics@ == "poisson"@
                    &&& jobs@[k].points == project.jobs@[k].mesh.points@.len()
                    &&& jobs@[k].triangles == project.jobs@[k].mesh.triangles@.len()
                },
        decreases project.jobs@.len() - i,
    {
        jobs.push(ProjectJobSummaryResponse::from_job(&project.jobs[i]));
        i += 1;
    }
    Ok(
        ProjectValidationResponse {
            schema_version: project.schema_version,
            status: "valid",
            job_count: project.jobs.len(),
            jobs,
        },
    )
}

} // verus!
