//! Meshing CAD geometry with an external mesher: which CAD formats are
//! read, how a meshing workflow is checked, and the command line that runs
//! Gmsh on it.
use vstd::prelude::*;

use crate::numbers::{decimal_text, usize_text, Decimal};
use crate::text::{
    append_chars, append_str, chars_of, is_literal, lines_of, split_on, split_state, string_from, trim,
    trim_chars, upper,
};

verus! {

/// A CAD file format.
#[derive(Clone, Copy, Debug, PartialEq, Eq, Structural)]
pub enum CadFileFormat {
    Step,
    Iges,
    Brep,
    Stl,
}

impl CadFileFormat {
    /// The usual file extension of the format.
    pub fn as_extension(self) -> (s: &'static str)
        ensures
            s@ == cad_extension(self),
    {
        match self {
            CadFileFormat::Step => "step",
            CadFileFormat::Iges => "iges",
            CadFileFormat::Brep => "brep",
            CadFileFormat::Stl => "stl",
        }
    }
}

/// The usual file extension of a format.
pub open spec fn cad_extension(f: CadFileFormat) -> Seq<char> {
    match f {
        CadFileFormat::Step => "step"@,
        CadFileFormat::Iges => "iges"@,
        CadFileFormat::Brep => "brep"@,
        CadFileFormat::Stl => "stl"@,
    }
}

/// The length unit of a CAD model.
#[derive(Clone, Copy, Debug, PartialEq, Eq, Structural)]
pub enum CadLengthUnit {
    Millimeter,
    Meter,
}

/// A CAD file to mesh.
#[derive(Debug, PartialEq)]
pub struct CadSource {
    pub path: String,
    pub format: CadFileFormat,
    pub unit: CadLengthUnit,
}

/// Whether the mesher makes a surface or a volume mesh.
#[derive(Clone, Copy, Debug, PartialEq, Eq, Structural)]
pub enum CadMeshingDimension {
    Surface2D,
    Volume3D,
}

impl CadMeshingDimension {
    /// Gmsh's command-line flag for the dimension.
    pub fn gmsh_flag(self) -> (s: &'static str)
        ensures
            s@ == (if self is Surface2D { "-2"@ } else { "-3"@ }),
    {
        match self {
            CadMeshingDimension::Surface2D => "-2",
            CadMeshingDimension::Volume3D => "-3",
        }
    }
}

/// The mesh file format the mesher writes.
#[derive(Clone, Copy, Debug, PartialEq, Eq, Structural)]
pub enum CadMeshOutputFormat {
    GmshMsh2,
}

impl CadMeshOutputFormat {
    /// Gmsh's name for the format.
    pub fn gmsh_format(self) -> (s: &'static str)
        ensures
            s@ == "msh2"@,
    {
        match self {
            CadMeshOutputFormat::GmshMsh2 => "msh2",
        }
    }
}

/// How the mesher is to mesh.
#[derive(Debug, PartialEq)]
pub struct CadMeshingOptions {
    pub dimension: CadMeshingDimension,
    pub max_element_size: Option<Decimal>,
    pub element_order: Option<usize>,
    pub optimize: bool,
    pub output_format: CadMeshOutputFormat,
}

impl CadMeshingOptions {
    /// A volume mesh in Gmsh's format 2, no size limit, default order, no
    /// optimisation.
    pub fn default_options() -> (o: CadMeshingOptions)
        ensures
            o.dimension == CadMeshingDimension::Volume3D,
            o.max_element_size is None,
            o.element_order is None,
            !o.optimize,
            o.output_format == CadMeshOutputFormat::GmshMsh2,
    {
        CadMeshingOptions {
            dimension: CadMeshingDimension::Volume3D,
            max_element_size: None,
            element_order: None,
            optimize: false,
            output_format: CadMeshOutputFormat::GmshMsh2,
        }
    }
}

/// The program that meshes.
#[derive(Debug, PartialEq)]
pub enum ExternalMesher {
    Gmsh { executable: String },
}

/// The executable Gmsh is run as unless told otherwise.
pub fn default_gmsh_executable() -> (s: String)
    ensures
        s@ == "gmsh"@,
{
    let c = chars_of("gmsh");
    string_from(c.as_slice())
}

impl ExternalMesher {
    /// Gmsh, run as `gmsh`.
    pub fn default_mesher() -> (m: ExternalMesher)
        ensures
            m matches ExternalMesher::Gmsh { executable } && executable@ == "gmsh"@,
    {
        ExternalMesher::Gmsh { executable: default_gmsh_executable() }
    }
}

/// A CAD file, the mesher, its options and where the mesh goes.
#[derive(Debug, PartialEq)]
pub struct CadMeshingWorkflow {
    pub source: CadSource,
    pub mesher: ExternalMesher,
    pub options: CadMeshingOptions,
    pub output_mesh: String,
}

/// A program and its arguments.
#[derive(Debug, PartialEq)]
pub struct ExternalCommand {
    pub program: String,
    pub args: Vec<String>,
}

/// Why a meshing workflow cannot run.
#[derive(Debug, PartialEq)]
pub enum CadWorkflowError {
    EmptySourcePath,
    EmptyOutputPath,
    UnsupportedCadExtension { extension: String },
    InvalidMaxElementSize { value: Decimal },
    InvalidElementOrder,
    EmptyMesherExecutable,
    UnsupportedOutputExtension { extension: String },
}

/// A `CadWorkflowError` with its texts by their characters.
pub enum CadFault {
    EmptySourcePath,
    EmptyOutputPath,
    UnsupportedCadExtension { extension: Seq<char> },
    InvalidMaxElementSize { value: Seq<char> },
    InvalidElementOrder,
    EmptyMesherExecutable,
    UnsupportedOutputExtension { extension: Seq<char> },
}

impl View for CadWorkflowError {
    type V = CadFault;

    open spec fn view(&self) -> CadFault {
        match self {
            CadWorkflowError::EmptySourcePath => CadFault::EmptySourcePath,
            CadWorkflowError::EmptyOutputPath => CadFault::EmptyOutputPath,
            CadWorkflowError::UnsupportedCadExtension { extension } =>
                CadFault::UnsupportedCadExtension { extension: extension@ },
            CadWorkflowError::InvalidMaxElementSize { value } => CadFault::InvalidMaxElementSize {
                value: value@,
            },
            CadWorkflowError::InvalidElementOrder => CadFault::InvalidElementOrder,
            CadWorkflowError::EmptyMesherExecutable => CadFault::EmptyMesherExecutable,
            CadWorkflowError::UnsupportedOutputExtension { extension } =>
                CadFault::UnsupportedOutputExtension { extension: extension@ },
        }
    }
}

/// The components of a path that name something: the parts between `/`
/// separators, without empty parts and `.`.
pub open spec fn named_components(parts: Seq<Seq<char>>) -> Seq<Seq<char>>
    decreases parts.len(),
{
    if parts.len() == 0 {
        seq![]
    } else {
        let prev = named_components(parts.drop_last());
        if parts.last().len() == 0 || parts.last() == "."@ {
            prev
        } else {
            prev.push(parts.last())
        }
    }
}

/// The final component of a path (`Path::file_name`): none when there is
/// no named component or the last one is `..`.
pub open spec fn file_name(path: Seq<char>) -> Option<Seq<char>> {
    let cs = named_components(split_on(path, '/'));
    if cs.len() == 0 || cs.last() == ".."@ {
        None
    } else {
        Some(cs.last())
    }
}

/// The position of the last `c` in `s`.
pub open spec fn last_position(s: Seq<char>, c: char) -> Option<int>
    decreases s.len(),
{
    if s.len() == 0 {
        None
    } else if s.last() == c {
        Some(s.len() - 1)
    } else {
        last_position(s.drop_last(), c)
    }
}

/// The extension of a path as `Path::extension` documents it: the part of
/// the file name after its final `.`; none without a file name, without a
/// `.`, or when the only `.` begins the name.
pub open spec fn std_extension(path: Seq<char>) -> Option<Seq<char>> {
    match file_name(path) {
        None => None,
        Some(name) => match last_position(name, '.') {
            None => None,
            Some(i) => if i == 0 {
                None
            } else {
                Some(name.skip(i + 1))
            },
        },
    }
}

/// The characters of an optional string.
pub open spec fn opt_chars(o: Option<String>) -> Option<Seq<char>> {
    match o {
        Some(s) => Some(s@),
        None => None,
    }
}

/// The extension of a path (`Path::extension`, as text).
///
/// Trusted: `std::path::Path::extension` on a path made from `path`; the
/// contract states the rule its documentation gives (with that of
/// `Path::file_name` and `Path::components` on Unix separators). An
/// extension of a `str` path is valid UTF-8, so `to_str` does not fail.
#[verifier::external_body]
fn std_path_extension(path: &str) -> (r: Option<String>)
    ensures
        opt_chars(r) == std_extension(path@),
{
    std::path::Path::new(path).extension().and_then(|e| e.to_str()).map(|e| e.to_owned())
}

/// `s` with ASCII letters in lower case.
pub open spec fn lower(s: Seq<char>) -> Seq<char> {
    s.map_values(|c: char| crate::numbers::ascii_lower(c))
}

/// The extension of a path, in lower case.
pub open spec fn path_extension_of(path: Seq<char>) -> Option<Seq<char>> {
    match std_extension(path) {
        Some(e) => Some(lower(e)),
        None => None,
    }
}

/// The extension of a path, in lower case.
pub fn path_extension(path: &str) -> (r: Option<String>)
    ensures
        opt_chars(r) == path_extension_of(path@),
{
    match std_path_extension(path) {
        Some(e) => {
            let c = chars_of(e.as_str());
            let l = crate::numbers::lower_chars(c.as_slice());
            Some(string_from(l.as_slice()))
        },
        None => None,
    }
}

/// The extension of an output path, in lower case.
pub fn output_extension(path: &str) -> (r: Option<String>)
    ensures
        opt_chars(r) == path_extension_of(path@),
{
    path_extension(path)
}

/// The CAD format an extension (in lower case) names.
pub open spec fn format_for_extension(e: Seq<char>) -> Option<CadFileFormat> {
    if e == "step"@ || e == "stp"@ {
        Some(CadFileFormat::Step)
    } else if e == "iges"@ || e == "igs"@ {
        Some(CadFileFormat::Iges)
    } else if e == "brep"@ {
        Some(CadFileFormat::Brep)
    } else if e == "stl"@ {
        Some(CadFileFormat::Stl)
    } else {
        None
    }
}

/// The CAD format of a path, by its extension in any case: `step`/`stp`,
/// `iges`/`igs`, `brep`, `stl`.
pub open spec fn cad_format_of(path: Seq<char>) -> Result<CadFileFormat, CadFault> {
    match path_extension_of(path) {
        None => Err(CadFault::UnsupportedCadExtension { extension: seq![] }),
        Some(e) => match format_for_extension(e) {
            Some(f) => Ok(f),
            None => Err(CadFault::UnsupportedCadExtension { extension: e }),
        },
    }
}

/// The CAD format of a path, by its extension.
pub fn infer_cad_format(path: &str) -> (r: Result<CadFileFormat, CadWorkflowError>)
    ensures
        match r {
            Ok(f) => cad_format_of(path@) == Ok::<CadFileFormat, CadFault>(f),
            Err(e) => cad_format_of(path@) == Err::<CadFileFormat, CadFault>(e@),
        },
{
    let extension = match path_extension(path) {
        Some(e) => e,
        None => {
            let empty = String::new();
            assert(empty@ =~= Seq::<char>::empty());
            return Err(CadWorkflowError::UnsupportedCadExtension { extension: empty });
        },
    };
    let c = chars_of(extension.as_str());
    let c = c.as_slice();
    if is_literal(c, "step") || is_literal(c, "stp") {
        Ok(CadFileFormat::Step)
    } else if is_literal(c, "iges") || is_literal(c, "igs") {
        Ok(CadFileFormat::Iges)
    } else if is_literal(c, "brep") {
        Ok(CadFileFormat::Brep)
    } else if is_literal(c, "stl") {
        Ok(CadFileFormat::Stl)
    } else {
        Err(CadWorkflowError::UnsupportedCadExtension { extension })
    }
}

impl CadSource {
    /// A CAD file with the format its extension names.
    pub fn from_path(path: &str, unit: CadLengthUnit) -> (r: Result<CadSource, CadWorkflowError>)
        ensures
            match r {
                Ok(s) => cad_format_of(path@) == Ok::<CadFileFormat, CadFault>(s.format) && s.path@
                    == path@ && s.unit == unit,
                Err(e) => cad_format_of(path@) == Err::<CadFileFormat, CadFault>(e@),
            },
    {
        let format = infer_cad_format(path)?;
        let c = chars_of(path);
        Ok(CadSource { path: string_from(c.as_slice()), format, unit })
    }
}

/// Why a workflow cannot run, if it cannot: the checks in order, the size
/// check answered by `size_ok` (whether the maximal element size, when
/// given, is positive and finite).
pub open spec fn workflow_fault(
    source_path: Seq<char>,
    output_path: Seq<char>,
    max_element_size: Option<Seq<char>>,
    size_ok: bool,
    element_order: Option<usize>,
    executable: Seq<char>,
) -> Option<CadFault> {
    if source_path.len() == 0 {
        Some(CadFault::EmptySourcePath)
    } else if output_path.len() == 0 {
        Some(CadFault::EmptyOutputPath)
    } else if max_element_size is Some && !size_ok {
        Some(CadFault::InvalidMaxElementSize { value: max_element_size->0 })
    } else if element_order == Some(0usize) {
        Some(CadFault::InvalidElementOrder)
    } else if path_extension_of(output_path) != Some("msh"@) {
        Some(
            CadFault::UnsupportedOutputExtension {
                extension: match path_extension_of(output_path) {
                    Some(e) => e,
                    None => seq![],
                },
            },
        )
    } else if trim(executable).len() == 0 {
        Some(CadFault::EmptyMesherExecutable)
    } else {
        None
    }
}

/// The texts of an optional number.
pub open spec fn decimal_opt(o: Option<Decimal>) -> Option<Seq<char>> {
    match o {
        Some(d) => Some(d@),
        None => None,
    }
}

/// The executable a mesher runs.
pub open spec fn mesher_executable(m: ExternalMesher) -> Seq<char> {
    match m {
        ExternalMesher::Gmsh { executable } => executable@,
    }
}

/// Why a workflow cannot run, if it cannot.
pub open spec fn workflow_error(w: CadMeshingWorkflow, size_ok: bool) -> Option<CadFault> {
    workflow_fault(
        w.source.path@,
        w.output_mesh@,
        decimal_opt(w.options.max_element_size),
        size_ok,
        w.options.element_order,
        mesher_executable(w.mesher),
    )
}

/// Checks a workflow; `size_ok` says whether the maximal element size,
/// when given, is positive and finite, a test on its floating-point value
/// that the caller makes.
pub fn validate_cad_meshing_workflow(workflow: &CadMeshingWorkflow, size_ok: bool) -> (r: Result<
    (),
    CadWorkflowError,
>)
    ensures
        match r {
            Ok(()) => workflow_error(*workflow, size_ok) is None,
            Err(e) => workflow_error(*workflow, size_ok) == Some(e@),
        },
{
    if workflow.source.path.as_str().unicode_len() == 0 {
        return Err(CadWorkflowError::EmptySourcePath);
    }
    if workflow.output_mesh.as_str().unicode_len() == 0 {
        return Err(CadWorkflowError::EmptyOutputPath);
    }
    match &workflow.options.max_element_size {
        Some(value) => {
            if !size_ok {
                return Err(CadWorkflowError::InvalidMaxElementSize { value: value.copy() });
            }
        },
        None => {},
    }
    if workflow.options.element_order == Some(0usize) {
        return Err(CadWorkflowError::InvalidElementOrder);
    }
    let extension = output_extension(workflow.output_mesh.as_str());
    let is_msh = match &extension {
        Some(e) => {
            let c = chars_of(e.as_str());
            is_literal(c.as_slice(), "msh")
        },
        None => false,
    };
    if !is_msh {
        let shown = match extension {
            Some(e) => e,
            None => {
                let empty = String::new();
                assert(empty@ =~= Seq::<char>::empty());
                empty
            },
        };
        return Err(CadWorkflowError::UnsupportedOutputExtension { extension: shown });
    }
    match &workflow.mesher {
        ExternalMesher::Gmsh { executable } => {
            let c = chars_of(executable.as_str());
            let t = trim_chars(c.as_slice());
            if t.len() == 0 {
                Err(CadWorkflowError::EmptyMesherExecutable)
            } else {
                Ok(())
            }
        },
    }
}

/// The arguments of the Gmsh command for a workflow: the source, the
/// dimension flag, `-format` and the output format, `-o` and the output,
/// then `-clmax` and the size, `-order` and the order, `-optimize`, each
/// when asked for.
pub open spec fn gmsh_args(w: CadMeshingWorkflow) -> Seq<Seq<char>> {
    let base = seq![
        w.source.path@,
        if w.options.dimension is Surface2D { "-2"@ } else { "-3"@ },
        "-format"@,
        "msh2"@,
        "-o"@,
        w.output_mesh@,
    ];
    let with_size = match w.options.max_element_size {
        Some(s) => base + seq!["-clmax"@, s@],
        None => base,
    };
    let with_order = match w.options.element_order {
        Some(o) => with_size + seq!["-order"@, decimal_text(o as nat)],
        None => with_size,
    };
    if w.options.optimize {
        with_order.push("-optimize"@)
    } else {
        with_order
    }
}

/// The texts of strings.
pub open spec fn string_views(v: Seq<String>) -> Seq<Seq<char>> {
    v.map_values(|s: String| s@)
}

fn owned(s: &str) -> (r: String)
    ensures
        r@ == s@,
{
    let c = chars_of(s);
    string_from(c.as_slice())
}

fn push_arg(args: &mut Vec<String>, s: String)
    ensures
        string_views(final(args)@) == string_views(old(args)@).push(s@),
{
    let ghost before = args@;
    args.push(s);
    assert(string_views(args@) =~= string_views(before).push(s@));
}

/// The Gmsh command line for a workflow, run as `executable`.
pub fn plan_gmsh_command(workflow: &CadMeshingWorkflow, executable: &str) -> (c: ExternalCommand)
    ensures
        c.program@ == executable@,
        string_views(c.args@) == gmsh_args(*workflow),
{
    let mut args: Vec<String> = Vec::new();
    assert(string_views(args@) =~= Seq::<Seq<char>>::empty());
    push_arg(&mut args, owned(workflow.source.path.as_str()));
    push_arg(&mut args, owned(workflow.options.dimension.gmsh_flag()));
    push_arg(&mut args, owned("-format"));
    push_arg(&mut args, owned(workflow.options.output_format.gmsh_format()));
    push_arg(&mut args, owned("-o"));
    push_arg(&mut args, owned(workflow.output_mesh.as_str()));
    let ghost base = string_views(args@);
    match &workflow.options.max_element_size {
        Some(size) => {
            push_arg(&mut args, owned("-clmax"));
            push_arg(&mut args, owned(size.as_str()));
        },
        None => {},
    }
    match workflow.options.element_order {
        Some(order) => {
            push_arg(&mut args, owned("-order"));
            let digits = usize_text(order);
            push_arg(&mut args, string_from(digits.as_slice()));
        },
        None => {},
    }
    if workflow.options.optimize {
        push_arg(&mut args, owned("-optimize"));
    }
    assert(string_views(args@) =~= gmsh_args(*workflow));
    ExternalCommand { program: owned(executable), args }
}

/// The command that meshes a workflow's CAD file, if the workflow can run;
/// `size_ok` as for `validate_cad_meshing_workflow`.
pub fn plan_cad_meshing_command(workflow: &CadMeshingWorkflow, size_ok: bool) -> (r: Result<
    ExternalCommand,
    CadWorkflowError,
>)
    ensures
        match r {
            Ok(c) => workflow_error(*workflow, size_ok) is None && c.program@ == mesher_executable(
                workflow.mesher,
            ) && string_views(c.args@) == gmsh_args(*workflow),
            Err(e) => workflow_error(*workflow, size_ok) == Some(e@),
        },
{
    validate_cad_meshing_workflow(workflow, size_ok)?;
    match &workflow.mesher {
        ExternalMesher::Gmsh { executable } => Ok(plan_gmsh_command(workflow, executable.as_str())),
    }
}

/// A sequence without `c` is one piece when split on `c`.
proof fn lemma_split_state_without(s: Seq<char>, c: char)
    requires
        !s.contains(c),
    ensures
        split_state(s, c) == (Seq::<Seq<char>>::empty(), s),
    decreases s.len(),
{
    if s.len() > 0 {
        assert(!s.drop_last().contains(c)) by {
            if s.drop_last().contains(c) {
                let k = choose|k: int| 0 <= k < s.drop_last().len() && s.drop_last()[k] == c;
                assert(s[k] == c);
            }
        }
        lemma_split_state_without(s.drop_last(), c);
        assert(s[s.len() - 1] != c);
        assert(s.drop_last().push(s.last()) =~= s);
    }
}

/// The last `.` of `a . b` is the one after `a` when `b` has none.
proof fn lemma_last_dot(a: Seq<char>, b: Seq<char>)
    requires
        !b.contains('.'),
    ensures
        last_position(a + seq!['.'] + b, '.') == Some(a.len() as int),
    decreases b.len(),
{
    let s = a + seq!['.'] + b;
    if b.len() == 0 {
        assert(s.last() == '.');
    } else {
        assert(b[b.len() - 1] != '.');
        assert(s.last() == b.last());
        assert(s.drop_last() =~= a + seq!['.'] + b.drop_last());
        assert(!b.drop_last().contains('.')) by {
            if b.drop_last().contains('.') {
                let k = choose|k: int| 0 <= k < b.drop_last().len() && b.drop_last()[k] == '.';
                assert(b[k] == '.');
            }
        }
        lemma_last_dot(a, b.drop_last());
    }
}

/// The extension of `stem.ext`, for a file name `stem` without `.` and an
/// extension without `.` or `/`, is `ext` in lower case.
pub proof fn law_extension_of_stem_and_extension(stem: Seq<char>, ext: Seq<char>)
    requires
        stem.len() > 0,
        !stem.contains('.'),
        !stem.contains('/'),
        !ext.contains('.'),
        !ext.contains('/'),
    ensures
        path_extension_of(stem + "."@ + ext) == Some(lower(ext)),
{
    reveal_strlit(".");
    reveal_strlit("..");
    let p = stem + "."@ + ext;
    assert(p == stem + seq!['.'] + ext);
    assert(!p.contains('/')) by {
        if p.contains('/') {
            let k = choose|k: int| 0 <= k < p.len() && p[k] == '/';
            if k < stem.len() {
                assert(stem[k] == '/');
            } else if k > stem.len() {
                assert(ext[k - stem.len() - 1] == '/');
            }
        }
    }
    lemma_split_state_without(p, '/');
    assert(split_on(p, '/') =~= seq![p]);
    assert(seq![p].drop_last() =~= Seq::<Seq<char>>::empty());
    assert(p != "."@) by {
        assert(p.len() >= 2);
    }
    assert(named_components(Seq::<Seq<char>>::empty()) =~= Seq::<Seq<char>>::empty());
    assert(named_components(seq![p]) =~= Seq::<Seq<char>>::empty().push(p));
    assert(p != ".."@) by {
        assert(p[0] == stem[0]);
        assert(stem[0] != '.');
    }
    assert(file_name(p) == Some(p));
    lemma_last_dot(stem, ext);
    assert(p.skip(stem.len() + 1int) =~= ext);
}

/// A file named by a stem without `.` and a format's extension, written in
/// any case, is read as that format.
pub proof fn law_cad_format_round_trip(stem: Seq<char>, ext: Seq<char>, f: CadFileFormat)
    requires
        stem.len() > 0,
        !stem.contains('.'),
        !stem.contains('/'),
        lower(ext) == cad_extension(f),
    ensures
        cad_format_of(stem + "."@ + ext) == Ok::<CadFileFormat, CadFault>(f),
{
    reveal_strlit("step");
    reveal_strlit("stp");
    reveal_strlit("iges");
    reveal_strlit("igs");
    reveal_strlit("brep");
    reveal_strlit("stl");
    let e = cad_extension(f);
    assert(forall|i: int| 0 <= i < e.len() ==> 'a' <= #[trigger] e[i] <= 'z');
    assert(lower(ext).len() == ext.len());
    assert(!ext.contains('.') && !ext.contains('/')) by {
        if ext.contains('.') || ext.contains('/') {
            let k = choose|k: int| 0 <= k < ext.len() && (ext[k] == '.' || ext[k] == '/');
            assert(lower(ext)[k] == crate::numbers::ascii_lower(ext[k]));
            assert(e[k] == ext[k]);
        }
    }
    law_extension_of_stem_and_extension(stem, ext);
    assert(format_for_extension(e) == Some(f)) by {
        match f {
            CadFileFormat::Step => {},
            CadFileFormat::Iges => {
                assert(e[0] != "step"@[0]);
                assert(e.len() != "stp"@.len());
            },
            CadFileFormat::Brep => {
                assert(e[0] != "step"@[0] && e[0] != "iges"@[0]);
                assert(e.len() != "stp"@.len() && e.len() != "igs"@.len());
            },
            CadFileFormat::Stl => {
                assert(e.len() != "step"@.len() && e.len() != "iges"@.len());
                assert(e.len() != "brep"@.len());
                assert(e[2] != "stp"@[2] && e[0] != "igs"@[0]);
            },
        }
    }
}

} // verus!
