//! The parameter file of a Poisson problem: conductivity, a constant
//! source, solver limits and a `dirichlet` section of `<node_id> <value>`
//! rows.
//!
//! Whether a real number is finite and positive is a question about its
//! floating-point value, which this library leaves to the caller: reading a
//! file lists the values that need such a test, in order, and
//! `resolve_params` turns the caller's answers into the final outcome.
use std::collections::BTreeMap;
use vstd::prelude::*;

use crate::io::ids::{ascending_ids, sorted_keys};
use crate::io::{
    data_lines, data_lines_of, decimal_field, law_comment_keeps_data_lines, parse_decimal,
    parse_usize, usize_field, DataLine, FileIoError, IoFault,
};
use crate::linalg::SolverOptions;
use crate::mesh::NodeId;
use crate::numbers::Decimal;
use crate::text::{char_views, is_literal, string_from};

verus! {

broadcast use {vstd::std_specs::btree::group_btree_axioms, vstd::laws_cmp::group_laws_cmp};

/// The source term of the Poisson problem.
#[derive(Debug, PartialEq)]
pub enum SourceConfig {
    Constant(Decimal),
}

/// A Poisson problem's parameters.
#[derive(Debug, PartialEq)]
pub struct PoissonFileConfig {
    pub conductivity: Decimal,
    pub source: SourceConfig,
    pub dirichlet: Vec<(NodeId, Decimal)>,
    pub solver_options: SolverOptions,
}

/// Which value a check is about, and so which test it must pass: the
/// conductivity and the tolerance must be positive and finite, the source
/// finite.
#[derive(Clone, Copy, Debug, PartialEq, Eq, Structural)]
pub enum ValueKind {
    Conductivity,
    Source,
    Tolerance,
}

/// A real number of the file that must pass the test of its kind.
#[derive(Debug, PartialEq)]
pub struct ValueCheck {
    pub kind: ValueKind,
    pub value: Decimal,
}

/// A parameter file as read, with the checks its values still need: the
/// outcome if they all pass, and the checks in the order the file reaches
/// them.
#[derive(Debug)]
pub struct ParamsParse {
    pub outcome: Result<PoissonFileConfig, FileIoError>,
    pub checks: Vec<ValueCheck>,
}

/// A configuration by its texts and numbers.
pub struct ConfigView {
    pub conductivity: Seq<char>,
    pub source: Seq<char>,
    pub dirichlet: Seq<(usize, Seq<char>)>,
    pub max_iterations: usize,
    pub tolerance: Seq<char>,
}

/// What the rows read so far hold.
pub struct ParamsState {
    pub conductivity: Option<Seq<char>>,
    pub source: Option<Seq<char>>,
    pub max_iterations: usize,
    pub tolerance: Seq<char>,
    pub dirichlet: Map<usize, Seq<char>>,
    pub in_dirichlet: bool,
    pub checks: Seq<(ValueKind, Seq<char>)>,
}

/// A parameter row whose value is a real number that must pass a check.
pub open spec fn checked_value(
    st: ParamsState,
    line: usize,
    text: Seq<char>,
    kind: ValueKind,
) -> Result<(Seq<char>, ParamsState), IoFault> {
    match decimal_field(line, text) {
        Err(e) => Err(e),
        Ok(v) => Ok((v, ParamsState { checks: st.checks.push((kind, v)), in_dirichlet: false, ..st })),
    }
}

/// How one row changes what has been read.
pub open spec fn params_step(st: ParamsState, line: usize, t: Seq<Seq<char>>) -> Result<
    ParamsState,
    IoFault,
> {
    if t.len() == 1 && t[0] == "dirichlet"@ {
        Ok(ParamsState { in_dirichlet: true, ..st })
    } else if t.len() == 2 && t[0] == "conductivity"@ {
        if st.conductivity is Some {
            Err(IoFault::DuplicateParameter { line, name: "conductivity"@ })
        } else {
            match checked_value(st, line, t[1], ValueKind::Conductivity) {
                Err(e) => Err(e),
                Ok((v, st1)) => Ok(ParamsState { conductivity: Some(v), ..st1 }),
            }
        }
    } else if t.len() == 3 && t[0] == "source"@ && t[1] == "constant"@ {
        if st.source is Some {
            Err(IoFault::DuplicateParameter { line, name: "source"@ })
        } else {
            match checked_value(st, line, t[2], ValueKind::Source) {
                Err(e) => Err(e),
                Ok((v, st1)) => Ok(ParamsState { source: Some(v), ..st1 }),
            }
        }
    } else if t.len() >= 2 && t[0] == "source"@ {
        Err(IoFault::UnsupportedSource { line, kind: t[1] })
    } else if t.len() == 3 && t[0] == "solver"@ && t[1] == "max_iterations"@ {
        match usize_field(line, t[2]) {
            Err(e) => Err(e),
            Ok(n) => if n == 0 {
                Err(IoFault::InvalidMaxIterations)
            } else {
                Ok(ParamsState { max_iterations: n, in_dirichlet: false, ..st })
            },
        }
    } else if t.len() == 3 && t[0] == "solver"@ && t[1] == "tolerance"@ {
        match checked_value(st, line, t[2], ValueKind::Tolerance) {
            Err(e) => Err(e),
            Ok((v, st1)) => Ok(ParamsState { tolerance: v, ..st1 }),
        }
    } else if t.len() >= 2 && t[0] == "solver"@ {
        Err(IoFault::UnsupportedSolverOption { line, option: t[1] })
    } else if st.in_dirichlet {
        if t.len() != 2 {
            Err(IoFault::InvalidLine { line, expected: "dirichlet row: <node_id> <value>"@ })
        } else {
            match usize_field(line, t[0]) {
                Err(e) => Err(e),
                Ok(node) => match decimal_field(line, t[1]) {
                    Err(e) => Err(e),
                    Ok(v) => if st.dirichlet.contains_key(node) {
                        Err(IoFault::DuplicateDirichlet { line, node_id: node })
                    } else {
                        Ok(ParamsState { dirichlet: st.dirichlet.insert(node, v), ..st })
                    },
                },
            }
        }
    } else {
        Err(IoFault::InvalidLine { line, expected: "a parameter row or dirichlet section"@ })
    }
}

/// The state before any row: no parameters, the default solver limits.
pub open spec fn params_start() -> ParamsState {
    ParamsState {
        conductivity: None,
        source: None,
        max_iterations: 10_000,
        tolerance: seq!['1', 'e', '-', '1', '0'],
        dirichlet: Map::empty(),
        in_dirichlet: false,
        checks: seq![],
    }
}

/// The state the rows lead to, and the first error, which stops reading.
pub open spec fn params_rows(rows: Seq<(usize, Seq<Seq<char>>)>) -> (ParamsState, Option<IoFault>)
    decreases rows.len(),
{
    if rows.len() == 0 {
        (params_start(), None)
    } else {
        let (st, err) = params_rows(rows.drop_last());
        if err is Some {
            (st, err)
        } else {
            match params_step(st, rows.last().0, rows.last().1) {
                Ok(st2) => (st2, None),
                Err(e) => (st, Some(e)),
            }
        }
    }
}

/// The configuration once every row is read, if both required parameters
/// are there; Dirichlet rows in ascending order of their nodes.
pub open spec fn params_config(st: ParamsState) -> Result<ConfigView, IoFault> {
    match (st.conductivity, st.source) {
        (None, _) => Err(IoFault::MissingParameter { name: "conductivity"@ }),
        (Some(_), None) => Err(IoFault::MissingParameter { name: "source"@ }),
        (Some(c), Some(s)) => Ok(
            ConfigView {
                conductivity: c,
                source: s,
                dirichlet: ascending_ids(st.dirichlet.dom()).map_values(
                    |k: usize| (k, st.dirichlet[k]),
                ),
                max_iterations: st.max_iterations,
                tolerance: st.tolerance,
            },
        ),
    }
}

/// What a parameter file gives if every value passes its check, and the
/// checks it reaches, in order.
pub open spec fn params_file(s: Seq<char>) -> (Result<ConfigView, IoFault>, Seq<
    (ValueKind, Seq<char>),
>) {
    let (st, err) = params_rows(data_lines_of(s));
    (
        match err {
            Some(e) => Err(e),
            None => params_config(st),
        },
        st.checks,
    )
}

/// The view of a configuration.
pub open spec fn config_view(c: PoissonFileConfig) -> ConfigView {
    ConfigView {
        conductivity: c.conductivity@,
        source: match c.source {
            SourceConfig::Constant(v) => v@,
        },
        dirichlet: c.dirichlet@.map_values(|d: (NodeId, Decimal)| (d.0, d.1@)),
        max_iterations: c.solver_options.max_iterations,
        tolerance: c.solver_options.tolerance@,
    }
}

/// The views of checks.
pub open spec fn check_views(v: Seq<ValueCheck>) -> Seq<(ValueKind, Seq<char>)> {
    v.map_values(|c: ValueCheck| (c.kind, c.value@))
}

/// The outcome of a parse by its views.
pub open spec fn outcome_view(r: Result<PoissonFileConfig, FileIoError>) -> Result<
    ConfigView,
    IoFault,
> {
    match r {
        Ok(c) => Ok(config_view(c)),
        Err(e) => Err(e@),
    }
}

/// The state of the reader by its texts.
spec fn state_view(
    conductivity: Option<Decimal>,
    source: Option<Decimal>,
    max_iterations: usize,
    tolerance: Decimal,
    dirichlet: BTreeMap<usize, Decimal>,
    in_dirichlet: bool,
    checks: Seq<ValueCheck>,
) -> ParamsState {
    ParamsState {
        conductivity: match conductivity {
            Some(d) => Some(d@),
            None => None,
        },
        source: match source {
            Some(d) => Some(d@),
            None => None,
        },
        max_iterations,
        tolerance: tolerance@,
        dirichlet: dirichlet@.map_values(|d: Decimal| d@),
        in_dirichlet,
        checks: check_views(checks),
    }
}

/// Reports a second occurrence of a parameter that may occur once.
pub fn reject_duplicate(line: usize, name: &'static str, is_duplicate: bool) -> (r: Result<
    (),
    FileIoError,
>)
    ensures
        is_duplicate <==> (r is Err),
        r matches Err(e) ==> e@ == (IoFault::DuplicateParameter { line, name: name@ }),
{
    if is_duplicate {
        Err(FileIoError::DuplicateParameter { line, name })
    } else {
        Ok(())
    }
}

proof fn lemma_params_rows_stop(rows: Seq<(usize, Seq<Seq<char>>)>, n: int)
    requires
        0 <= n <= rows.len(),
    ensures
        params_rows(rows.take(n)).1 is Some ==> params_rows(rows) == params_rows(rows.take(n)),
    decreases rows.len(),
{
    if n < rows.len() {
        assert(rows.drop_last().take(n) =~= rows.take(n));
        lemma_params_rows_stop(rows.drop_last(), n);
    } else {
        assert(rows.take(n) =~= rows);
    }
}

/// Reads a parameter file. Each real number that must be finite (and for
/// some, positive) is listed in `checks`, in the order the file reaches
/// it; `outcome` is what the file gives if all of them pass.
pub fn parse_params_str(input: &str) -> (r: ParamsParse)
    ensures
        outcome_view(r.outcome) == params_file(input@).0,
        check_views(r.checks@) == params_file(input@).1,
{
    let rows = data_lines(input);
    let ghost rs = data_lines_of(input@);
    let mut conductivity: Option<Decimal> = None;
    let mut source: Option<Decimal> = None;
    let defaults = SolverOptions::default_options();
    let mut max_iterations = defaults.max_iterations;
    let mut tolerance = defaults.tolerance;
    let mut dirichlet: BTreeMap<usize, Decimal> = BTreeMap::new();
    let mut in_dirichlet = false;
    let mut checks: Vec<ValueCheck> = Vec::new();
    assert(rs.take(0) =~= Seq::<(usize, Seq<Seq<char>>)>::empty());
    assert(state_view(conductivity, source, max_iterations, tolerance, dirichlet, in_dirichlet, checks@)
        =~= params_start()) by {
        assert(dirichlet@.map_values(|d: Decimal| d@) =~= Map::<usize, Seq<char>>::empty());
        assert(check_views(checks@) =~= Seq::<(ValueKind, Seq<char>)>::empty());
    }
    let mut i: usize = 0;
    while i < rows.len()
        invariant
            i <= rows@.len(),
            rs == data_lines_of(input@),
            rs == crate::io::data_line_views(rows@),
            params_rows(rs.take(i as int)) == (
                state_view(
                    conductivity,
                    source,
                    max_iterations,
                    tolerance,
                    dirichlet,
                    in_dirichlet,
                    checks@,
                ),
                None::<IoFault>,
            ),
        decreases rows@.len() - i,
    {
        let row: &DataLine = &rows[i];
        let line = row.line;
        let t = &row.tokens;
        let ghost tv = char_views(t@);
        let ghost st = state_view(
            conductivity,
            source,
            max_iterations,
            tolerance,
            dirichlet,
            in_dirichlet,
            checks@,
        );
        assert(rs.take(i + 1).drop_last() =~= rs.take(i as int));
        assert(rs.take(i + 1).last() == (line, tv));
        assert(tv.len() == t@.len());
        proof {
            lemma_params_rows_stop(rs, i + 1);
        }
        let step: Result<(), FileIoError> = if t.len() == 1 && is_literal(t[0].as_slice(), "dirichlet") {
            in_dirichlet = true;
            Ok(())
        } else if t.len() == 2 && is_literal(t[0].as_slice(), "conductivity") {
            match reject_duplicate(line, "conductivity", conductivity.is_some()) {
                Err(e) => Err(e),
                Ok(()) => match parse_decimal(line, t[1].as_slice()) {
                    Err(e) => Err(e),
                    Ok(v) => {
                        let ghost before = checks@;
                        checks.push(ValueCheck { kind: ValueKind::Conductivity, value: v.copy() });
                        assert(check_views(checks@) =~= check_views(before).push(
                            (ValueKind::Conductivity, v@),
                        ));
                        conductivity = Some(v);
                        in_dirichlet = false;
                        Ok(())
                    },
                },
            }
        } else if t.len() == 3 && is_literal(t[0].as_slice(), "source") && is_literal(
            t[1].as_slice(),
            "constant",
        ) {
            match reject_duplicate(line, "source", source.is_some()) {
                Err(e) => Err(e),
                Ok(()) => match parse_decimal(line, t[2].as_slice()) {
                    Err(e) => Err(e),
                    Ok(v) => {
                        let ghost before = checks@;
                        checks.push(ValueCheck { kind: ValueKind::Source, value: v.copy() });
                        assert(check_views(checks@) =~= check_views(before).push(
                            (ValueKind::Source, v@),
                        ));
                        source = Some(v);
                        in_dirichlet = false;
                        Ok(())
                    },
                },
            }
        } else if t.len() >= 2 && is_literal(t[0].as_slice(), "source") {
            Err(FileIoError::UnsupportedSource { line, kind: string_from(t[1].as_slice()) })
        } else if t.len() == 3 && is_literal(t[0].as_slice(), "solver") && is_literal(
            t[1].as_slice(),
            "max_iterations",
        ) {
            match parse_usize(line, t[2].as_slice()) {
                Err(e) => Err(e),
                Ok(n) => {
                    if n == 0 {
                        Err(FileIoError::InvalidMaxIterations)
                    } else {
                        max_iterations = n;
                        in_dirichlet = false;
                        Ok(())
                    }
                },
            }
        } else if t.len() == 3 && is_literal(t[0].as_slice(), "solver") && is_literal(
            t[1].as_slice(),
            "tolerance",
        ) {
            match parse_decimal(line, t[2].as_slice()) {
                Err(e) => Err(e),
                Ok(v) => {
                    let ghost before = checks@;
                    checks.push(ValueCheck { kind: ValueKind::Tolerance, value: v.copy() });
                    assert(check_views(checks@) =~= check_views(before).push(
                        (ValueKind::Tolerance, v@),
                    ));
                    tolerance = v;
                    in_dirichlet = false;
                    Ok(())
                },
            }
        } else if t.len() >= 2 && is_literal(t[0].as_slice(), "solver") {
            Err(FileIoError::UnsupportedSolverOption { line, option: string_from(t[1].as_slice()) })
        } else if in_dirichlet {
            if t.len() != 2 {
                Err(FileIoError::InvalidLine { line, expected: "dirichlet row: <node_id> <value>" })
            } else {
                match parse_usize(line, t[0].as_slice()) {
                    Err(e) => Err(e),
                    Ok(node) => match parse_decimal(line, t[1].as_slice()) {
                        Err(e) => Err(e),
                        Ok(v) => {
                            let ghost vv = v@;
                            let ghost before = dirichlet@;
                            assert(before.map_values(|d: Decimal| d@).dom() =~= before.dom());
                            if dirichlet.insert(node, v).is_some() {
                                Err(FileIoError::DuplicateDirichlet { line, node_id: node })
                            } else {
                                assert(dirichlet@.map_values(|d: Decimal| d@) =~= before.map_values(
                                    |d: Decimal| d@,
                                ).insert(node, vv));
                                Ok(())
                            }
                        },
                    },
                }
            }
        } else {
            Err(FileIoError::InvalidLine { line, expected: "a parameter row or dirichlet section" })
        };
        match step {
            Ok(()) => {},
            Err(e) => {
                assert(params_step(st, line, tv) == Err::<ParamsState, IoFault>(e@));
                assert(params_rows(rs) == (st, Some(e@)));
                return ParamsParse { outcome: Err(e), checks };
            },
        }
        i += 1;
    }
    assert(rs.take(rows@.len() as int) =~= rs);
    let outcome = match (conductivity, source) {
        (None, _) => Err(FileIoError::MissingParameter { name: "conductivity" }),
        (Some(_), None) => Err(FileIoError::MissingParameter { name: "source" }),
        (Some(c), Some(s)) => {
            let ghost dv = dirichlet@.map_values(|d: Decimal| d@);
            assert(dv.dom() =~= dirichlet@.dom());
            let keys = sorted_keys(&dirichlet);
            let mut rows_out: Vec<(NodeId, Decimal)> = Vec::new();
            let mut k: usize = 0;
            while k < keys.len()
                invariant
                    k <= keys@.len(),
                    keys@.to_set() == dirichlet@.dom(),
                    dv == dirichlet@.map_values(|d: Decimal| d@),
                    rows_out@.map_values(|d: (NodeId, Decimal)| (d.0, d.1@)) == keys@.take(
                        k as int,
                    ).map_values(|n: usize| (n, dv[n])),
                decreases keys@.len() - k,
            {
                assert(keys@.to_set().contains(keys@[k as int]));
                match dirichlet.get(&keys[k]) {
                    Some(v) => {
                        let ghost prev = rows_out@;
                        rows_out.push((keys[k], v.copy()));
                        assert(rows_out@.map_values(|d: (NodeId, Decimal)| (d.0, d.1@)) =~= prev.map_values(
                            |d: (NodeId, Decimal)| (d.0, d.1@),
                        ).push((keys@[k as int], dv[keys@[k as int]])));
                        assert(keys@.take(k + 1).map_values(|n: usize| (n, dv[n])) =~= keys@.take(
                            k as int,
                        ).map_values(|n: usize| (n, dv[n])).push((keys@[k as int], dv[keys@[k as int]])));
                    },
                    None => {
                        assert(false);
                    },
                }
                k += 1;
            }
            assert(keys@.take(keys@.len() as int) =~= keys@);
            Ok(
                PoissonFileConfig {
                    conductivity: c,
                    source: SourceConfig::Constant(s),
                    dirichlet: rows_out,
                    solver_options: SolverOptions { max_iterations, tolerance },
                },
            )
        },
    };
    ParamsParse { outcome, checks }
}

/// The position of the first check that did not pass, if any.
pub open spec fn first_failed(passed: Seq<bool>) -> Option<int>
    decreases passed.len(),
{
    if passed.len() == 0 {
        None
    } else if let Some(i) = first_failed(passed.drop_last()) {
        Some(i)
    } else if !passed.last() {
        Some(passed.len() - 1)
    } else {
        None
    }
}

/// The error a failed check reports.
pub open spec fn check_error(kind: ValueKind, value: Seq<char>) -> IoFault {
    match kind {
        ValueKind::Conductivity => IoFault::InvalidConductivity { value },
        ValueKind::Source => IoFault::InvalidSource { value },
        ValueKind::Tolerance => IoFault::InvalidTolerance { value },
    }
}

/// The outcome of a parse once its checks are answered (`passed[i]` for
/// check `i`): the error of the first check that did not pass, or the
/// outcome of the parse.
pub fn resolve_params(parse: ParamsParse, passed: &[bool]) -> (r: Result<
    PoissonFileConfig,
    FileIoError,
>)
    requires
        passed@.len() == parse.checks@.len(),
    ensures
        match first_failed(passed@) {
            Some(i) => r matches Err(e) && e@ == check_error(
                parse.checks@[i].kind,
                parse.checks@[i].value@,
            ),
            None => outcome_view(r) == outcome_view(parse.outcome),
        },
{
    let mut i: usize = 0;
    assert(passed@.take(0) =~= Seq::<bool>::empty());
    while i < passed.len()
        invariant
            i <= passed@.len(),
            passed@.len() == parse.checks@.len(),
            first_failed(passed@.take(i as int)) is None,
        decreases passed@.len() - i,
    {
        assert(passed@.take(i + 1).drop_last() =~= passed@.take(i as int));
        if !passed[i] {
            proof {
                lemma_first_failed_prefix(passed@, i + 1);
            }
            let c = &parse.checks[i];
            let value = c.value.copy();
            return match c.kind {
                ValueKind::Conductivity => Err(FileIoError::InvalidConductivity { value }),
                ValueKind::Source => Err(FileIoError::InvalidSource { value }),
                ValueKind::Tolerance => Err(FileIoError::InvalidTolerance { value }),
            };
        }
        i += 1;
    }
    assert(passed@.take(passed@.len() as int) =~= passed@);
    parse.outcome
}

proof fn lemma_first_failed_prefix(passed: Seq<bool>, n: int)
    requires
        0 <= n <= passed.len(),
        first_failed(passed.take(n)) is Some,
    ensures
        first_failed(passed) == first_failed(passed.take(n)),
    decreases passed.len(),
{
    if n < passed.len() {
        assert(passed.drop_last().take(n) =~= passed.take(n));
        lemma_first_failed_prefix(passed.drop_last(), n);
    } else {
        assert(passed.take(n) =~= passed);
    }
}

/// Every Dirichlet node exists in a mesh of `node_count` nodes, or the
/// first that does not.
pub fn validate_params_for_mesh(config: &PoissonFileConfig, node_count: usize) -> (r: Result<
    (),
    FileIoError,
>)
    ensures
        match r {
            Ok(()) => forall|i: int|
                0 <= i < config.dirichlet@.len() ==> (#[trigger] config.dirichlet@[i]).0 < node_count,
            Err(e) => exists|i: int|
                0 <= i < config.dirichlet@.len() && (#[trigger] config.dirichlet@[i]).0 >= node_count
                    && (forall|j: int| 0 <= j < i ==> config.dirichlet@[j].0 < node_count) && e@
                    == IoFault::BoundaryNodeOutOfBounds {
                    node_id: config.dirichlet@[i].0,
                    node_count,
                },
        },
{
    let mut i: usize = 0;
    while i < config.dirichlet.len()
        invariant
            i <= config.dirichlet@.len(),
            forall|j: int| 0 <= j < i ==> (#[trigger] config.dirichlet@[j]).0 < node_count,
        decreases config.dirichlet@.len() - i,
    {
        let node_id = config.dirichlet[i].0;
        if node_id >= node_count {
            return Err(FileIoError::BoundaryNodeOutOfBounds { node_id, node_count });
        }
        i += 1;
    }
    Ok(())
}

/// A `#` comment added to a line of a parameter file, or removed from it,
/// changes nothing that is read.
pub proof fn law_params_ignore_comments(a: Seq<char>, l: Seq<char>, c: Seq<char>, b: Seq<char>)
    requires
        a.len() == 0 || a.last() == '\n',
        !l.contains('\n'),
        !l.contains('#'),
        !c.contains('\n'),
    ensures
        params_file(a + l + seq!['#'] + c + seq!['\n'] + b) == params_file(a + l + seq!['\n'] + b),
{
    law_comment_keeps_data_lines(a, l, c, b);
}

} // verus!
