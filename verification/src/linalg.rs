//! Options and reports of the linear solvers: which solver and
//! preconditioner to use, how long to iterate, and what the structure of a
//! matrix suggests about it.
use vstd::prelude::*;

use crate::numbers::Decimal;
use crate::text::{append_chars, append_str, chars_of, is_literal};

verus! {

/// When an iterative solver stops: after at most `max_iterations` steps,
/// or once the residual is below `tolerance`.
#[derive(Debug, PartialEq)]
pub struct SolverOptions {
    pub max_iterations: usize,
    pub tolerance: Decimal,
}

impl SolverOptions {
    /// Ten thousand iterations, tolerance `1e-10`.
    pub fn default_options() -> (o: SolverOptions)
        ensures
            o.max_iterations == 10_000,
            o.tolerance@ == seq!['1', 'e', '-', '1', '0'],
    {
        SolverOptions { max_iterations: 10_000, tolerance: Decimal::ten_to_minus_ten() }
    }
}

/// The algorithm that solves a linear system.
#[derive(Clone, Copy, Debug, PartialEq, Eq, Structural)]
pub enum LinearSolverBackend {
    ConjugateGradient,
    Gmres,
    DenseDirect,
    SparseLdl,
}

/// The preconditioner of an iterative solver.
#[derive(Clone, Copy, Debug, PartialEq, Eq, Structural)]
pub enum PreconditionerKind {
    /// No preconditioning (the identity).
    Identity,
    Jacobi,
    Amg,
}

/// The backend a request names: none, `cg` or `conjugate_gradient` for the
/// conjugate gradient method, `gmres`, `dense_direct`, `sparse_ldl`.
pub open spec fn backend_named(name: Option<Seq<char>>) -> Option<LinearSolverBackend> {
    match name {
        None => Some(LinearSolverBackend::ConjugateGradient),
        Some(n) => if n == "cg"@ || n == "conjugate_gradient"@ {
            Some(LinearSolverBackend::ConjugateGradient)
        } else if n == "gmres"@ {
            Some(LinearSolverBackend::Gmres)
        } else if n == "dense_direct"@ {
            Some(LinearSolverBackend::DenseDirect)
        } else if n == "sparse_ldl"@ {
            Some(LinearSolverBackend::SparseLdl)
        } else {
            None
        },
    }
}

/// The preconditioner a request names: none or `none`, `jacobi`, `amg`.
pub open spec fn preconditioner_named(name: Option<Seq<char>>) -> Option<PreconditionerKind> {
    match name {
        None => Some(PreconditionerKind::Identity),
        Some(n) => if n == "none"@ {
            Some(PreconditionerKind::Identity)
        } else if n == "jacobi"@ {
            Some(PreconditionerKind::Jacobi)
        } else if n == "amg"@ {
            Some(PreconditionerKind::Amg)
        } else {
            None
        },
    }
}

/// The characters of an optional string.
pub open spec fn str_opt(o: Option<&str>) -> Option<Seq<char>> {
    match o {
        Some(s) => Some(s@),
        None => None,
    }
}

impl LinearSolverBackend {
    /// The backend a request names, or the message refusing the name.
    pub fn from_name(name: Option<&str>) -> (r: Result<LinearSolverBackend, String>)
        ensures
            match r {
                Ok(b) => backend_named(str_opt(name)) == Some(b),
                Err(m) => backend_named(str_opt(name)) is None && m@ == "unsupported solver backend '"@
                    + name->0@ + "'"@,
            },
    {
        match name {
            None => Ok(LinearSolverBackend::ConjugateGradient),
            Some(n) => {
                let c = chars_of(n);
                let c = c.as_slice();
                if is_literal(c, "cg") || is_literal(c, "conjugate_gradient") {
                    Ok(LinearSolverBackend::ConjugateGradient)
                } else if is_literal(c, "gmres") {
                    Ok(LinearSolverBackend::Gmres)
                } else if is_literal(c, "dense_direct") {
                    Ok(LinearSolverBackend::DenseDirect)
                } else if is_literal(c, "sparse_ldl") {
                    Ok(LinearSolverBackend::SparseLdl)
                } else {
                    let mut m = String::new();
                    append_str(&mut m, "unsupported solver backend '");
                    append_chars(&mut m, c);
                    append_str(&mut m, "'");
                    Err(m)
                }
            },
        }
    }

    /// The name reports give the backend.
    pub fn as_name(self) -> (s: &'static str)
        ensures
            backend_named(Some(s@)) == Some(self),
    {
        match self {
            LinearSolverBackend::ConjugateGradient => {
                let s = "conjugate_gradient";
                proof {
                    reveal_strlit("conjugate_gradient");
                    reveal_strlit("cg");
                    assert(s@ != "cg"@) by {
                        assert(s@.len() != "cg"@.len());
                    }
                }
                s
            },
            LinearSolverBackend::Gmres => {
                let s = "gmres";
                proof {
                    reveal_strlit("gmres");
                    reveal_strlit("cg");
                    reveal_strlit("conjugate_gradient");
                    assert(s@.len() != "cg"@.len());
                    assert(s@.len() != "conjugate_gradient"@.len());
                }
                s
            },
            LinearSolverBackend::DenseDirect => {
                let s = "dense_direct";
                proof {
                    reveal_strlit("dense_direct");
                    reveal_strlit("cg");
                    reveal_strlit("conjugate_gradient");
                    reveal_strlit("gmres");
                    assert(s@.len() != "cg"@.len());
                    assert(s@.len() != "conjugate_gradient"@.len());
                    assert(s@.len() != "gmres"@.len());
                }
                s
            },
            LinearSolverBackend::SparseLdl => {
                let s = "sparse_ldl";
                proof {
                    reveal_strlit("sparse_ldl");
                    reveal_strlit("cg");
                    reveal_strlit("conjugate_gradient");
                    reveal_strlit("gmres");
                    reveal_strlit("dense_direct");
                    assert(s@.len() != "cg"@.len());
                    assert(s@.len() != "conjugate_gradient"@.len());
                    assert(s@.len() != "gmres"@.len());
                    assert(s@.len() != "dense_direct"@.len());
                }
                s
            },
        }
    }
}

impl PreconditionerKind {
    /// The preconditioner a request names, or the message refusing the name.
    pub fn from_name(name: Option<&str>) -> (r: Result<PreconditionerKind, String>)
        ensures
            match r {
                Ok(p) => preconditioner_named(str_opt(name)) == Some(p),
                Err(m) => preconditioner_named(str_opt(name)) is None && m@ == "unsupported preconditioner '"@
                    + name->0@ + "'"@,
            },
    {
        match name {
            None => Ok(PreconditionerKind::Identity),
            Some(n) => {
                let c = chars_of(n);
                let c = c.as_slice();
                if is_literal(c, "none") {
                    Ok(PreconditionerKind::Identity)
                } else if is_literal(c, "jacobi") {
                    Ok(PreconditionerKind::Jacobi)
                } else if is_literal(c, "amg") {
                    Ok(PreconditionerKind::Amg)
                } else {
                    let mut m = String::new();
                    append_str(&mut m, "unsupported preconditioner '");
                    append_chars(&mut m, c);
                    append_str(&mut m, "'");
                    Err(m)
                }
            },
        }
    }

    /// The name reports give the preconditioner.
    pub fn as_name(self) -> (s: &'static str)
        ensures
            preconditioner_named(Some(s@)) == Some(self),
    {
        match self {
            PreconditionerKind::Identity => "none",
            PreconditionerKind::Jacobi => {
                let s = "jacobi";
                proof {
                    reveal_strlit("jacobi");
                    reveal_strlit("none");
                    assert(s@.len() != "none"@.len());
                }
                s
            },
            PreconditionerKind::Amg => {
                let s = "amg";
                proof {
                    reveal_strlit("amg");
                    reveal_strlit("none");
                    reveal_strlit("jacobi");
                    assert(s@.len() != "none"@.len());
                    assert(s@.len() != "jacobi"@.len());
                }
                s
            },
        }
    }
}

/// The options of a linear solve.
#[derive(Debug, PartialEq)]
pub struct LinearSolverOptions {
    pub max_iterations: usize,
    pub tolerance: Decimal,
    pub backend: LinearSolverBackend,
    pub preconditioner: PreconditionerKind,
    pub record_residual_history: bool,
}

impl LinearSolverOptions {
    /// The iteration limits of `SolverOptions::default_options`, conjugate
    /// gradients without a preconditioner, no residual history.
    pub fn default_options() -> (o: LinearSolverOptions)
        ensures
            o.max_iterations == 10_000,
            o.tolerance@ == seq!['1', 'e', '-', '1', '0'],
            o.backend == LinearSolverBackend::ConjugateGradient,
            o.preconditioner == PreconditionerKind::Identity,
            !o.record_residual_history,
    {
        let solver = SolverOptions::default_options();
        LinearSolverOptions {
            max_iterations: solver.max_iterations,
            tolerance: solver.tolerance,
            backend: LinearSolverBackend::ConjugateGradient,
            preconditioner: PreconditionerKind::Identity,
            record_residual_history: false,
        }
    }
}

impl From<SolverOptions> for LinearSolverOptions {
    /// The iteration limits of `value` with conjugate gradients, no
    /// preconditioner and no residual history.
    fn from(value: SolverOptions) -> (r: Self) {
        LinearSolverOptions {
            max_iterations: value.max_iterations,
            tolerance: value.tolerance,
            backend: LinearSolverBackend::ConjugateGradient,
            preconditioner: PreconditionerKind::Identity,
            record_residual_history: false,
        }
    }
}

impl vstd::std_specs::convert::FromSpecImpl<SolverOptions> for LinearSolverOptions {
    open spec fn obeys_from_spec() -> bool {
        true
    }

    open spec fn from_spec(v: SolverOptions) -> LinearSolverOptions {
        LinearSolverOptions {
            max_iterations: v.max_iterations,
            tolerance: v.tolerance,
            backend: LinearSolverBackend::ConjugateGradient,
            preconditioner: PreconditionerKind::Identity,
            record_residual_history: false,
        }
    }
}

/// What the structure of a matrix suggests about whether it is symmetric
/// positive definite.
#[derive(Clone, Copy, Debug, PartialEq, Eq, Structural)]
pub struct SpdHeuristics {
    pub positive_diagonal: bool,
    pub numerically_symmetric: bool,
    pub weakly_diagonally_dominant: bool,
    pub likely_spd: bool,
}

impl SpdHeuristics {
    /// The heuristics from the checks on a matrix: it is likely symmetric
    /// positive definite when it is square, numerically symmetric, with a
    /// positive diagonal and no non-finite entry.
    pub fn from_checks(
        is_square: bool,
        numerically_symmetric: bool,
        positive_diagonal: bool,
        weakly_diagonally_dominant: bool,
        non_finite_count: usize,
    ) -> (h: SpdHeuristics)
        ensures
            h.positive_diagonal == positive_diagonal,
            h.numerically_symmetric == numerically_symmetric,
            h.weakly_diagonally_dominant == weakly_diagonally_dominant,
            h.likely_spd == (is_square && numerically_symmetric && positive_diagonal
                && non_finite_count == 0),
    {
        SpdHeuristics {
            positive_diagonal,
            numerically_symmetric,
            weakly_diagonally_dominant,
            likely_spd: is_square && numerically_symmetric && positive_diagonal && non_finite_count
                == 0,
        }
    }
}

} // verus!
