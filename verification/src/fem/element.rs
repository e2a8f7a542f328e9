//! What every finite element states about itself, and the errors of element
//! computations.
use vstd::prelude::*;

use crate::mesh::NodeId;
use crate::text::{chars_of, string_from};

verus! {

/// Why an element computation failed.
#[derive(Debug, PartialEq)]
pub enum ElementError {
    DegenerateGeometry,
    MissingProperty(String),
    DimensionMismatch { expected: usize, actual: usize },
    InvalidNodeCount { expected: usize, actual: usize },
    Other(String),
}

/// A finite element: its spatial dimension, its nodes and the fields
/// carried at each node.
pub trait Element {
    /// The spatial dimension of the element.
    fn spatial_dimension(&self) -> usize;

    /// The number of nodes of the element.
    fn node_count(&self) -> usize;

    /// The global indices of the element's nodes.
    fn nodes(&self) -> &[NodeId];

    /// The fields carried at each node.
    fn active_fields(&self) -> Vec<String>;
}

/// The texts of strings.
pub open spec fn string_views(v: Seq<String>) -> Seq<Seq<char>> {
    v.map_values(|s: String| s@)
}

/// A `String` holding `s`.
pub fn owned(s: &str) -> (r: String)
    ensures
        r@ == s@,
{
    let c = chars_of(s);
    string_from(c.as_slice())
}

/// The single scalar field `u`.
pub fn scalar_fields() -> (f: Vec<String>)
    ensures
        string_views(f@) == seq!["u"@],
{
    let f = vec![owned("u")];
    assert(string_views(f@) =~= seq!["u"@]);
    f
}

/// The in-plane displacements `ux`, `uy`.
pub fn plane_fields() -> (f: Vec<String>)
    ensures
        string_views(f@) == seq!["ux"@, "uy"@],
{
    let f = vec![owned("ux"), owned("uy")];
    assert(string_views(f@) =~= seq!["ux"@, "uy"@]);
    f
}

/// The displacements `ux`, `uy`, `uz`.
pub fn solid_fields() -> (f: Vec<String>)
    ensures
        string_views(f@) == seq!["ux"@, "uy"@, "uz"@],
{
    let f = vec![owned("ux"), owned("uy"), owned("uz")];
    assert(string_views(f@) =~= seq!["ux"@, "uy"@, "uz"@]);
    f
}

} // verus!
