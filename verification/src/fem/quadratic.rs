//! Quadratic elements: six-node triangles and ten-node tetrahedra.
use vstd::prelude::*;

use crate::fem::element::{plane_fields, scalar_fields, solid_fields, string_views, Element};
use crate::mesh::NodeId;

verus! {

/// A quadratic triangle carrying the scalar field `u`.
pub struct PoissonTri6<'a> {
    pub nodes: &'a [NodeId; 6],
}

impl<'a> Element for PoissonTri6<'a> {
    fn spatial_dimension(&self) -> (d: usize)
        ensures
            d == 2,
    {
        2
    }

    fn node_count(&self) -> (n: usize)
        ensures
            n == 6,
    {
        6
    }

    fn nodes(&self) -> (ns: &[NodeId])
        ensures
            ns@ == self.nodes@,
    {
        self.nodes.as_slice()
    }

    fn active_fields(&self) -> (f: Vec<String>)
        ensures
            string_views(f@) == seq!["u"@],
    {
        scalar_fields()
    }
}

/// A quadratic tetrahedron carrying the scalar field `u`.
pub struct PoissonTet10<'a> {
    pub nodes: &'a [NodeId; 10],
}

impl<'a> Element for PoissonTet10<'a> {
    fn spatial_dimension(&self) -> (d: usize)
        ensures
            d == 3,
    {
        3
    }

    fn node_count(&self) -> (n: usize)
        ensures
            n == 10,
    {
        10
    }

    fn nodes(&self) -> (ns: &[NodeId])
        ensures
            ns@ == self.nodes@,
    {
        self.nodes.as_slice()
    }

    fn active_fields(&self) -> (f: Vec<String>)
        ensures
            string_views(f@) == seq!["u"@],
    {
        scalar_fields()
    }
}

/// A quadratic triangle carrying the in-plane displacements.
pub struct ElasticityTri6<'a> {
    pub nodes: &'a [NodeId; 6],
}

impl<'a> Element for ElasticityTri6<'a> {
    fn spatial_dimension(&self) -> (d: usize)
        ensures
            d == 2,
    {
        2
    }

    fn node_count(&self) -> (n: usize)
        ensures
            n == 6,
    {
        6
    }

    fn nodes(&self) -> (ns: &[NodeId])
        ensures
            ns@ == self.nodes@,
    {
        self.nodes.as_slice()
    }

    fn active_fields(&self) -> (f: Vec<String>)
        ensures
            string_views(f@) == seq!["ux"@, "uy"@],
    {
        plane_fields()
    }
}

/// A quadratic tetrahedron carrying the three displacements.
pub struct ElasticityTet10<'a> {
    pub nodes: &'a [NodeId; 10],
}

impl<'a> Element for ElasticityTet10<'a> {
    fn spatial_dimension(&self) -> (d: usize)
        ensures
            d == 3,
    {
        3
    }

    fn node_count(&self) -> (n: usize)
        ensures
            n == 10,
    {
        10
    }

    fn nodes(&self) -> (ns: &[NodeId])
        ensures
            ns@ == self.nodes@,
    {
        self.nodes.as_slice()
    }

    fn active_fields(&self) -> (f: Vec<String>)
        ensures
            string_views(f@) == seq!["ux"@, "uy"@, "uz"@],
    {
        solid_fields()
    }
}

} // verus!
