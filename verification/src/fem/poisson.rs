//! Linear elements of the Poisson problem.
use std::collections::BTreeMap;
use vstd::prelude::*;

use crate::fem::element::{scalar_fields, string_views, Element};
use crate::mesh::NodeId;
use crate::numbers::Decimal;

verus! {

broadcast use {vstd::std_specs::btree::group_btree_axioms, vstd::laws_cmp::group_laws_cmp};

/// Why the prescribed values of a Poisson problem do not fit its mesh.
#[derive(Clone, Copy, Debug, PartialEq, Eq, Structural)]
pub enum DirichletError {
    BoundaryNodeOutOfBounds { node_id: NodeId, node_count: usize },
    DuplicateBoundaryNode { node_id: NodeId },
}

/// The first prescribed value, in order, on a node outside a mesh of
/// `node_count` nodes or on a node given before; otherwise the prescribed
/// value of each node.
pub open spec fn dirichlet_outcome(node_count: usize, entries: Seq<(NodeId, Seq<char>)>) -> Result<
    Map<NodeId, Seq<char>>,
    DirichletError,
>
    decreases entries.len(),
{
    if entries.len() == 0 {
        Ok(Map::empty())
    } else {
        match dirichlet_outcome(node_count, entries.drop_last()) {
            Err(e) => Err(e),
            Ok(m) => {
                let (node, value) = entries.last();
                if node >= node_count {
                    Err(DirichletError::BoundaryNodeOutOfBounds { node_id: node, node_count })
                } else if m.contains_key(node) {
                    Err(DirichletError::DuplicateBoundaryNode { node_id: node })
                } else {
                    Ok(m.insert(node, value))
                }
            },
        }
    }
}

/// Prescribed values by node and value text.
pub open spec fn dirichlet_views(entries: Seq<(NodeId, Decimal)>) -> Seq<(NodeId, Seq<char>)> {
    entries.map_values(|e: (NodeId, Decimal)| (e.0, e.1@))
}

proof fn lemma_dirichlet_stop(node_count: usize, entries: Seq<(NodeId, Seq<char>)>, n: int)
    requires
        0 <= n <= entries.len(),
    ensures
        dirichlet_outcome(node_count, entries.take(n)) is Err ==> dirichlet_outcome(
            node_count,
            entries,
        ) == dirichlet_outcome(node_count, entries.take(n)),
    decreases entries.len(),
{
    if n < entries.len() {
        assert(entries.drop_last().take(n) =~= entries.take(n));
        lemma_dirichlet_stop(node_count, entries.drop_last(), n);
    } else {
        assert(entries.take(n) =~= entries);
    }
}

/// Checks the prescribed values of a Poisson problem against a mesh of
/// `node_count` nodes; the prescribed value of each node.
pub fn validate_dirichlet(node_count: usize, entries: &[(NodeId, Decimal)]) -> (r: Result<
    BTreeMap<NodeId, Decimal>,
    DirichletError,
>)
    ensures
        match r {
            Ok(m) => dirichlet_outcome(node_count, dirichlet_views(entries@)) == Ok::<
                Map<NodeId, Seq<char>>,
                DirichletError,
            >(m@.map_values(|d: Decimal| d@)),
            Err(e) => dirichlet_outcome(node_count, dirichlet_views(entries@)) == Err::<
                Map<NodeId, Seq<char>>,
                DirichletError,
            >(e),
        },
{
    let ghost es = dirichlet_views(entries@);
    let mut fixed: BTreeMap<NodeId, Decimal> = BTreeMap::new();
    let mut i: usize = 0;
    assert(fixed@.map_values(|d: Decimal| d@) =~= Map::<NodeId, Seq<char>>::empty());
    while i < entries.len()
        invariant
            i <= entries@.len(),
            es == dirichlet_views(entries@),
            dirichlet_outcome(node_count, es.take(i as int)) == Ok::<
                Map<NodeId, Seq<char>>,
                DirichletError,
            >(fixed@.map_values(|d: Decimal| d@)),
        decreases entries@.len() - i,
    {
        let node = entries[i].0;
        assert(es.take(i + 1).drop_last() =~= es.take(i as int));
        assert(es.take(i + 1).last() == (node, entries@[i as int].1@));
        proof {
            lemma_dirichlet_stop(node_count, es, i + 1);
        }
        if node >= node_count {
            return Err(DirichletError::BoundaryNodeOutOfBounds { node_id: node, node_count });
        }
        let ghost before = fixed@;
        assert(before.map_values(|d: Decimal| d@).dom() =~= before.dom());
        if fixed.insert(node, entries[i].1.copy()).is_some() {
            return Err(DirichletError::DuplicateBoundaryNode { node_id: node });
        }
        assert(fixed@.map_values(|d: Decimal| d@) =~= before.map_values(|d: Decimal| d@).insert(
            node,
            entries@[i as int].1@,
        ));
        i += 1;
    }
    assert(es.take(entries@.len() as int) =~= es);
    Ok(fixed)
}

/// A linear triangle carrying the scalar field `u`.
pub struct PoissonTri3<'a> {
    pub nodes: &'a [NodeId; 3],
}

impl<'a> Element for PoissonTri3<'a> {
    fn spatial_dimension(&self) -> (d: usize)
        ensures
            d == 2,
    {
        2
    }

    fn node_count(&self) -> (n: usize)
        ensures
            n == 3,
    {
        3
    }

    fn nodes(&self) -> (ns: &[NodeId])
        ensures
            ns@ == self.nodes@,
    {
        self.nodes.as_slice()
    }

    fn active_fields(&self) -> (f: Vec<String>)
        ensures
            string_views(f@) == seq!["u"@],
    {
        scalar_fields()
    }
}

/// A linear tetrahedron carrying the scalar field `u`.
pub struct PoissonTet4<'a> {
    pub nodes: &'a [NodeId; 4],
}

impl<'a> Element for PoissonTet4<'a> {
    fn spatial_dimension(&self) -> (d: usize)
        ensures
            d == 3,
    {
        3
    }

    fn node_count(&self) -> (n: usize)
        ensures
            n == 4,
    {
        4
    }

    fn nodes(&self) -> (ns: &[NodeId])
        ensures
            ns@ == self.nodes@,
    {
        self.nodes.as_slice()
    }

    fn active_fields(&self) -> (f: Vec<String>)
        ensures
            string_views(f@) == seq!["u"@],
    {
        scalar_fields()
    }
}

} // verus!
