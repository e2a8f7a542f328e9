//! Modal analysis bookkeeping: degree of freedom numbering of two- and
//! three-dimensional meshes, and the degrees of freedom constraints fix.
use std::collections::BTreeSet;
use vstd::prelude::*;

use crate::fem::elasticity::{
    dof_2d, dof_3d, DisplacementComponent, DisplacementComponent3D, DisplacementConstraint,
    DisplacementConstraint3D,
};
use crate::mesh::NodeId;

verus! {

broadcast use {vstd::std_specs::btree::group_btree_axioms, vstd::laws_cmp::group_laws_cmp};

/// The degree of freedom of a component of a node, two per node.
pub fn dof_index_2d(node: NodeId, component: DisplacementComponent) -> (d: usize)
    requires
        node * 2 + 1 <= usize::MAX,
    ensures
        d == dof_2d(node, component),
{
    let offset: usize = match component {
        DisplacementComponent::X => 0,
        DisplacementComponent::Y => 1,
    };
    node * 2 + offset
}

/// The degree of freedom of a component of a node, three per node.
pub fn dof_index_3d(node: NodeId, component: DisplacementComponent3D) -> (d: usize)
    requires
        node * 3 + 2 <= usize::MAX,
    ensures
        d == dof_3d(node, component),
{
    let offset: usize = match component {
        DisplacementComponent3D::X => 0,
        DisplacementComponent3D::Y => 1,
        DisplacementComponent3D::Z => 2,
    };
    node * 3 + offset
}

/// The degrees of freedom that in-plane constraints fix.
pub fn constrained_dofs_2d(constraints: &[DisplacementConstraint]) -> (s: BTreeSet<usize>)
    requires
        forall|i: int| 0 <= i < constraints@.len() ==> #[trigger] constraints@[i].node * 2 + 1 <= usize::MAX,
    ensures
        forall|d: usize|
            s@.contains(d) <==> exists|i: int|
                0 <= i < constraints@.len() && dof_2d(constraints@[i].node, constraints@[i].component)
                    == d,
{
    let mut s: BTreeSet<usize> = BTreeSet::new();
    let mut k: usize = 0;
    while k < constraints.len()
        invariant
            k <= constraints@.len(),
            forall|i: int| 0 <= i < constraints@.len() ==> #[trigger] constraints@[i].node * 2 + 1 <= usize::MAX,
            forall|d: usize|
                s@.contains(d) <==> exists|i: int|
                    0 <= i < k && dof_2d(constraints@[i].node, constraints@[i].component) == d,
        decreases constraints@.len() - k,
    {
        let c = &constraints[k];
        assert(constraints@[k as int].node * 2 + 1 <= usize::MAX);
        let dof = dof_index_2d(c.node, c.component);
        s.insert(dof);
        assert forall|d: usize| s@.contains(d) <==> exists|i: int|
            0 <= i < k + 1 && dof_2d(constraints@[i].node, constraints@[i].component) == d by {
            if exists|i: int| 0 <= i < k + 1 && dof_2d(constraints@[i].node, constraints@[i].component) == d {
                let i = choose|i: int| 0 <= i < k + 1 && dof_2d(constraints@[i].node, constraints@[i].component) == d;
                if i < k {
                    assert(exists|j: int| 0 <= j < k && dof_2d(constraints@[j].node, constraints@[j].component) == d);
                }
            }
        }
        k += 1;
    }
    s
}

/// The degrees of freedom that three-dimensional constraints fix.
pub fn constrained_dofs_3d(constraints: &[DisplacementConstraint3D]) -> (s: BTreeSet<usize>)
    requires
        forall|i: int| 0 <= i < constraints@.len() ==> #[trigger] constraints@[i].node * 3 + 2 <= usize::MAX,
    ensures
        forall|d: usize|
            s@.contains(d) <==> exists|i: int|
                0 <= i < constraints@.len() && dof_3d(constraints@[i].node, constraints@[i].component)
                    == d,
{
    let mut s: BTreeSet<usize> = BTreeSet::new();
    let mut k: usize = 0;
    while k < constraints.len()
        invariant
            k <= constraints@.len(),
            forall|i: int| 0 <= i < constraints@.len() ==> #[trigger] constraints@[i].node * 3 + 2 <= usize::MAX,
            forall|d: usize|
                s@.contains(d) <==> exists|i: int|
                    0 <= i < k && dof_3d(constraints@[i].node, constraints@[i].component) == d,
        decreases constraints@.len() - k,
    {
        let c = &constraints[k];
        assert(constraints@[k as int].node * 3 + 2 <= usize::MAX);
        let dof = dof_index_3d(c.node, c.component);
        s.insert(dof);
        assert forall|d: usize| s@.contains(d) <==> exists|i: int|
            0 <= i < k + 1 && dof_3d(constraints@[i].node, constraints@[i].component) == d by {
            if exists|i: int| 0 <= i < k + 1 && dof_3d(constraints@[i].node, constraints@[i].component) == d {
                let i = choose|i: int| 0 <= i < k + 1 && dof_3d(constraints@[i].node, constraints@[i].component) == d;
                if i < k {
                    assert(exists|j: int| 0 <= j < k && dof_3d(constraints@[j].node, constraints@[j].component) == d);
                }
            }
        }
        k += 1;
    }
    s
}

} // verus!
