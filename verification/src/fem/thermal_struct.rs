//! Thermo-elastic bookkeeping: the degrees of freedom of a cell.
use vstd::prelude::*;

use crate::fem::elasticity::{dof_2d, DisplacementComponent};
use crate::mesh::NodeId;

verus! {

/// The degree of freedom of a component of a node, two per node.
pub fn dof_index(node: NodeId, component: DisplacementComponent) -> (d: usize)
    requires
        node * 2 + 1 <= usize::MAX,
    ensures
        d == dof_2d(node, component),
{
    node * 2 + match component {
        DisplacementComponent::X => 0,
        DisplacementComponent::Y => 1,
    }
}

/// The degrees of freedom of a cell's nodes: `x` and `y` of each in turn.
pub fn cell_dofs(nodes: &[NodeId]) -> (d: Vec<usize>)
    requires
        forall|i: int| 0 <= i < nodes@.len() ==> #[trigger] nodes@[i] * 2 + 1 <= usize::MAX,
    ensures
        d@.len() == 2 * nodes@.len(),
        forall|i: int| 0 <= i < d@.len() ==> #[trigger] d@[i] == nodes@[i / 2] * 2 + i % 2,
{
    let mut dofs: Vec<usize> = Vec::new();
    let mut k: usize = 0;
    while k < nodes.len()
        invariant
            k <= nodes@.len(),
            forall|i: int| 0 <= i < nodes@.len() ==> #[trigger] nodes@[i] * 2 + 1 <= usize::MAX,
            dofs@.len() == 2 * k,
            forall|i: int| 0 <= i < dofs@.len() ==> #[trigger] dofs@[i] == nodes@[i / 2] * 2 + i % 2,
        decreases nodes@.len() - k,
    {
        let node = nodes[k];
        assert(nodes@[k as int] * 2 + 1 <= usize::MAX);
        dofs.push(dof_index(node, DisplacementComponent::X));
        dofs.push(dof_index(node, DisplacementComponent::Y));
        assert forall|i: int| 0 <= i < dofs@.len() implies #[trigger] dofs@[i] == nodes@[i / 2] * 2 + i
            % 2 by {
            if i == 2 * k {
                assert(i / 2 == k);
            } else if i == 2 * k + 1 {
                assert(i / 2 == k);
            }
        }
        k += 1;
    }
    dofs
}

} // verus!
