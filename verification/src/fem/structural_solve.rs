//! Structural (shell and beam) bookkeeping: six degrees of freedom per node.
use vstd::prelude::*;

use crate::mesh::NodeId;

verus! {

/// Degrees of freedom per node: three displacements and three rotations.
pub const DOFS_PER_NODE: usize = 6;

/// A displacement or rotation component of a structural node.
#[derive(Clone, Copy, Debug, PartialEq, Eq, Structural)]
pub enum StructuralComponent {
    Ux,
    Uy,
    Uz,
    ThetaX,
    ThetaY,
    ThetaZ,
}

impl StructuralComponent {
    /// The position of the component among a node's six.
    pub open spec fn spec_offset(self) -> nat {
        match self {
            StructuralComponent::Ux => 0,
            StructuralComponent::Uy => 1,
            StructuralComponent::Uz => 2,
            StructuralComponent::ThetaX => 3,
            StructuralComponent::ThetaY => 4,
            StructuralComponent::ThetaZ => 5,
        }
    }

    /// The position of the component among a node's six.
    pub fn offset(self) -> (o: usize)
        ensures
            o == self.spec_offset(),
    {
        match self {
            StructuralComponent::Ux => 0,
            StructuralComponent::Uy => 1,
            StructuralComponent::Uz => 2,
            StructuralComponent::ThetaX => 3,
            StructuralComponent::ThetaY => 4,
            StructuralComponent::ThetaZ => 5,
        }
    }
}

/// The degree of freedom of a component of a node, six per node.
pub fn dof_index_6(node: NodeId, component: StructuralComponent) -> (d: usize)
    requires
        node * 6 + 5 <= usize::MAX,
    ensures
        d == node * 6 + component.spec_offset(),
{
    node * DOFS_PER_NODE + component.offset()
}

impl StructuralComponent {
    /// The axis the component acts along or turns about: 0 for x, 1 for y,
    /// 2 for z.
    pub open spec fn axis(self) -> nat {
        match self {
            StructuralComponent::Ux | StructuralComponent::ThetaX => 0,
            StructuralComponent::Uy | StructuralComponent::ThetaY => 1,
            StructuralComponent::Uz | StructuralComponent::ThetaZ => 2,
        }
    }

    /// Whether the component is a rotation rather than a displacement.
    pub open spec fn is_rotation(self) -> bool {
        match self {
            StructuralComponent::ThetaX | StructuralComponent::ThetaY
            | StructuralComponent::ThetaZ => true,
            _ => false,
        }
    }
}

/// A node's six equations are its three displacements along x, y, z, then
/// its three rotations about x, y, z: the rotation about an axis comes
/// three places after the displacement along it.
pub proof fn law_structural_offsets(c: StructuralComponent, node: nat)
    ensures
        c.spec_offset() == (if c.is_rotation() {
            3nat
        } else {
            0nat
        }) + c.axis(),
        node * 6 + c.spec_offset() < (node + 1) * 6,
{
}

} // verus!
