//! Linear elasticity bookkeeping: displacement components and their degree
//! of freedom numbering, constraint checks, and the solid elements.
use std::collections::BTreeMap;
use vstd::prelude::*;

use crate::fem::element::{solid_fields, string_views, Element};
use crate::io::ids::{ascending, sorted_keys};
use crate::mesh::{ElementKind, NodeId, Tri3};
use crate::numbers::Decimal;

verus! {

broadcast use {vstd::std_specs::btree::group_btree_axioms, vstd::laws_cmp::group_laws_cmp};

/// The plane model of two-dimensional elasticity.
#[derive(Clone, Copy, Debug, PartialEq, Eq, Structural)]
pub enum ElasticityModel {
    PlaneStress,
    PlaneStrain,
}

/// A displacement component in the plane.
#[derive(Clone, Copy, Debug, PartialEq, Eq, Structural)]
pub enum DisplacementComponent {
    X,
    Y,
}

impl DisplacementComponent {
    /// The position of the component among a node's two.
    pub open spec fn spec_offset(self) -> nat {
        match self {
            DisplacementComponent::X => 0,
            DisplacementComponent::Y => 1,
        }
    }

    /// The position of the component among a node's two.
    pub fn offset(self) -> (o: usize)
        ensures
            o == self.spec_offset(),
    {
        match self {
            DisplacementComponent::X => 0,
            DisplacementComponent::Y => 1,
        }
    }
}

/// A displacement component in space.
#[derive(Clone, Copy, Debug, PartialEq, Eq, Structural)]
pub enum DisplacementComponent3D {
    X,
    Y,
    Z,
}

impl DisplacementComponent3D {
    /// The position of the component among a node's three.
    pub open spec fn spec_offset(self) -> nat {
        match self {
            DisplacementComponent3D::X => 0,
            DisplacementComponent3D::Y => 1,
            DisplacementComponent3D::Z => 2,
        }
    }

    /// The position of the component among a node's three.
    pub fn offset(self) -> (o: usize)
        ensures
            o == self.spec_offset(),
    {
        match self {
            DisplacementComponent3D::X => 0,
            DisplacementComponent3D::Y => 1,
            DisplacementComponent3D::Z => 2,
        }
    }
}

/// The degree of freedom of a component of a node, two per node.
pub open spec fn dof_2d(node: NodeId, c: DisplacementComponent) -> int {
    node * 2 + c.spec_offset()
}

/// The degree of freedom of a component of a node, three per node.
pub open spec fn dof_3d(node: NodeId, c: DisplacementComponent3D) -> int {
    node * 3 + c.spec_offset()
}

/// The degree of freedom of a component of a node, two per node.
pub fn dof_index(node: NodeId, component: DisplacementComponent) -> (d: usize)
    requires
        node * 2 + 1 <= usize::MAX,
    ensures
        d == dof_2d(node, component),
{
    node * 2 + component.offset()
}

/// The degree of freedom of a component of a node, three per node.
pub fn dof_index_3d(node: NodeId, component: DisplacementComponent3D) -> (d: usize)
    requires
        node * 3 + 2 <= usize::MAX,
    ensures
        d == dof_3d(node, component),
{
    node * 3 + component.offset()
}

/// The six degrees of freedom of a triangle: `x` and `y` of each node in turn.
pub fn triangle_dofs(triangle: &Tri3) -> (d: [usize; 6])
    requires
        forall|i: int| 0 <= i < 3 ==> #[trigger] triangle.nodes@[i] * 2 + 1 <= usize::MAX,
    ensures
        forall|i: int| 0 <= i < 6 ==> #[trigger] d@[i] == triangle.nodes@[i / 2] * 2 + i % 2,
{
    let n = triangle.nodes;
    assert(n@[0] * 2 + 1 <= usize::MAX && n@[1] * 2 + 1 <= usize::MAX && n@[2] * 2 + 1 <= usize::MAX);
    let d = [
        dof_index(n[0], DisplacementComponent::X),
        dof_index(n[0], DisplacementComponent::Y),
        dof_index(n[1], DisplacementComponent::X),
        dof_index(n[1], DisplacementComponent::Y),
        dof_index(n[2], DisplacementComponent::X),
        dof_index(n[2], DisplacementComponent::Y),
    ];
    assert forall|i: int| 0 <= i < 6 implies #[trigger] d@[i] == triangle.nodes@[i / 2] * 2 + i % 2 by {
        if i == 0 {
        } else if i == 1 {
        } else if i == 2 {
        } else if i == 3 {
        } else if i == 4 {
        } else {
        }
    }
    d
}

/// The twelve degrees of freedom of a tetrahedron: `x`, `y` and `z` of each
/// node in turn.
pub fn tet4_dofs(nodes: [NodeId; 4]) -> (d: [usize; 12])
    requires
        forall|i: int| 0 <= i < 4 ==> #[trigger] nodes@[i] * 3 + 2 <= usize::MAX,
    ensures
        forall|i: int| 0 <= i < 12 ==> #[trigger] d@[i] == nodes@[i / 3] * 3 + i % 3,
{
    assert(nodes@[0] * 3 + 2 <= usize::MAX && nodes@[1] * 3 + 2 <= usize::MAX && nodes@[2] * 3 + 2
        <= usize::MAX && nodes@[3] * 3 + 2 <= usize::MAX);
    let d = [
        dof_index_3d(nodes[0], DisplacementComponent3D::X),
        dof_index_3d(nodes[0], DisplacementComponent3D::Y),
        dof_index_3d(nodes[0], DisplacementComponent3D::Z),
        dof_index_3d(nodes[1], DisplacementComponent3D::X),
        dof_index_3d(nodes[1], DisplacementComponent3D::Y),
        dof_index_3d(nodes[1], DisplacementComponent3D::Z),
        dof_index_3d(nodes[2], DisplacementComponent3D::X),
        dof_index_3d(nodes[2], DisplacementComponent3D::Y),
        dof_index_3d(nodes[2], DisplacementComponent3D::Z),
        dof_index_3d(nodes[3], DisplacementComponent3D::X),
        dof_index_3d(nodes[3], DisplacementComponent3D::Y),
        dof_index_3d(nodes[3], DisplacementComponent3D::Z),
    ];
    assert forall|i: int| 0 <= i < 12 implies #[trigger] d@[i] == nodes@[i / 3] * 3 + i % 3 by {
        if i < 3 {
        } else if i < 6 {
        } else if i < 9 {
        } else {
        }
    }
    d
}

/// A prescribed in-plane displacement.
#[derive(Debug, PartialEq)]
pub struct DisplacementConstraint {
    pub node: NodeId,
    pub component: DisplacementComponent,
    pub value: Decimal,
}

/// A prescribed displacement in space.
#[derive(Debug, PartialEq)]
pub struct DisplacementConstraint3D {
    pub node: NodeId,
    pub component: DisplacementComponent3D,
    pub value: Decimal,
}

/// Why an elasticity problem cannot be solved as given.
#[derive(Debug, PartialEq)]
pub enum ElasticityError {
    InvalidYoungModulus(Decimal),
    InvalidPoissonRatio(Decimal),
    InvalidThickness(Decimal),
    InvalidDensity(Decimal),
    InitialStateLengthMismatch { node_count: usize, initial_len: usize },
    ConstraintNodeOutOfBounds { node_id: NodeId, node_count: usize },
    ForceNodeOutOfBounds { node_id: NodeId, node_count: usize },
    DuplicateConstraint { node_id: NodeId, component: DisplacementComponent },
    DuplicateConstraint3D { node_id: NodeId, component: DisplacementComponent3D },
    UnsupportedElementKind { cell_index: usize, kind: ElementKind },
    NoActiveDegreesOfFreedom,
}

/// The initial displacement and velocity each have one entry per node.
pub fn validate_initial_state_lengths(
    node_count: usize,
    displacement_len: usize,
    velocity_len: usize,
) -> (r: Result<(), ElasticityError>)
    ensures
        r is Ok <==> (displacement_len == node_count && velocity_len == node_count),
        displacement_len != node_count ==> r == Err::<(), ElasticityError>(
            ElasticityError::InitialStateLengthMismatch { node_count, initial_len: displacement_len },
        ),
        displacement_len == node_count && velocity_len != node_count ==> r == Err::<
            (),
            ElasticityError,
        >(ElasticityError::InitialStateLengthMismatch { node_count, initial_len: velocity_len }),
{
    if displacement_len != node_count {
        return Err(
            ElasticityError::InitialStateLengthMismatch { node_count, initial_len: displacement_len },
        );
    }
    if velocity_len != node_count {
        return Err(
            ElasticityError::InitialStateLengthMismatch { node_count, initial_len: velocity_len },
        );
    }
    Ok(())
}

/// The first constraint, in order, on a node outside the mesh or on a
/// degree of freedom an earlier constraint already fixes; otherwise the
/// prescribed value of each constrained degree of freedom.
pub open spec fn constraints_outcome(node_count: usize, cs: Seq<(NodeId, DisplacementComponent, Seq<char>)>) -> Result<
    Map<usize, Seq<char>>,
    ElasticityFault,
>
    decreases cs.len(),
{
    if cs.len() == 0 {
        Ok(Map::empty())
    } else {
        match constraints_outcome(node_count, cs.drop_last()) {
            Err(e) => Err(e),
            Ok(m) => {
                let (node, comp, value) = cs.last();
                if node >= node_count {
                    Err(ElasticityFault::ConstraintNodeOutOfBounds { node_id: node, node_count })
                } else if m.contains_key(dof_2d(node, comp) as usize) {
                    Err(ElasticityFault::DuplicateConstraint { node_id: node, component: comp })
                } else {
                    Ok(m.insert(dof_2d(node, comp) as usize, value))
                }
            },
        }
    }
}

/// The errors constraint checks report.
pub enum ElasticityFault {
    ConstraintNodeOutOfBounds { node_id: NodeId, node_count: usize },
    DuplicateConstraint { node_id: NodeId, component: DisplacementComponent },
}

/// The constraints by node, component and value text.
pub open spec fn constraint_views(cs: Seq<DisplacementConstraint>) -> Seq<
    (NodeId, DisplacementComponent, Seq<char>),
> {
    cs.map_values(|c: DisplacementConstraint| (c.node, c.component, c.value@))
}

/// The error a fault is.
pub open spec fn fault_error(f: ElasticityFault) -> ElasticityError {
    match f {
        ElasticityFault::ConstraintNodeOutOfBounds { node_id, node_count } =>
            ElasticityError::ConstraintNodeOutOfBounds { node_id, node_count },
        ElasticityFault::DuplicateConstraint { node_id, component } =>
            ElasticityError::DuplicateConstraint { node_id, component },
    }
}

proof fn lemma_constraints_stop(node_count: usize, cs: Seq<(NodeId, DisplacementComponent, Seq<char>)>, n: int)
    requires
        0 <= n <= cs.len(),
    ensures
        constraints_outcome(node_count, cs.take(n)) is Err ==> constraints_outcome(node_count, cs)
            == constraints_outcome(node_count, cs.take(n)),
    decreases cs.len(),
{
    if n < cs.len() {
        assert(cs.drop_last().take(n) =~= cs.take(n));
        lemma_constraints_stop(node_count, cs.drop_last(), n);
    } else {
        assert(cs.take(n) =~= cs);
    }
}

/// Checks in-plane constraints against a mesh of `node_count` nodes; the
/// prescribed value of each constrained degree of freedom.
pub fn validate_constraints(node_count: usize, constraints: &[DisplacementConstraint]) -> (r: Result<
    BTreeMap<usize, Decimal>,
    ElasticityError,
>)
    requires
        node_count * 2 <= usize::MAX,
    ensures
        match r {
            Ok(m) => constraints_outcome(node_count, constraint_views(constraints@)) == Ok::<
                Map<usize, Seq<char>>,
                ElasticityFault,
            >(m@.map_values(|d: Decimal| d@)),
            Err(e) => constraints_outcome(node_count, constraint_views(constraints@)) matches Err(f)
                && e == fault_error(f),
        },
{
    let ghost cs = constraint_views(constraints@);
    let mut constrained: BTreeMap<usize, Decimal> = BTreeMap::new();
    let mut i: usize = 0;
    assert(cs.take(0) =~= Seq::<(NodeId, DisplacementComponent, Seq<char>)>::empty());
    assert(constrained@.map_values(|d: Decimal| d@) =~= Map::<usize, Seq<char>>::empty());
    while i < constraints.len()
        invariant
            i <= constraints@.len(),
            node_count * 2 <= usize::MAX,
            cs == constraint_views(constraints@),
            constraints_outcome(node_count, cs.take(i as int)) == Ok::<
                Map<usize, Seq<char>>,
                ElasticityFault,
            >(constrained@.map_values(|d: Decimal| d@)),
        decreases constraints@.len() - i,
    {
        let c = &constraints[i];
        assert(cs.take(i + 1).drop_last() =~= cs.take(i as int));
        assert(cs.take(i + 1).last() == (c.node, c.component, c.value@));
        proof {
            lemma_constraints_stop(node_count, cs, i + 1);
        }
        if c.node >= node_count {
            return Err(ElasticityError::ConstraintNodeOutOfBounds { node_id: c.node, node_count });
        }
        let dof = dof_index(c.node, c.component);
        let ghost before = constrained@;
        assert(before.map_values(|d: Decimal| d@).dom() =~= before.dom());
        if constrained.insert(dof, c.value.copy()).is_some() {
            return Err(ElasticityError::DuplicateConstraint { node_id: c.node, component: c.component });
        }
        assert(constrained@.map_values(|d: Decimal| d@) =~= before.map_values(|d: Decimal| d@).insert(
            dof,
            c.value@,
        ));
        i += 1;
    }
    assert(cs.take(constraints@.len() as int) =~= cs);
    Ok(constrained)
}

/// The first three-dimensional constraint, in order, on a node outside the
/// mesh or on a degree of freedom an earlier constraint already fixes;
/// otherwise the prescribed value of each constrained degree of freedom.
pub open spec fn constraints_outcome_3d(
    node_count: usize,
    cs: Seq<(NodeId, DisplacementComponent3D, Seq<char>)>,
) -> Result<Map<usize, Seq<char>>, ElasticityError>
    decreases cs.len(),
{
    if cs.len() == 0 {
        Ok(Map::empty())
    } else {
        match constraints_outcome_3d(node_count, cs.drop_last()) {
            Err(e) => Err(e),
            Ok(m) => {
                let (node, comp, value) = cs.last();
                if node >= node_count {
                    Err(ElasticityError::ConstraintNodeOutOfBounds { node_id: node, node_count })
                } else if m.contains_key(dof_3d(node, comp) as usize) {
                    Err(ElasticityError::DuplicateConstraint3D { node_id: node, component: comp })
                } else {
                    Ok(m.insert(dof_3d(node, comp) as usize, value))
                }
            },
        }
    }
}

/// Three-dimensional constraints by node, component and value text.
pub open spec fn constraint_views_3d(cs: Seq<DisplacementConstraint3D>) -> Seq<
    (NodeId, DisplacementComponent3D, Seq<char>),
> {
    cs.map_values(|c: DisplacementConstraint3D| (c.node, c.component, c.value@))
}

proof fn lemma_constraints_stop_3d(
    node_count: usize,
    cs: Seq<(NodeId, DisplacementComponent3D, Seq<char>)>,
    n: int,
)
    requires
        0 <= n <= cs.len(),
    ensures
        constraints_outcome_3d(node_count, cs.take(n)) is Err ==> constraints_outcome_3d(
            node_count,
            cs,
        ) == constraints_outcome_3d(node_count, cs.take(n)),
    decreases cs.len(),
{
    if n < cs.len() {
        assert(cs.drop_last().take(n) =~= cs.take(n));
        lemma_constraints_stop_3d(node_count, cs.drop_last(), n);
    } else {
        assert(cs.take(n) =~= cs);
    }
}

/// Checks three-dimensional constraints against a mesh of `node_count`
/// nodes; the prescribed value of each constrained degree of freedom.
pub fn validate_constraints_3d(node_count: usize, constraints: &[DisplacementConstraint3D]) -> (r:
    Result<BTreeMap<usize, Decimal>, ElasticityError>)
    requires
        node_count * 3 <= usize::MAX,
    ensures
        match r {
            Ok(m) => constraints_outcome_3d(node_count, constraint_views_3d(constraints@)) == Ok::<
                Map<usize, Seq<char>>,
                ElasticityError,
            >(m@.map_values(|d: Decimal| d@)),
            Err(e) => constraints_outcome_3d(node_count, constraint_views_3d(constraints@)) == Err::<
                Map<usize, Seq<char>>,
                ElasticityError,
            >(e),
        },
{
    let ghost cs = constraint_views_3d(constraints@);
    let mut constrained: BTreeMap<usize, Decimal> = BTreeMap::new();
    let mut i: usize = 0;
    assert(constrained@.map_values(|d: Decimal| d@) =~= Map::<usize, Seq<char>>::empty());
    while i < constraints.len()
        invariant
            i <= constraints@.len(),
            node_count * 3 <= usize::MAX,
            cs == constraint_views_3d(constraints@),
            constraints_outcome_3d(node_count, cs.take(i as int)) == Ok::<
                Map<usize, Seq<char>>,
                ElasticityError,
            >(constrained@.map_values(|d: Decimal| d@)),
        decreases constraints@.len() - i,
    {
        let c = &constraints[i];
        assert(cs.take(i + 1).drop_last() =~= cs.take(i as int));
        assert(cs.take(i + 1).last() == (c.node, c.component, c.value@));
        proof {
            lemma_constraints_stop_3d(node_count, cs, i + 1);
        }
        if c.node >= node_count {
            return Err(ElasticityError::ConstraintNodeOutOfBounds { node_id: c.node, node_count });
        }
        let dof = dof_index_3d(c.node, c.component);
        let ghost before = constrained@;
        assert(before.map_values(|d: Decimal| d@).dom() =~= before.dom());
        if constrained.insert(dof, c.value.copy()).is_some() {
            return Err(
                ElasticityError::DuplicateConstraint3D { node_id: c.node, component: c.component },
            );
        }
        assert(constrained@.map_values(|d: Decimal| d@) =~= before.map_values(|d: Decimal| d@).insert(
            dof,
            c.value@,
        ));
        i += 1;
    }
    assert(cs.take(constraints@.len() as int) =~= cs);
    Ok(constrained)
}

/// The degrees of freedom below `dof_count` without a constraint, in
/// ascending order.
pub fn active_dofs(dof_count: usize, constraints: &BTreeMap<usize, Decimal>) -> (r: Vec<usize>)
    ensures
        ascending(r@),
        forall|d: usize| r@.contains(d) <==> (d < dof_count && !constraints@.contains_key(d)),
{
    let mut r: Vec<usize> = Vec::new();
    let mut d: usize = 0;
    while d < dof_count
        invariant
            d <= dof_count,
            ascending(r@),
            forall|j: int| 0 <= j < r@.len() ==> r@[j] < d,
            forall|x: usize| r@.contains(x) <==> (x < d && !constraints@.contains_key(x)),
        decreases dof_count - d,
    {
        if !constraints.contains_key(&d) {
            let ghost before = r@;
            r.push(d);
            assert forall|x: usize| r@.contains(x) <==> (x < d + 1 && !constraints@.contains_key(x)) by {
                if r@.contains(x) && x != d {
                    let j = choose|j: int| 0 <= j < r@.len() && r@[j] == x;
                    assert(j < before.len());
                    assert(before[j] == x);
                    assert(before.contains(x));
                }
                if x < d && !constraints@.contains_key(x) {
                    assert(before.contains(x));
                    let j = choose|j: int| 0 <= j < before.len() && before[j] == x;
                    assert(r@[j] == x);
                }
                if x == d {
                    assert(r@[r@.len() - 1] == x);
                }
            }
        } else {
            assert forall|x: usize| r@.contains(x) <==> (x < d + 1 && !constraints@.contains_key(x)) by {
                if r@.contains(x) {
                    let j = choose|j: int| 0 <= j < r@.len() && r@[j] == x;
                }
            }
        }
        d += 1;
    }
    r
}

/// The position among `active` of each degree of freedom below
/// `dof_count` that occurs in it (its last position), none for the others.
pub open spec fn position_map(dof_count: nat, active: Seq<usize>) -> Seq<Option<usize>>
    decreases active.len(),
{
    if active.len() == 0 {
        Seq::new(dof_count, |i: int| None::<usize>)
    } else {
        position_map(dof_count, active.drop_last()).update(
            active.last() as int,
            Some((active.len() - 1) as usize),
        )
    }
}

/// For each degree of freedom below `dof_count`, its position among the
/// active ones, if it is one; each active one must be below `dof_count`.
pub fn active_dof_map(dof_count: usize, active_dofs: &[usize]) -> (r: Vec<Option<usize>>)
    requires
        forall|i: int| 0 <= i < active_dofs@.len() ==> #[trigger] active_dofs@[i] < dof_count,
    ensures
        r@ == position_map(dof_count as nat, active_dofs@),
{
    let mut map: Vec<Option<usize>> = Vec::new();
    let mut k: usize = 0;
    while k < dof_count
        invariant
            k <= dof_count,
            map@ == Seq::new(k as nat, |i: int| None::<usize>),
        decreases dof_count - k,
    {
        map.push(None);
        assert(map@ =~= Seq::new((k + 1) as nat, |i: int| None::<usize>));
        k += 1;
    }
    let mut i: usize = 0;
    assert(active_dofs@.take(0) =~= Seq::<usize>::empty());
    while i < active_dofs.len()
        invariant
            i <= active_dofs@.len(),
            forall|j: int| 0 <= j < active_dofs@.len() ==> #[trigger] active_dofs@[j] < dof_count,
            map@ == position_map(dof_count as nat, active_dofs@.take(i as int)),
            map@.len() == dof_count,
        decreases active_dofs@.len() - i,
    {
        assert(active_dofs@.take(i + 1).drop_last() =~= active_dofs@.take(i as int));
        let dof = active_dofs[i];
        map.set(dof, Some(i));
        i += 1;
    }
    assert(active_dofs@.take(active_dofs@.len() as int) =~= active_dofs@);
    map
}

/// A linear tetrahedron carrying the three displacements.
pub struct ElasticityTet4<'a> {
    pub nodes: &'a [NodeId; 4],
}

impl<'a> Element for ElasticityTet4<'a> {
    fn spatial_dimension(&self) -> (d: usize)
        ensures
            d == 3,
    {
        3
    }

    fn node_count(&self) -> (n: usize)
        ensures
            n == 4,
    {
        4
    }

    fn nodes(&self) -> (ns: &[NodeId])
        ensures
            ns@ == self.nodes@,
    {
        self.nodes.as_slice()
    }

    fn active_fields(&self) -> (f: Vec<String>)
        ensures
            string_views(f@) == seq!["ux"@, "uy"@, "uz"@],
    {
        solid_fields()
    }
}

/// A trilinear hexahedron carrying the three displacements.
pub struct ElasticityHex8<'a> {
    pub nodes: &'a [NodeId; 8],
}

impl<'a> Element for ElasticityHex8<'a> {
    fn spatial_dimension(&self) -> (d: usize)
        ensures
            d == 3,
    {
        3
    }

    fn node_count(&self) -> (n: usize)
        ensures
            n == 8,
    {
        8
    }

    fn nodes(&self) -> (ns: &[NodeId])
        ensures
            ns@ == self.nodes@,
    {
        self.nodes.as_slice()
    }

    fn active_fields(&self) -> (f: Vec<String>)
        ensures
            string_views(f@) == seq!["ux"@, "uy"@, "uz"@],
    {
        solid_fields()
    }
}

} // verus!
