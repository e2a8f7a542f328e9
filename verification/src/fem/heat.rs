//! Heat conduction bookkeeping: the numbering of the nodes whose
//! temperature is unknown.
use vstd::prelude::*;

use crate::fem::elasticity::position_map;
use crate::mesh::NodeId;

verus! {

/// For each node below `node_count`, its position among the active nodes,
/// if it is one; each active node must be below `node_count`.
pub fn active_node_map(node_count: usize, active_nodes: &[NodeId]) -> (r: Vec<Option<usize>>)
    requires
        forall|i: int| 0 <= i < active_nodes@.len() ==> #[trigger] active_nodes@[i] < node_count,
    ensures
        r@ == position_map(node_count as nat, active_nodes@),
{
    let mut map: Vec<Option<usize>> = Vec::new();
    let mut k: usize = 0;
    while k < node_count
        invariant
            k <= node_count,
            map@ == Seq::new(k as nat, |i: int| None::<usize>),
        decreases node_count - k,
    {
        map.push(None);
        assert(map@ =~= Seq::new((k + 1) as nat, |i: int| None::<usize>));
        k += 1;
    }
    let mut i: usize = 0;
    assert(active_nodes@.take(0) =~= Seq::<usize>::empty());
    while i < active_nodes.len()
        invariant
            i <= active_nodes@.len(),
            forall|j: int| 0 <= j < active_nodes@.len() ==> #[trigger] active_nodes@[j] < node_count,
            map@ == position_map(node_count as nat, active_nodes@.take(i as int)),
            map@.len() == node_count,
        decreases active_nodes@.len() - i,
    {
        assert(active_nodes@.take(i + 1).drop_last() =~= active_nodes@.take(i as int));
        let node = active_nodes[i];
        map.set(node, Some(i));
        i += 1;
    }
    assert(active_nodes@.take(active_nodes@.len() as int) =~= active_nodes@);
    map
}

} // verus!
