//! Craig-Bampton reduction bookkeeping: which degrees of freedom stay on
//! the boundary, which are internal, and the order that puts the boundary
//! first.
use std::collections::BTreeMap;
use vstd::prelude::*;

use crate::io::ids::{ascending, sorted_keys};

verus! {

broadcast use {vstd::std_specs::btree::group_btree_axioms, vstd::laws_cmp::group_laws_cmp};

/// The boundary degrees of freedom, each once and in ascending order, and
/// the internal ones: the others below the system size, in ascending order.
#[derive(Debug, PartialEq)]
pub struct DofPartition {
    pub boundary_dofs: Vec<usize>,
    pub internal_dofs: Vec<usize>,
}

/// Splits the degrees of freedom `0..n` of a system into the given boundary
/// ones (sorted, repeats dropped) and the internal rest.
pub fn partition_dofs(n: usize, boundary_dofs: &[usize]) -> (p: DofPartition)
    ensures
        ascending(p.boundary_dofs@),
        p.boundary_dofs@.to_set() == boundary_dofs@.to_set(),
        ascending(p.internal_dofs@),
        forall|d: usize|
            #![trigger p.internal_dofs@.contains(d)]
            p.internal_dofs@.contains(d) <==> (d < n && !boundary_dofs@.contains(d)),
{
    let mut marks: BTreeMap<usize, ()> = BTreeMap::new();
    let mut k: usize = 0;
    while k < boundary_dofs.len()
        invariant
            k <= boundary_dofs@.len(),
            forall|d: usize|
                #![trigger marks@.contains_key(d)]
                marks@.contains_key(d) <==> exists|j: int| 0 <= j < k && boundary_dofs@[j] == d,
        decreases boundary_dofs@.len() - k,
    {
        marks.insert(boundary_dofs[k], ());
        assert forall|d: usize| #![trigger marks@.contains_key(d)] marks@.contains_key(d) <==> exists|j: int|
            0 <= j < k + 1 && boundary_dofs@[j] == d by {
            if d == boundary_dofs@[k as int] {
                assert(0 <= k < k + 1 && boundary_dofs@[k as int] == d);
            }
            if exists|j: int| 0 <= j < k + 1 && boundary_dofs@[j] == d {
                let j = choose|j: int| 0 <= j < k + 1 && boundary_dofs@[j] == d;
                if j < k {
                    assert(exists|i: int| 0 <= i < k && boundary_dofs@[i] == d);
                }
            }
        }
        k += 1;
    }
    assert forall|d: usize| #![trigger marks@.contains_key(d)] marks@.contains_key(d) <==> boundary_dofs@.contains(d) by {
        if boundary_dofs@.contains(d) {
            let j = choose|j: int| 0 <= j < boundary_dofs@.len() && boundary_dofs@[j] == d;
            assert(exists|i: int| 0 <= i < k && boundary_dofs@[i] == d);
        }
    }
    let boundary = sorted_keys(&marks);
    assert(boundary@.to_set() =~= boundary_dofs@.to_set()) by {
        assert forall|d: usize| boundary@.to_set().contains(d) <==> boundary_dofs@.to_set().contains(d) by {
            assert(marks@.dom().contains(d) <==> marks@.contains_key(d));
        }
    }
    let mut internal: Vec<usize> = Vec::new();
    let mut d: usize = 0;
    while d < n
        invariant
            d <= n,
            ascending(internal@),
            forall|j: int| 0 <= j < internal@.len() ==> internal@[j] < d,
            forall|x: usize| marks@.contains_key(x) <==> boundary_dofs@.contains(x),
            forall|x: usize|
                #![trigger internal@.contains(x)]
                internal@.contains(x) <==> (x < d && !boundary_dofs@.contains(x)),
        decreases n - d,
    {
        if !marks.contains_key(&d) {
            let ghost before = internal@;
            internal.push(d);
            assert forall|x: usize| #![trigger internal@.contains(x)] internal@.contains(x) <==> (x
                < d + 1 && !boundary_dofs@.contains(x)) by {
                if x == d {
                    assert(internal@[before.len() as int] == d);
                }
                if internal@.contains(x) && x != d {
                    let j = choose|j: int| 0 <= j < internal@.len() && internal@[j] == x;
                    assert(j < before.len());
                    assert(before.contains(x));
                }
                if before.contains(x) {
                    let j = choose|j: int| 0 <= j < before.len() && before[j] == x;
                    assert(internal@[j] == x);
                }
            }
        } else {
            assert forall|x: usize| #![trigger internal@.contains(x)] internal@.contains(x) <==> (x
                < d + 1 && !boundary_dofs@.contains(x)) by {}
        }
        d += 1;
    }
    DofPartition { boundary_dofs: boundary, internal_dofs: internal }
}

/// The degree of freedom at position `j` of the order that lists the
/// boundary ones first, then the internal ones.
pub open spec fn partitioned_dof(p: DofPartition, j: int) -> usize {
    if j < p.boundary_dofs@.len() {
        p.boundary_dofs@[j]
    } else {
        p.internal_dofs@[j - p.boundary_dofs@.len()]
    }
}

/// The boundary and internal degrees of freedom split `0..n`: they are
/// sorted, none is in both, and each below `n` is in one of them.
pub open spec fn splits(p: DofPartition, n: usize) -> bool {
    &&& ascending(p.boundary_dofs@)
    &&& ascending(p.internal_dofs@)
    &&& forall|x: usize| #![trigger p.boundary_dofs@.contains(x)] #![trigger p.internal_dofs@.contains(x)]
        (x < n) <==> (p.boundary_dofs@.contains(x) || p.internal_dofs@.contains(x))
    &&& forall|x: usize|
        #![trigger p.boundary_dofs@.contains(x), p.internal_dofs@.contains(x)]
        !(p.boundary_dofs@.contains(x) && p.internal_dofs@.contains(x))
}

/// The position of each degree of freedom `0..n` in the order that lists the
/// boundary ones first, then the internal ones.
pub fn partition_order(n: usize, p: &DofPartition) -> (order: Vec<usize>)
    requires
        splits(*p, n),
        p.boundary_dofs@.len() + p.internal_dofs@.len() <= usize::MAX,
    ensures
        order@.len() == n,
        forall|j: int|
            0 <= j < p.boundary_dofs@.len() + p.internal_dofs@.len() ==> order@[partitioned_dof(
                *p,
                j,
            ) as int] == j,
{
    let nb = p.boundary_dofs.len();
    let mut order: Vec<usize> = Vec::new();
    let mut x: usize = 0;
    while x < n
        invariant
            x <= n,
            order@.len() == x,
        decreases n - x,
    {
        order.push(0);
        x += 1;
    }
    let mut k: usize = 0;
    while k < nb
        invariant
            k <= nb,
            nb == p.boundary_dofs@.len(),
            splits(*p, n),
            order@.len() == n,
            forall|j: int| 0 <= j < k ==> order@[p.boundary_dofs@[j] as int] == j,
        decreases nb - k,
    {
        let b = p.boundary_dofs[k];
        assert(p.boundary_dofs@.contains(b));
        assert forall|j: int| 0 <= j < k implies p.boundary_dofs@[j] != b && p.boundary_dofs@[j] < n by {
            assert(p.boundary_dofs@[j] < p.boundary_dofs@[k as int]);
            assert(p.boundary_dofs@.contains(p.boundary_dofs@[j]));
        }
        let ghost before = order@;
        order.set(b, k);
        assert forall|j: int| 0 <= j < k implies order@[p.boundary_dofs@[j] as int] == j by {
            assert(order@[p.boundary_dofs@[j] as int] == before[p.boundary_dofs@[j] as int]);
        }
        k += 1;
    }
    let ni = p.internal_dofs.len();
    let mut k: usize = 0;
    while k < ni
        invariant
            k <= ni,
            nb == p.boundary_dofs@.len(),
            ni == p.internal_dofs@.len(),
            splits(*p, n),
            order@.len() == n,
            nb + ni <= usize::MAX,
            forall|j: int| 0 <= j < nb ==> order@[p.boundary_dofs@[j] as int] == j,
            forall|j: int| 0 <= j < k ==> order@[p.internal_dofs@[j] as int] == nb + j,
        decreases ni - k,
    {
        let i = p.internal_dofs[k];
        assert(p.internal_dofs@.contains(i));
        assert forall|j: int| 0 <= j < nb implies p.boundary_dofs@[j] != i && p.boundary_dofs@[j] < n by {
            assert(p.boundary_dofs@.contains(p.boundary_dofs@[j]));
        }
        assert forall|j: int| 0 <= j < k implies p.internal_dofs@[j] != i by {
            assert(p.internal_dofs@[j] < p.internal_dofs@[k as int]);
        }
        let ghost before = order@;
        order.set(i, nb + k);
        assert forall|j: int| 0 <= j < nb implies order@[p.boundary_dofs@[j] as int] == j by {
            assert(order@[p.boundary_dofs@[j] as int] == before[p.boundary_dofs@[j] as int]);
        }
        k += 1;
    }
    order
}

/// The order lists each degree of freedom once: position `order[x]` holds
/// `x`, and position `j` holds the degree of freedom whose place is `j`.
pub proof fn lemma_partition_order_is_bijection(n: usize, p: DofPartition, order: Seq<usize>)
    requires
        splits(p, n),
        order.len() == n,
        forall|j: int|
            0 <= j < p.boundary_dofs@.len() + p.internal_dofs@.len() ==> order[partitioned_dof(
                p,
                j,
            ) as int] == j,
    ensures
        forall|x: usize|
            x < n ==> order[x as int] < p.boundary_dofs@.len() + p.internal_dofs@.len()
                && partitioned_dof(p, order[x as int] as int) == x,
        forall|j: int|
            0 <= j < p.boundary_dofs@.len() + p.internal_dofs@.len() ==> partitioned_dof(p, j) < n,
{
    let nb = p.boundary_dofs@.len();
    assert forall|x: usize| x < n implies order[x as int] < nb + p.internal_dofs@.len()
        && partitioned_dof(p, order[x as int] as int) == x by {
        if p.boundary_dofs@.contains(x) {
            let k = choose|k: int| 0 <= k < nb && p.boundary_dofs@[k] == x;
            assert(partitioned_dof(p, k) == x);
        } else {
            assert(p.internal_dofs@.contains(x));
            let k = choose|k: int| 0 <= k < p.internal_dofs@.len() && p.internal_dofs@[k] == x;
            assert(partitioned_dof(p, nb + k) == x);
        }
    }
    assert forall|j: int| 0 <= j < nb + p.internal_dofs@.len() implies partitioned_dof(p, j) < n by {
        if j < nb {
            assert(p.boundary_dofs@.contains(p.boundary_dofs@[j]));
        } else {
            assert(p.internal_dofs@.contains(p.internal_dofs@[j - nb]));
        }
    }
}

} // verus!
