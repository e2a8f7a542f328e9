//! Contact search: the boundary of a two-dimensional mesh, made of the
//! cell edges that belong to exactly one cell.
use vstd::prelude::*;

use std::collections::HashMap;

use crate::mesh::{Cell, ElementKind, Mesh, NodeId};

verus! {

broadcast use vstd::std_specs::hash::group_hash_axioms;

/// A boundary edge given by its two nodes, the smaller first.
#[derive(Clone, Copy, Debug, PartialEq, Eq, Hash)]
pub struct BoundarySegment {
    pub nodes: [usize; 2],
}

/// The edge between `u` and `v`, whichever way round they are given.
pub open spec fn edge_key(u: NodeId, v: NodeId) -> (NodeId, NodeId) {
    if u < v {
        (u, v)
    } else {
        (v, u)
    }
}

/// The edges of a linear triangle or quadrilateral; other cells have none.
pub open spec fn cell_edges(c: Cell) -> Seq<(NodeId, NodeId)> {
    let n = c.nodes@;
    if c.kind == ElementKind::Tri3 && n.len() >= 3 {
        seq![edge_key(n[0], n[1]), edge_key(n[1], n[2]), edge_key(n[2], n[0])]
    } else if c.kind == ElementKind::Quad4 && n.len() >= 4 {
        seq![edge_key(n[0], n[1]), edge_key(n[1], n[2]), edge_key(n[2], n[3]), edge_key(n[3], n[0])]
    } else {
        seq![]
    }
}

/// The edges of all cells, cell by cell.
pub open spec fn mesh_edges(cells: Seq<Cell>) -> Seq<(NodeId, NodeId)>
    decreases cells.len(),
{
    if cells.len() == 0 {
        seq![]
    } else {
        mesh_edges(cells.drop_last()) + cell_edges(cells.last())
    }
}

/// How many times `e` occurs in `s`.
pub open spec fn occurrences(s: Seq<(NodeId, NodeId)>, e: (NodeId, NodeId)) -> nat
    decreases s.len(),
{
    if s.len() == 0 {
        0
    } else {
        occurrences(s.drop_last(), e) + if s.last() == e {
            1nat
        } else {
            0nat
        }
    }
}

/// An edge that exactly one cell has.
pub open spec fn is_boundary_edge(cells: Seq<Cell>, e: (NodeId, NodeId)) -> bool {
    occurrences(mesh_edges(cells), e) == 1
}

/// The edge of a segment.
pub open spec fn segment_edge(s: BoundarySegment) -> (NodeId, NodeId) {
    (s.nodes@[0], s.nodes@[1])
}

proof fn lemma_occurrences_bounded(s: Seq<(NodeId, NodeId)>, e: (NodeId, NodeId))
    ensures
        occurrences(s, e) <= s.len(),
    decreases s.len(),
{
    if s.len() > 0 {
        lemma_occurrences_bounded(s.drop_last(), e);
    }
}

proof fn lemma_occurrences_found(s: Seq<(NodeId, NodeId)>, j: int)
    requires
        0 <= j < s.len(),
    ensures
        occurrences(s, s[j]) >= 1,
    decreases s.len(),
{
    if j < s.len() - 1 {
        lemma_occurrences_found(s.drop_last(), j);
    }
}

proof fn lemma_occurrences_twice(s: Seq<(NodeId, NodeId)>, j: int, k: int)
    requires
        0 <= j < k < s.len(),
        s[j] == s[k],
    ensures
        occurrences(s, s[k]) >= 2,
    decreases s.len(),
{
    if k < s.len() - 1 {
        lemma_occurrences_twice(s.drop_last(), j, k);
    } else {
        lemma_occurrences_found(s.drop_last(), j);
    }
}

proof fn lemma_occurrences_absent(s: Seq<(NodeId, NodeId)>, e: (NodeId, NodeId))
    requires
        occurrences(s, e) >= 1,
    ensures
        exists|j: int| 0 <= j < s.len() && s[j] == e,
    decreases s.len(),
{
    if s.last() != e {
        lemma_occurrences_absent(s.drop_last(), e);
        let j = choose|j: int| 0 <= j < s.drop_last().len() && s.drop_last()[j] == e;
        assert(s[j] == e);
    } else {
        assert(s[s.len() - 1] == e);
    }
}

/// An injective code of an edge, usable as a hash key.
spec fn edge_code(e: (NodeId, NodeId)) -> u128 {
    (e.0 as int * 0x1_0000_0000_0000_0000 + e.1 as int) as u128
}

proof fn lemma_edge_code_injective(a: (NodeId, NodeId), b: (NodeId, NodeId))
    ensures
        edge_code(a) == edge_code(b) ==> a == b,
{
    assert(a.0 <= usize::MAX && a.1 <= usize::MAX && b.0 <= usize::MAX && b.1 <= usize::MAX);
    assert(usize::MAX < 0x1_0000_0000_0000_0000);
    if a.0 as int * 0x1_0000_0000_0000_0000 + a.1 as int == b.0 as int * 0x1_0000_0000_0000_0000
        + b.1 as int {
        if a.0 < b.0 {
            assert(a.0 as int * 0x1_0000_0000_0000_0000 + 0x1_0000_0000_0000_0000 <= b.0 as int
                * 0x1_0000_0000_0000_0000);
        } else if b.0 < a.0 {
            assert(b.0 as int * 0x1_0000_0000_0000_0000 + 0x1_0000_0000_0000_0000 <= a.0 as int
                * 0x1_0000_0000_0000_0000);
        }
    }
}

fn code_of(e: (NodeId, NodeId)) -> (c: u128)
    ensures
        c == edge_code(e),
{
    (e.0 as u128) * 0x1_0000_0000_0000_0000 + (e.1 as u128)
}

fn key_of(u: NodeId, v: NodeId) -> (r: (NodeId, NodeId))
    ensures
        r == edge_key(u, v),
{
    if u < v {
        (u, v)
    } else {
        (v, u)
    }
}

fn edges_of_cell(c: &Cell) -> (r: Vec<(NodeId, NodeId)>)
    ensures
        r@ == cell_edges(*c),
{
    let n = &c.nodes;
    if c.kind == ElementKind::Tri3 && n.len() >= 3 {
        let r = vec![key_of(n[0], n[1]), key_of(n[1], n[2]), key_of(n[2], n[0])];
        assert(r@ =~= cell_edges(*c));
        r
    } else if c.kind == ElementKind::Quad4 && n.len() >= 4 {
        let r = vec![key_of(n[0], n[1]), key_of(n[1], n[2]), key_of(n[2], n[3]), key_of(n[3], n[0])];
        assert(r@ =~= cell_edges(*c));
        r
    } else {
        let r: Vec<(NodeId, NodeId)> = Vec::new();
        assert(r@ =~= cell_edges(*c));
        r
    }
}

fn all_edges(cells: &Vec<Cell>) -> (r: Vec<(NodeId, NodeId)>)
    ensures
        r@ == mesh_edges(cells@),
{
    let mut r: Vec<(NodeId, NodeId)> = Vec::new();
    let mut i: usize = 0;
    assert(cells@.take(0) =~= Seq::<Cell>::empty());
    while i < cells.len()
        invariant
            i <= cells@.len(),
            r@ == mesh_edges(cells@.take(i as int)),
        decreases cells@.len() - i,
    {
        let es = edges_of_cell(&cells[i]);
        assert(cells@.take(i + 1).drop_last() =~= cells@.take(i as int));
        assert(cells@.take(i + 1).last() == cells@[i as int]);
        let ghost before = r@;
        let mut k: usize = 0;
        while k < es.len()
            invariant
                k <= es@.len(),
                r@ == before + es@.take(k as int),
            decreases es@.len() - k,
        {
            r.push(es[k]);
            assert(before + es@.take(k + 1) =~= (before + es@.take(k as int)).push(es@[k as int]));
            k += 1;
        }
        assert(es@.take(es@.len() as int) =~= es@);
        i += 1;
    }
    assert(cells@.take(cells@.len() as int) =~= cells@);
    r
}

/// How often an edge has been seen, as the table records it.
spec fn recorded(m: Map<u128, usize>, e: (NodeId, NodeId)) -> nat {
    if m.contains_key(edge_code(e)) {
        m[edge_code(e)] as nat
    } else {
        0
    }
}

/// The boundary segments of a mesh: the edges of its linear triangles and
/// quadrilaterals that exactly one cell has, each once, smaller node first.
pub fn extract_boundary_segments(mesh: &Mesh) -> (r: Vec<BoundarySegment>)
    ensures
        r@.map_values(|s: BoundarySegment| segment_edge(s)).no_duplicates(),
        forall|i: int|
            0 <= i < r@.len() ==> is_boundary_edge(mesh.spec_cells(), segment_edge(#[trigger] r@[i])),
        forall|e: (NodeId, NodeId)|
            is_boundary_edge(mesh.spec_cells(), e) ==> exists|i: int|
                0 <= i < r@.len() && segment_edge(#[trigger] r@[i]) == e,
{
    let edges = all_edges(mesh.cells());
    let ghost all = edges@;
    let mut counts: HashMap<u128, usize> = HashMap::new();
    let mut i: usize = 0;
    assert(edges@.take(0) =~= Seq::<(NodeId, NodeId)>::empty());
    while i < edges.len()
        invariant
            i <= edges@.len(),
            forall|e: (NodeId, NodeId)| #[trigger]
                recorded(counts@, e) == occurrences(edges@.take(i as int), e),
        decreases edges@.len() - i,
    {
        let e = edges[i];
        let code = code_of(e);
        let seen: usize = match counts.get(&code) {
            Some(c) => *c,
            None => 0,
        };
        assert(seen == recorded(counts@, e));
        assert(edges@.take(i + 1).drop_last() =~= edges@.take(i as int));
        proof {
            lemma_occurrences_bounded(edges@.take(i as int), e);
        }
        let ghost before = counts@;
        counts.insert(code, seen + 1);
        assert forall|f: (NodeId, NodeId)| #[trigger]
            recorded(counts@, f) == occurrences(edges@.take(i + 1), f) by {
            lemma_edge_code_injective(e, f);
            assert(recorded(before, f) == occurrences(edges@.take(i as int), f));
        }
        i += 1;
    }
    assert(edges@.take(edges@.len() as int) =~= edges@);
    let mut r: Vec<BoundarySegment> = Vec::new();
    let mut j: usize = 0;
    while j < edges.len()
        invariant
            j <= edges@.len(),
            all == edges@,
            forall|e: (NodeId, NodeId)| #[trigger] recorded(counts@, e) == occurrences(all, e),
            r@.map_values(|s: BoundarySegment| segment_edge(s)).no_duplicates(),
            forall|k: int|
                0 <= k < r@.len() ==> occurrences(all, segment_edge(#[trigger] r@[k])) == 1
                    && exists|p: int| 0 <= p < j && all[p] == segment_edge(r@[k]),
            forall|p: int|
                0 <= p < j && occurrences(all, #[trigger] all[p]) == 1 ==> exists|k: int|
                    0 <= k < r@.len() && segment_edge(r@[k]) == all[p],
        decreases edges@.len() - j,
    {
        let e = edges[j];
        let code = code_of(e);
        let once = match counts.get(&code) {
            Some(c) => *c == 1,
            None => false,
        };
        assert(once == (occurrences(all, e) == 1)) by {
            assert(recorded(counts@, e) == occurrences(all, e));
        }
        if once {
            let ghost before = r@;
            let seg = BoundarySegment { nodes: [e.0, e.1] };
            assert(segment_edge(seg) == e);
            r.push(seg);
            let ghost after = r@.map_values(|s: BoundarySegment| segment_edge(s));
            let ghost prev = before.map_values(|s: BoundarySegment| segment_edge(s));
            assert(after =~= prev.push(e));
            assert forall|a: int, b: int|
                0 <= a < after.len() && 0 <= b < after.len() && a != b implies #[trigger] after[a]
                != #[trigger] after[b] by {
                if b == after.len() - 1 || a == after.len() - 1 {
                    let o = if b == after.len() - 1 {
                        a
                    } else {
                        b
                    };
                    assert(after[o] == prev[o]);
                    assert(prev[o] == segment_edge(before[o]));
                    let p = choose|p: int| 0 <= p < j && all[p] == segment_edge(before[o]);
                    if segment_edge(before[o]) == e {
                        lemma_occurrences_twice(all, p, j as int);
                    }
                } else {
                    assert(after[a] == prev[a] && after[b] == prev[b]);
                }
            }
            assert forall|k: int|
                0 <= k < r@.len() implies occurrences(all, segment_edge(#[trigger] r@[k])) == 1
                && exists|p: int| 0 <= p < j + 1 && all[p] == segment_edge(r@[k]) by {
                if k < before.len() {
                    assert(r@[k] == before[k]);
                } else {
                    assert(all[j as int] == segment_edge(r@[k]));
                }
            }
            assert forall|p: int|
                0 <= p < j + 1 && occurrences(all, #[trigger] all[p]) == 1 implies exists|k: int|
                0 <= k < r@.len() && segment_edge(r@[k]) == all[p] by {
                if p < j {
                    let k = choose|k: int| 0 <= k < before.len() && segment_edge(before[k]) == all[p];
                    assert(r@[k] == before[k]);
                } else {
                    assert(segment_edge(r@[r@.len() - 1]) == all[p]);
                }
            }
        }
        j += 1;
    }
    assert forall|e: (NodeId, NodeId)| is_boundary_edge(mesh.spec_cells(), e) implies exists|i: int|
        0 <= i < r@.len() && segment_edge(#[trigger] r@[i]) == e by {
        lemma_occurrences_absent(all, e);
        let p = choose|p: int| 0 <= p < all.len() && all[p] == e;
        assert(occurrences(all, all[p]) == 1);
    }
    r
}

} // verus!
