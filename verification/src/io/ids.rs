//! Ids kept in a `BTreeMap`: the ascending order in which it hands them out,
//! and whether they run without gaps from zero.
use std::collections::BTreeMap;
use vstd::prelude::*;
use vstd::std_specs::cmp::OrdSpec;
use vstd::std_specs::iter::IteratorSpec;

verus! {

broadcast use {vstd::std_specs::btree::group_btree_axioms, vstd::laws_cmp::group_laws_cmp};

/// Strictly increasing.
pub open spec fn ascending(ks: Seq<usize>) -> bool {
    forall|i: int, j: int| 0 <= i < j < ks.len() ==> ks[i] < ks[j]
}

/// The elements of a finite set of ids in ascending order.
pub open spec fn ascending_ids(d: Set<usize>) -> Seq<usize> {
    choose|ks: Seq<usize>| ascending(ks) && ks.to_set() == d
}

/// The first position whose id differs from the position, with that id.
pub open spec fn first_gap(ks: Seq<usize>) -> Option<(usize, usize)>
    decreases ks.len(),
{
    if ks.len() == 0 {
        None
    } else {
        match first_gap(ks.drop_last()) {
            Some(g) => Some(g),
            None => if ks.last() != ks.len() - 1 {
                Some(((ks.len() - 1) as usize, ks.last()))
            } else {
                None
            },
        }
    }
}

proof fn lemma_ascending_keys(ks: Seq<&usize>)
    requires
        vstd::std_specs::btree::increasing_seq(ks),
    ensures
        forall|i: int, j: int| 0 <= i < j < ks.len() ==> *ks[i] < *ks[j],
{
    assert(vstd::laws_cmp::obeys_cmp::<usize>());
    assert(vstd::laws_cmp::obeys_cmp::<&usize>());
    vstd::std_specs::btree::axiom_increasing_seq_meaning(ks);
    assert forall|i: int, j: int| 0 <= i < j < ks.len() implies *ks[i] < *ks[j] by {
        assert(OrdSpec::cmp_spec(&ks[i], &ks[j]) is Less);
    }
}

proof fn lemma_ascending_first(ks: Seq<usize>)
    requires
        ascending(ks),
        ks.len() > 0,
    ensures
        ks.drop_first().to_set() == ks.to_set().remove(ks[0]),
        forall|x: usize| ks.to_set().contains(x) ==> ks[0] <= x,
{
    assert forall|x: usize| ks.drop_first().to_set().contains(x) <==> ks.to_set().remove(
        ks[0],
    ).contains(x) by {
        if ks.drop_first().to_set().contains(x) {
            let i = choose|i: int| 0 <= i < ks.drop_first().len() && ks.drop_first()[i] == x;
            assert(ks[i + 1] == x);
        }
        if ks.to_set().remove(ks[0]).contains(x) {
            let i = choose|i: int| 0 <= i < ks.len() && ks[i] == x;
            assert(i != 0);
            assert(ks.drop_first()[i - 1] == x);
        }
    }
    assert(ks.drop_first().to_set() =~= ks.to_set().remove(ks[0]));
    assert forall|x: usize| ks.to_set().contains(x) implies ks[0] <= x by {
        let i = choose|i: int| 0 <= i < ks.len() && ks[i] == x;
    }
}

/// Two ascending listings of the same set are the same.
proof fn lemma_ascending_unique(a: Seq<usize>, b: Seq<usize>)
    requires
        ascending(a),
        ascending(b),
        a.to_set() == b.to_set(),
    ensures
        a == b,
    decreases a.len(),
{
    if a.len() == 0 {
        if b.len() > 0 {
            assert(b.to_set().contains(b[0]));
        }
        assert(a =~= b);
    } else {
        assert(a.to_set().contains(a[0]));
        assert(b.len() > 0);
        lemma_ascending_first(a);
        lemma_ascending_first(b);
        assert(b.to_set().contains(b[0]));
        assert(a[0] == b[0]);
        assert(ascending(a.drop_first()));
        assert(ascending(b.drop_first()));
        lemma_ascending_unique(a.drop_first(), b.drop_first());
        assert(a =~= seq![a[0]] + a.drop_first());
        assert(b =~= seq![b[0]] + b.drop_first());
    }
}

/// An ascending listing of a set is the one `ascending_ids` names.
pub proof fn lemma_ascending_ids(ks: Seq<usize>)
    requires
        ascending(ks),
    ensures
        ascending_ids(ks.to_set()) == ks,
{
    let d = ks.to_set();
    assert(ascending(ks) && ks.to_set() == d);
    let c = ascending_ids(d);
    lemma_ascending_unique(c, ks);
}

/// The keys of a map in ascending order.
pub fn sorted_keys<V>(m: &BTreeMap<usize, V>) -> (r: Vec<usize>)
    ensures
        r@ == ascending_ids(m@.dom()),
        r@.to_set() == m@.dom(),
        r@.len() == m@.dom().len(),
        ascending(r@),
{
    let mut r: Vec<usize> = Vec::new();
    for k in it: m.keys()
        invariant
            it.seq() == vstd::std_specs::btree::spec_keys_iter(m).remaining(),
            r@ == it.seq().take(it.index()).map_values(|x: &usize| *x),
    {
        assert(it.seq().take(it.index() + 1).map_values(|x: &usize| *x) =~= r@.push(*k));
        r.push(*k);
    }
    let ghost ks = vstd::std_specs::btree::spec_keys_iter(m).remaining();
    proof {
        assert(r@ =~= ks.map_values(|x: &usize| *x));
        assert(ks.unref() =~= ks.map_values(|x: &usize| *x));
        lemma_ascending_keys(ks);
        lemma_ascending_ids(r@);
    }
    r
}

/// The first gap in ascending ids, found by walking them in order.
pub fn find_gap(ks: &Vec<usize>) -> (r: Option<(usize, usize)>)
    ensures
        r == first_gap(ks@),
{
    let mut i: usize = 0;
    while i < ks.len()
        invariant
            i <= ks@.len(),
            first_gap(ks@.take(i as int)) is None,
        decreases ks@.len() - i,
    {
        assert(ks@.take(i + 1).drop_last() =~= ks@.take(i as int));
        if ks[i] != i {
            proof {
                lemma_first_gap_prefix(ks@, i + 1);
            }
            return Some((i, ks[i]));
        }
        i += 1;
    }
    assert(ks@.take(ks@.len() as int) =~= ks@);
    None
}

/// Without a gap, each position holds its own id.
pub proof fn lemma_no_gap(ks: Seq<usize>)
    requires
        first_gap(ks) is None,
    ensures
        forall|i: int| 0 <= i < ks.len() ==> ks[i] == i,
    decreases ks.len(),
{
    if ks.len() > 0 {
        lemma_no_gap(ks.drop_last());
        assert forall|i: int| 0 <= i < ks.len() implies ks[i] == i by {
            if i < ks.len() - 1 {
                assert(ks[i] == ks.drop_last()[i]);
            }
        }
    }
}

/// A gap in a prefix is the first gap of the whole.
proof fn lemma_first_gap_prefix(ks: Seq<usize>, n: int)
    requires
        0 <= n <= ks.len(),
        first_gap(ks.take(n)) is Some,
    ensures
        first_gap(ks) == first_gap(ks.take(n)),
    decreases ks.len(),
{
    if n < ks.len() {
        assert(ks.drop_last().take(n) =~= ks.take(n));
        lemma_first_gap_prefix(ks.drop_last(), n);
    } else {
        assert(ks.take(n) =~= ks);
    }
}

} // verus!
