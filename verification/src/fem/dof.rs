//! Numbering of degrees of freedom: each (node, field) pair gets the next
//! free global equation index the first time it is registered.
use vstd::prelude::*;

use crate::mesh::NodeId;
use crate::text::{chars_of, same_chars};

verus! {

/// A degree of freedom: a node and the name of a field at it.
pub type DofKey = (NodeId, Seq<char>);

/// The index at which `k` stands in `keys`, if it stands there.
pub open spec fn position(keys: Seq<DofKey>, k: DofKey) -> Option<int> {
    if keys.contains(k) {
        Some(choose|i: int| 0 <= i < keys.len() && keys[i] == k)
    } else {
        None
    }
}

/// The equation index of `k` among `keys`, if `k` is registered there.
pub open spec fn index_of_dof(keys: Seq<DofKey>, k: DofKey) -> Option<usize> {
    match position(keys, k) {
        Some(i) => Some(i as usize),
        None => None,
    }
}

/// In a list without repetitions, the key at index `i` is found at `i` and
/// nowhere else: equation indices identify degrees of freedom.
pub proof fn law_index_identifies_dof(keys: Seq<DofKey>, i: int)
    requires
        keys.no_duplicates(),
        0 <= i < keys.len(),
    ensures
        position(keys, keys[i]) == Some(i),
{
    assert(keys.contains(keys[i]));
    let j = choose|j: int| 0 <= j < keys.len() && keys[j] == keys[i];
    assert(j == i);
}

/// In a list without repetitions, registering a new key leaves the index of
/// every other key as it was: an index, once given, stays.
pub proof fn law_registration_keeps_indices(keys: Seq<DofKey>, k: DofKey, other: DofKey)
    requires
        keys.no_duplicates(),
        !keys.contains(k),
        other != k,
    ensures
        position(keys.push(k), other) == position(keys, other),
{
    let grown = keys.push(k);
    if keys.contains(other) {
        let i = choose|i: int| 0 <= i < keys.len() && keys[i] == other;
        assert(grown[i] == other);
        law_index_identifies_dof(keys, i);
        assert(grown.no_duplicates()) by {
            assert forall|a: int, b: int| 0 <= a < grown.len() && 0 <= b < grown.len() && a != b implies grown[a] != grown[b] by {
                if b == keys.len() {
                    assert(keys.contains(keys[a]));
                } else if a == keys.len() {
                    assert(keys.contains(keys[b]));
                }
            }
        }
        law_index_identifies_dof(grown, i);
    } else {
        assert(!grown.contains(other)) by {
            if grown.contains(other) {
                let j = choose|j: int| 0 <= j < grown.len() && grown[j] == other;
                assert(j < keys.len());
                assert(keys[j] == other);
            }
        }
    }
}

/// In a list without repetitions the equation indices are dense: the keys
/// get exactly the indices `0..len`, each a different one, and there are as
/// many indices as distinct keys.
pub proof fn law_indices_are_dense(keys: Seq<DofKey>)
    requires
        keys.no_duplicates(),
    ensures
        forall|k: DofKey|
            #[trigger] keys.contains(k) ==> (position(keys, k) matches Some(i) && 0 <= i < keys.len()),
        forall|i: int| 0 <= i < keys.len() ==> position(keys, #[trigger] keys[i]) == Some(i),
        forall|a: DofKey, b: DofKey|
            #![trigger position(keys, a), position(keys, b)]
            keys.contains(a) && keys.contains(b) && position(keys, a) == position(keys, b) ==> a
                == b,
        keys.to_set().len() == keys.len(),
{
    assert forall|i: int| 0 <= i < keys.len() implies position(keys, #[trigger] keys[i]) == Some(i) by {
        law_index_identifies_dof(keys, i);
    }
    assert forall|a: DofKey, b: DofKey|
        #![trigger position(keys, a), position(keys, b)]
        keys.contains(a) && keys.contains(b) && position(keys, a) == position(keys, b) implies a
            == b by {
        let i = choose|i: int| 0 <= i < keys.len() && keys[i] == a;
        let j = choose|j: int| 0 <= j < keys.len() && keys[j] == b;
        law_index_identifies_dof(keys, i);
        law_index_identifies_dof(keys, j);
    }
    keys.unique_seq_to_set();
}

/// The keys after registering `k`: unchanged when it is there, with `k`
/// appended when it is new.
pub open spec fn registered(keys: Seq<DofKey>, k: DofKey) -> Seq<DofKey> {
    if keys.contains(k) {
        keys
    } else {
        keys.push(k)
    }
}

/// The keys after registering each of `ks` in order.
pub open spec fn registered_all(keys: Seq<DofKey>, ks: Seq<DofKey>) -> Seq<DofKey>
    decreases ks.len(),
{
    if ks.len() == 0 {
        keys
    } else {
        registered(registered_all(keys, ks.drop_last()), ks.last())
    }
}

/// The members of a sequence are those of its front and its last element.
proof fn lemma_to_set_drop_last(ks: Seq<DofKey>)
    requires
        ks.len() > 0,
    ensures
        ks.to_set() == ks.drop_last().to_set().insert(ks.last()),
{
    assert forall|x: DofKey| ks.to_set().contains(x) <==> ks.drop_last().to_set().insert(
        ks.last(),
    ).contains(x) by {
        if ks.contains(x) && x != ks.last() {
            let j = choose|j: int| 0 <= j < ks.len() && ks[j] == x;
            assert(ks.drop_last()[j] == x);
        }
        if ks.drop_last().contains(x) {
            let j = choose|j: int| 0 <= j < ks.drop_last().len() && ks.drop_last()[j] == x;
            assert(ks[j] == x);
        }
        if x == ks.last() {
            assert(ks[ks.len() - 1] == x);
        }
    }
    assert(ks.to_set() =~= ks.drop_last().to_set().insert(ks.last()));
}

/// Over any sequence of registrations: no key is numbered twice, the keys
/// registered are those there before and those passed, and every index
/// once given stays the index of its key.
pub proof fn law_registrations_keep_indices(keys: Seq<DofKey>, ks: Seq<DofKey>)
    requires
        keys.no_duplicates(),
    ensures
        registered_all(keys, ks).no_duplicates(),
        registered_all(keys, ks).to_set() == keys.to_set() + ks.to_set(),
        forall|k: DofKey| #[trigger]
            keys.contains(k) ==> position(registered_all(keys, ks), k) == position(keys, k),
    decreases ks.len(),
{
    if ks.len() == 0 {
        assert(ks.to_set() =~= Set::<DofKey>::empty());
        assert(keys.to_set() + ks.to_set() =~= keys.to_set());
    } else {
        let front = ks.drop_last();
        let k = ks.last();
        law_registrations_keep_indices(keys, front);
        let v = registered_all(keys, front);
        lemma_to_set_drop_last(ks);
        if v.contains(k) {
            assert(v.to_set().contains(k));
            assert(keys.to_set() + ks.to_set() =~= keys.to_set() + front.to_set());
        } else {
            let g = v.push(k);
            assert(g.no_duplicates()) by {
                assert forall|a: int, b: int|
                    0 <= a < g.len() && 0 <= b < g.len() && a != b implies g[a] != g[b] by {
                    if b == v.len() {
                        assert(v.contains(v[a]));
                    } else if a == v.len() {
                        assert(v.contains(v[b]));
                    }
                }
            }
            assert forall|x: DofKey| g.to_set().contains(x) <==> v.to_set().insert(k).contains(x) by {
                if g.contains(x) {
                    let j = choose|j: int| 0 <= j < g.len() && g[j] == x;
                    if j < v.len() {
                        assert(v[j] == x);
                    }
                }
                if v.contains(x) {
                    let j = choose|j: int| 0 <= j < v.len() && v[j] == x;
                    assert(g[j] == x);
                }
                if x == k {
                    assert(g[v.len() as int] == k);
                }
            }
            assert(g.to_set() =~= v.to_set().insert(k));
            assert(g.to_set() =~= keys.to_set() + ks.to_set());
            assert forall|o: DofKey| #[trigger] keys.contains(o) implies position(g, o) == position(
                keys,
                o,
            ) by {
                assert(keys.to_set().contains(o));
                assert(v.to_set().contains(o));
                assert(v.contains(o));
                law_registration_keeps_indices(v, k, o);
            }
        }
    }
}

/// Registering keys from an empty manager numbers as many degrees of
/// freedom as there are distinct keys among them, and a key has an index
/// exactly when it was registered.
pub proof fn law_count_is_distinct_keys(ks: Seq<DofKey>)
    ensures
        registered_all(Seq::<DofKey>::empty(), ks).len() == ks.to_set().len(),
        forall|k: DofKey|
            #[trigger] registered_all(Seq::<DofKey>::empty(), ks).contains(k) <==> ks.contains(k),
{
    let e = Seq::<DofKey>::empty();
    law_registrations_keep_indices(e, ks);
    let r = registered_all(e, ks);
    assert(e.to_set() =~= Set::<DofKey>::empty());
    assert(e.to_set() + ks.to_set() =~= ks.to_set());
    r.unique_seq_to_set();
    assert forall|k: DofKey| #[trigger] r.contains(k) <==> ks.contains(k) by {
        assert(r.to_set().contains(k) == r.contains(k));
        assert(ks.to_set().contains(k) == ks.contains(k));
    }
}

/// Assigns global equation indices to degrees of freedom.
#[derive(Debug, PartialEq, Eq)]
pub struct DOFManager {
    keys: Vec<(NodeId, Vec<char>)>,
}

impl View for DOFManager {
    type V = Seq<DofKey>;

    /// The registered degrees of freedom; the equation index of each is its
    /// position.
    closed spec fn view(&self) -> Seq<DofKey> {
        self.keys@.map_values(|k: (NodeId, Vec<char>)| (k.0, k.1@))
    }
}

impl DOFManager {
    #[verifier::type_invariant]
    spec fn no_repeats(self) -> bool {
        self@.no_duplicates()
    }

    /// A manager without degrees of freedom.
    pub fn new() -> (m: DOFManager)
        ensures
            m@ == Seq::<DofKey>::empty(),
            m@.no_duplicates(),
    {
        let m = DOFManager { keys: Vec::new() };
        assert(m@ =~= Seq::<DofKey>::empty());
        m
    }

    fn find(&self, node: NodeId, field: &[char]) -> (r: Option<usize>)
        ensures
            r == index_of_dof(self@, (node, field@)),
            r matches Some(i) ==> i < self@.len() && self@[i as int] == (node, field@),
    {
        proof {
            use_type_invariant(self);
        }
        let ghost k = (node, field@);
        let mut i: usize = 0;
        while i < self.keys.len()
            invariant
                i <= self.keys@.len(),
                self@.len() == self.keys@.len(),
                k == (node, field@),
                self@.no_duplicates(),
                forall|j: int| 0 <= j < i ==> self@[j] != k,
            decreases self.keys@.len() - i,
        {
            let entry = &self.keys[i];
            assert(self@[i as int] == (entry.0, entry.1@));
            if entry.0 == node && same_chars(entry.1.as_slice(), field) {
                proof {
                    law_index_identifies_dof(self@, i as int);
                }
                return Some(i);
            }
            i += 1;
        }
        assert(!self@.contains(k));
        None
    }

    /// The equation index of `(node, field)`, registering it with the next
    /// free index if it is new. Registering twice changes nothing.
    pub fn register_dof(&mut self, node: NodeId, field: &str) -> (id: usize)
        ensures
            old(self)@.contains((node, field@)) ==> final(self)@ == old(self)@ && Some(id as int)
                == position(old(self)@, (node, field@)),
            !old(self)@.contains((node, field@)) ==> final(self)@ == old(self)@.push((node, field@))
                && id == old(self)@.len(),
            final(self)@[id as int] == (node, field@),
            position(final(self)@, (node, field@)) == Some(id as int),
            final(self)@.no_duplicates(),
            final(self)@.to_set() == old(self)@.to_set().insert((node, field@)),
            final(self)@ == registered(old(self)@, (node, field@)),
    {
        proof {
            use_type_invariant(&*self);
        }
        let chars = chars_of(field);
        match self.find(node, chars.as_slice()) {
            Some(id) => {
                proof {
                    law_index_identifies_dof(self@, id as int);
                    assert(self@.to_set().insert((node, field@)) =~= self@.to_set());
                }
                id
            },
            None => {
                let id = self.keys.len();
                let ghost before = self@;
                let mut keys: Vec<(NodeId, Vec<char>)> = Vec::new();
                std::mem::swap(&mut keys, &mut self.keys);
                keys.push((node, chars));
                let ghost grown = keys@.map_values(|k: (NodeId, Vec<char>)| (k.0, k.1@));
                assert(grown =~= before.push((node, field@)));
                proof {
                    assert forall|a: int, b: int|
                        0 <= a < grown.len() && 0 <= b < grown.len() && a != b implies grown[a]
                        != grown[b] by {
                        if b == id as int {
                            assert(before.contains(before[a]));
                        } else if a == id as int {
                            assert(before.contains(before[b]));
                        }
                    }
                }
                std::mem::swap(&mut keys, &mut self.keys);
                assert(self@ =~= before.push((node, field@)));
                proof {
                    law_index_identifies_dof(self@, id as int);
                    let k = (node, field@);
                    assert forall|x: DofKey| self@.to_set().contains(x) <==> before.to_set().insert(k).contains(x) by {
                        if self@.contains(x) {
                            let j = choose|j: int| 0 <= j < self@.len() && self@[j] == x;
                            if j < before.len() {
                                assert(before[j] == x);
                            }
                        }
                        if before.contains(x) {
                            let j = choose|j: int| 0 <= j < before.len() && before[j] == x;
                            assert(self@[j] == x);
                        }
                        if x == k {
                            assert(self@[id as int] == k);
                        }
                    }
                    assert(self@.to_set() =~= before.to_set().insert(k));
                }
                id
            },
        }
    }

    /// The equation index of `(node, field)`, or `None` if it has not been
    /// registered.
    pub fn get_eq_index(&self, node: NodeId, field: &str) -> (r: Option<usize>)
        ensures
            r == index_of_dof(self@, (node, field@)),
            r matches Some(i) ==> self@[i as int] == (node, field@),
            self@.no_duplicates(),
    {
        proof {
            use_type_invariant(self);
        }
        let chars = chars_of(field);
        self.find(node, chars.as_slice())
    }

    /// The number of registered degrees of freedom.
    pub fn total_dof_count(&self) -> (n: usize)
        ensures
            n == self@.len(),
            self@.no_duplicates(),
    {
        proof {
            use_type_invariant(self);
        }
        self.keys.len()
    }
}

impl Clone for DOFManager {
    /// A manager with the same degrees of freedom and indices.
    fn clone(&self) -> (r: Self)
        ensures
            r@ == self@,
    {
        proof {
            use_type_invariant(self);
        }
        let mut keys: Vec<(NodeId, Vec<char>)> = Vec::new();
        let mut i: usize = 0;
        while i < self.keys.len()
            invariant
                i <= self.keys@.len(),
                keys@.len() == i,
                forall|j: int| 0 <= j < i ==> (#[trigger] keys@[j]).0 == self.keys@[j].0 && keys@[j].1@
                    == self.keys@[j].1@,
            decreases self.keys@.len() - i,
        {
            let entry = &self.keys[i];
            let field = crate::text::copy_range(entry.1.as_slice(), 0, entry.1.len());
            assert(field@ =~= entry.1@);
            keys.push((entry.0, field));
            i += 1;
        }
        assert(keys@.map_values(|k: (NodeId, Vec<char>)| (k.0, k.1@)) =~= self@);
        let r = DOFManager { keys };
        r
    }
}

impl Default for DOFManager {
    /// A manager without degrees of freedom, as `new` makes.
    fn default() -> (m: Self)
        ensures
            m@ == Seq::<DofKey>::empty(),
            m@.no_duplicates(),
    {
        DOFManager::new()
    }
}

} // verus!
