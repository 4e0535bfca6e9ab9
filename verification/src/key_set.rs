//! Small sets and maps keyed by values that are told apart by their view
//! (host addresses, host names, machine identifiers), keeping the order in
//! which keys first came.
use vstd::prelude::*;

use crate::machine_id::MachineId;

verus! {

/// A value that can be told apart from others by its view, and copied.
pub trait Key: View + Sized {
    /// Whether the two values have the same view.
    fn same(&self, other: &Self) -> (res: bool)
        ensures
            res == (self@ == other@),
    ;

    /// A value with the same view.
    fn copy(&self) -> (res: Self)
        ensures
            res@ == self@,
    ;
}

impl Key for String {
    fn same(&self, other: &Self) -> (res: bool) {
        *self == *other
    }

    fn copy(&self) -> (res: Self) {
        self.clone()
    }
}

impl Key for MachineId {
    fn same(&self, other: &Self) -> (res: bool) {
        let a = self.as_bytes();
        let b = other.as_bytes();
        if a.len() != b.len() {
            assert(a@ != b@);
            return false;
        }
        let mut i: usize = 0;
        while i < a.len()
            invariant
                i <= a@.len(),
                a@ == self@,
                b@ == other@,
                a@.len() == b@.len(),
                forall|j: int| 0 <= j < i ==> a@[j] == b@[j],
            decreases a.len() - i,
        {
            if a[i] != b[i] {
                assert(a@[i as int] != b@[i as int]);
                assert(a@ != b@);
                return false;
            }
            i = i + 1;
        }
        assert(a@ =~= b@);
        true
    }

    fn copy(&self) -> (res: Self) {
        proof {
            self.lemma_len();
        }
        MachineId::new(self.as_bytes())
    }
}

/// The views of a list of keys.
pub open spec fn views<K: View>(s: Seq<K>) -> Seq<K::V> {
    s.map_values(|k: K| k@)
}

/// A set of keys.
pub struct KeySet<K: Key> {
    items: Vec<K>,
}

impl<K: Key> View for KeySet<K> {
    type V = Set<K::V>;

    closed spec fn view(&self) -> Set<K::V> {
        views(self.items@).to_set()
    }
}

impl<K: Key> KeySet<K> {
    /// No key is stored twice.
    pub closed spec fn wf(&self) -> bool {
        views(self.items@).no_duplicates()
    }

    /// The empty set.
    pub fn new() -> (res: Self)
        ensures
            res.wf(),
            res@ == Set::<K::V>::empty(),
    {
        let res = KeySet { items: Vec::new() };
        assert(views(res.items@) =~= Seq::<K::V>::empty());
        assert(res@ =~= Set::<K::V>::empty());
        res
    }

    /// The number of keys.
    pub fn len(&self) -> (res: usize)
        requires
            self.wf(),
        ensures
            self@.finite(),
            res == self@.len(),
    {
        proof {
            views(self.items@).unique_seq_to_set();
        }
        self.items.len()
    }

    /// Whether the set holds no key.
    pub fn is_empty(&self) -> (res: bool)
        requires
            self.wf(),
        ensures
            res == (self@.len() == 0),
    {
        self.len() == 0
    }

    /// The position of `k`, if it is stored.
    fn position(&self, k: &K) -> (res: Option<usize>)
        ensures
            match res {
                Some(i) => i < self.items@.len() && self.items@[i as int]@ == k@,
                None => !self@.contains(k@),
            },
    {
        let mut i: usize = 0;
        while i < self.items.len()
            invariant
                i <= self.items@.len(),
                forall|j: int| 0 <= j < i ==> (#[trigger] self.items@[j])@ != k@,
            decreases self.items.len() - i,
        {
            if self.items[i].same(k) {
                return Some(i);
            }
            i = i + 1;
        }
        assert(!views(self.items@).contains(k@)) by {
            if views(self.items@).contains(k@) {
                let j = choose|j: int| 0 <= j < views(self.items@).len() && views(self.items@)[j] == k@;
                assert(self.items@[j]@ == k@);
            }
        }
        None
    }

    /// Whether `k` is in the set.
    pub fn contains(&self, k: &K) -> (res: bool)
        ensures
            res == self@.contains(k@),
    {
        match self.position(k) {
            Some(i) => {
                assert(views(self.items@)[i as int] == k@);
                true
            },
            None => false,
        }
    }

    /// Adds `k`; tells whether it was not in the set.
    pub fn insert(&mut self, k: K) -> (res: bool)
        requires
            old(self).wf(),
        ensures
            final(self).wf(),
            final(self)@ == old(self)@.insert(k@),
            res == !old(self)@.contains(k@),
    {
        if self.contains(&k) {
            assert(self@.insert(k@) =~= self@);
            return false;
        }
        let ghost before = self.items@;
        self.items.push(k);
        proof {
            assert(views(self.items@) =~= views(before).push(k@));
            views(before).lemma_push_to_set_commute(k@);
        }
        true
    }

    /// Removes `k`; tells whether it was in the set.
    pub fn remove(&mut self, k: &K) -> (res: bool)
        requires
            old(self).wf(),
        ensures
            final(self).wf(),
            final(self)@ == old(self)@.remove(k@),
            res == old(self)@.contains(k@),
    {
        match self.position(k) {
            Some(i) => {
                let ghost before = views(self.items@);
                assert(before[i as int] == k@);
                self.items.remove(i);
                proof {
                    let after = views(self.items@);
                    assert(after =~= before.remove(i as int));
                    assert(after.no_duplicates()) by {
                        assert forall|a: int, b: int|
                            0 <= a < after.len() && 0 <= b < after.len() && a != b implies after[a]
                            != after[b] by {
                            let a1 = if a < i { a } else { a + 1 };
                            let b1 = if b < i { b } else { b + 1 };
                            assert(after[a] == before[a1] && after[b] == before[b1]);
                        }
                    }
                    assert forall|x: K::V| #[trigger] after.to_set().contains(x) == before.to_set().remove(
                        k@,
                    ).contains(x) by {
                        if after.to_set().contains(x) {
                            let j = choose|j: int| 0 <= j < after.len() && after[j] == x;
                            let j1 = if j < i { j } else { j + 1 };
                            assert(before[j1] == x);
                            assert(j1 != i);
                        }
                        if before.to_set().remove(k@).contains(x) {
                            let j = choose|j: int| 0 <= j < before.len() && before[j] == x;
                            assert(j != i);
                            if j < i {
                                assert(after[j] == x);
                            } else {
                                assert(after[j - 1] == x);
                            }
                        }
                    }
                    assert(after.to_set() =~= before.to_set().remove(k@));
                    assert(before.to_set().contains(k@));
                }
                true
            },
            None => {
                assert(self@.remove(k@) =~= self@);
                false
            },
        }
    }

    /// Whether every key of `other` is in this set.
    pub fn is_superset(&self, other: &KeySet<K>) -> (res: bool)
        ensures
            res == other@.subset_of(self@),
    {
        let mut i: usize = 0;
        while i < other.items.len()
            invariant
                i <= other.items@.len(),
                forall|j: int| 0 <= j < i ==> self@.contains((#[trigger] other.items@[j])@),
            decreases other.items.len() - i,
        {
            if !self.contains(&other.items[i]) {
                assert(other@.contains(other.items@[i as int]@)) by {
                    assert(views(other.items@)[i as int] == other.items@[i as int]@);
                }
                return false;
            }
            i = i + 1;
        }
        assert forall|x: K::V| other@.contains(x) implies self@.contains(x) by {
            let j = choose|j: int| 0 <= j < views(other.items@).len() && views(other.items@)[j] == x;
            assert(other.items@[j]@ == x);
        }
        true
    }

    /// The keys, in the order they came.
    pub fn items(&self) -> (res: &Vec<K>)
        requires
            self.wf(),
        ensures
            views(res@).to_set() == self@,
            views(res@).no_duplicates(),
    {
        &self.items
    }
}

/// The key of a stored pair.
pub open spec fn pair_key<K: View>(x: (K, String)) -> K::V {
    x.0@
}

/// The map that stored pairs make (a later pair wins).
pub open spec fn pairs_map<K: View>(s: Seq<(K, String)>) -> Map<K::V, Seq<char>>
    decreases s.len(),
{
    if s.len() == 0 {
        Map::empty()
    } else {
        pairs_map(s.drop_last()).insert(s.last().0@, s.last().1@)
    }
}

/// The keys of stored pairs.
pub open spec fn pair_keys<K: View>(s: Seq<(K, String)>) -> Seq<K::V> {
    s.map_values(|x: (K, String)| x.0@)
}

proof fn lemma_pairs_dom<K: View>(s: Seq<(K, String)>)
    ensures
        pairs_map(s).dom() == pair_keys(s).to_set(),
    decreases s.len(),
{
    if s.len() > 0 {
        lemma_pairs_dom(s.drop_last());
        assert(pair_keys(s) =~= pair_keys(s.drop_last()).push(s.last().0@));
        pair_keys(s.drop_last()).lemma_push_to_set_commute(s.last().0@);
    } else {
        assert(pair_keys(s).to_set() =~= Set::<K::V>::empty());
        assert(pairs_map(s).dom() =~= Set::<K::V>::empty());
    }
}

proof fn lemma_pairs_update<K: View>(s: Seq<(K, String)>, i: int, x: (K, String))
    requires
        pair_keys(s).no_duplicates(),
        0 <= i < s.len(),
        x.0@ == s[i].0@,
    ensures
        pair_keys(s.update(i, x)).no_duplicates(),
        pairs_map(s.update(i, x)) == pairs_map(s).insert(x.0@, x.1@),
    decreases s.len(),
{
    let u = s.update(i, x);
    assert(pair_keys(u) =~= pair_keys(s));
    if i == s.len() - 1 {
        assert(u.drop_last() =~= s.drop_last());
        assert(pairs_map(u) =~= pairs_map(s).insert(x.0@, x.1@));
    } else {
        let t = s.drop_last();
        assert(pair_keys(t) =~= pair_keys(s).drop_last());
        assert(pair_keys(t).no_duplicates()) by {
            assert forall|a: int, b: int|
                0 <= a < pair_keys(t).len() && 0 <= b < pair_keys(t).len() && a != b implies pair_keys(t)[a]
                != pair_keys(t)[b] by {
                assert(pair_keys(t)[a] == pair_keys(s)[a] && pair_keys(t)[b] == pair_keys(s)[b]);
            }
        }
        lemma_pairs_update(t, i, x);
        assert(u.drop_last() =~= t.update(i, x));
        assert(pair_keys(s)[s.len() - 1] != pair_keys(s)[i]);
        assert(pairs_map(u) =~= pairs_map(s).insert(x.0@, x.1@));
    }
}

/// A map from keys to texts.
pub struct KeyMap<K: Key> {
    items: Vec<(K, String)>,
}

impl<K: Key> View for KeyMap<K> {
    type V = Map<K::V, Seq<char>>;

    closed spec fn view(&self) -> Map<K::V, Seq<char>> {
        pairs_map(self.items@)
    }
}

impl<K: Key> KeyMap<K> {
    /// No key is stored twice.
    pub closed spec fn wf(&self) -> bool {
        pair_keys(self.items@).no_duplicates()
    }

    /// The empty map.
    pub fn new() -> (res: Self)
        ensures
            res.wf(),
            res@ == Map::<K::V, Seq<char>>::empty(),
    {
        let res = KeyMap { items: Vec::new() };
        assert(pair_keys(res.items@) =~= Seq::<K::V>::empty());
        res
    }

    /// A well-formed map has finitely many keys, no more than a `usize`
    /// counts.
    pub proof fn lemma_dom_bounded(&self)
        requires
            self.wf(),
        ensures
            self@.dom().finite(),
            self@.dom().len() <= usize::MAX,
    {
        lemma_pairs_dom(self.items@);
        pair_keys(self.items@).unique_seq_to_set();
        assert(self.items@.len() == self.items.len()) by {
            broadcast use vstd::std_specs::vec::axiom_spec_len;
        }
    }

    /// The number of keys.
    pub fn len(&self) -> (res: usize)
        requires
            self.wf(),
        ensures
            self@.dom().finite(),
            res == self@.dom().len(),
    {
        proof {
            lemma_pairs_dom(self.items@);
            pair_keys(self.items@).unique_seq_to_set();
        }
        self.items.len()
    }

    /// Whether the map holds no key.
    pub fn is_empty(&self) -> (res: bool)
        requires
            self.wf(),
        ensures
            res == (self@.dom().len() == 0),
    {
        self.len() == 0
    }

    /// The position of `k`, if it is stored.
    fn position(&self, k: &K) -> (res: Option<usize>)
        ensures
            match res {
                Some(i) => i < self.items@.len() && self.items@[i as int].0@ == k@,
                None => !self@.contains_key(k@),
            },
    {
        let mut i: usize = 0;
        while i < self.items.len()
            invariant
                i <= self.items@.len(),
                forall|j: int| 0 <= j < i ==> (#[trigger] self.items@[j]).0@ != k@,
            decreases self.items.len() - i,
        {
            if self.items[i].0.same(k) {
                return Some(i);
            }
            i = i + 1;
        }
        proof {
            lemma_pairs_dom(self.items@);
            if pair_keys(self.items@).to_set().contains(k@) {
                let j = choose|j: int|
                    0 <= j < pair_keys(self.items@).len() && pair_keys(self.items@)[j] == k@;
                assert(self.items@[j].0@ == k@);
            }
        }
        None
    }

    /// Whether `k` has a value.
    pub fn contains_key(&self, k: &K) -> (res: bool)
        ensures
            res == self@.contains_key(k@),
    {
        match self.position(k) {
            Some(i) => {
                proof {
                    lemma_pairs_dom(self.items@);
                    assert(pair_keys(self.items@)[i as int] == k@);
                }
                true
            },
            None => false,
        }
    }

    /// Sets the value of `k` to `v`; tells whether `k` had no value.
    pub fn insert(&mut self, k: K, v: String) -> (res: bool)
        requires
            old(self).wf(),
        ensures
            final(self).wf(),
            final(self)@ == old(self)@.insert(k@, v@),
            res == !old(self)@.contains_key(k@),
    {
        match self.position(&k) {
            Some(i) => {
                proof {
                    lemma_pairs_dom(self.items@);
                    assert(pair_keys(self.items@)[i as int] == k@);
                    lemma_pairs_update(self.items@, i as int, (k, v));
                }
                self.items.set(i, (k, v));
                false
            },
            None => {
                let ghost before = self.items@;
                proof {
                    lemma_pairs_dom(before);
                }
                self.items.push((k, v));
                proof {
                    assert(pair_keys(self.items@) =~= pair_keys(before).push(k@));
                    assert(self.items@.drop_last() =~= before);
                }
                true
            },
        }
    }

    /// The pairs, in the order their keys came.
    pub fn items(&self) -> (res: &Vec<(K, String)>)
        requires
            self.wf(),
        ensures
            pairs_map(res@) == self@,
            pair_keys(res@).no_duplicates(),
    {
        &self.items
    }
}

} // verus!
