use vstd::prelude::*;

use crate::currency::Currency;
use crate::date::Date;

verus! {

/// A key of an `AssocMap`: keys are told apart by their abstract value.
pub trait MapKey: Sized {
    type KeyView;

    spec fn key_view(&self) -> Self::KeyView;

    /// The two keys have the same abstract value.
    fn same_key(&self, other: &Self) -> (r: bool)
        ensures
            r == (self.key_view() == other.key_view());
}

impl MapKey for Date {
    type KeyView = Date;

    open spec fn key_view(&self) -> Date {
        *self
    }

    fn same_key(&self, other: &Self) -> (r: bool) {
        *self == *other
    }
}

impl MapKey for String {
    type KeyView = Seq<char>;

    open spec fn key_view(&self) -> Seq<char> {
        self@
    }

    fn same_key(&self, other: &Self) -> (r: bool) {
        *self == *other
    }
}

impl MapKey for Currency {
    type KeyView = Currency;

    open spec fn key_view(&self) -> Currency {
        *self
    }

    fn same_key(&self, other: &Self) -> (r: bool) {
        *self == *other
    }
}

impl MapKey for (Currency, Currency) {
    type KeyView = (Currency, Currency);

    open spec fn key_view(&self) -> (Currency, Currency) {
        *self
    }

    fn same_key(&self, other: &Self) -> (r: bool) {
        self.0 == other.0 && self.1 == other.1
    }
}

/// The map an entry list stands for: later entries override earlier ones.
pub open spec fn map_of<K: MapKey, V>(s: Seq<(K, V)>) -> Map<K::KeyView, V>
    decreases s.len(),
{
    if s.len() == 0 {
        Map::empty()
    } else {
        map_of(s.drop_last()).insert(s.last().0.key_view(), s.last().1)
    }
}

/// No two entries share a key.
pub open spec fn unique_keys<K: MapKey, V>(s: Seq<(K, V)>) -> bool {
    forall|i: int, j: int| 0 <= i < j < s.len() ==> s[i].0.key_view() != s[j].0.key_view()
}

/// With distinct keys, the map holds exactly the entries' keys, each with its entry's value.
pub proof fn lemma_map_of_entries<K: MapKey, V>(s: Seq<(K, V)>)
    requires
        unique_keys(s),
    ensures
        forall|i: int| 0 <= i < s.len() ==> map_of(s).contains_key(#[trigger] s[i].0.key_view())
            && map_of(s)[s[i].0.key_view()] == s[i].1,
        forall|k: K::KeyView| map_of(s).contains_key(k) ==> exists|i: int| 0 <= i < s.len() && #[trigger] s[i].0.key_view() == k,
    decreases s.len(),
{
    if s.len() > 0 {
        let d = s.drop_last();
        assert(unique_keys(d)) by {
            assert forall|i: int, j: int| 0 <= i < j < d.len() implies d[i].0.key_view() != d[j].0.key_view() by {
                assert(d[i] == s[i] && d[j] == s[j]);
            }
        }
        lemma_map_of_entries(d);
        assert forall|i: int| 0 <= i < s.len() implies map_of(s).contains_key(#[trigger] s[i].0.key_view())
            && map_of(s)[s[i].0.key_view()] == s[i].1 by {
            if i < s.len() - 1 {
                assert(d[i] == s[i]);
            }
        }
        assert forall|k: K::KeyView| map_of(s).contains_key(k) implies exists|i: int| 0 <= i < s.len() && #[trigger] s[i].0.key_view() == k by {
            if k != s.last().0.key_view() {
                assert(map_of(d).contains_key(k));
                let i = choose|i: int| 0 <= i < d.len() && #[trigger] d[i].0.key_view() == k;
                assert(s[i] == d[i]);
                assert(s[i].0.key_view() == k);
            } else {
                assert(s[s.len() - 1].0.key_view() == k);
            }
        }
    }
}

/// A map kept as a list of entries with distinct keys, in order of first insertion.
pub struct AssocMap<K, V> {
    entries: Vec<(K, V)>,
}

impl<K: MapKey, V> View for AssocMap<K, V> {
    type V = Map<K::KeyView, V>;

    closed spec fn view(&self) -> Map<K::KeyView, V> {
        map_of(self.entries@)
    }
}

impl<K: MapKey, V> AssocMap<K, V> {
    pub closed spec fn wf(&self) -> bool {
        unique_keys(self.entries@)
    }

    pub closed spec fn spec_entries(&self) -> Seq<(K, V)> {
        self.entries@
    }

    /// The map with no entry.
    pub fn new() -> (r: Self)
        ensures
            r.wf(),
            r@ == Map::<K::KeyView, V>::empty(),
    {
        AssocMap { entries: Vec::new() }
    }

    /// Position of the entry with key `k`.
    fn find(&self, k: &K) -> (r: Option<usize>)
        requires
            self.wf(),
        ensures
            match r {
                Some(i) => i < self.entries@.len() && self.entries@[i as int].0.key_view() == k.key_view(),
                None => forall|i: int| 0 <= i < self.entries@.len() ==> self.entries@[i].0.key_view() != k.key_view(),
            },
    {
        let mut i: usize = 0;
        while i < self.entries.len()
            invariant
                i <= self.entries@.len(),
                forall|j: int| 0 <= j < i ==> self.entries@[j].0.key_view() != k.key_view(),
            decreases self.entries@.len() - i,
        {
            if self.entries[i].0.same_key(k) {
                return Some(i);
            }
            i = i + 1;
        }
        None
    }

    /// The value stored under `k`.
    pub fn get(&self, k: &K) -> (r: Option<&V>)
        requires
            self.wf(),
        ensures
            match r {
                Some(v) => self@.contains_key(k.key_view()) && *v == self@[k.key_view()],
                None => !self@.contains_key(k.key_view()),
            },
    {
        proof {
            lemma_map_of_entries(self.entries@);
        }
        match self.find(k) {
            Some(i) => Some(&self.entries[i].1),
            None => None,
        }
    }

    /// Whether a value is stored under `k`.
    pub fn contains_key(&self, k: &K) -> (r: bool)
        requires
            self.wf(),
        ensures
            r == self@.contains_key(k.key_view()),
    {
        proof {
            lemma_map_of_entries(self.entries@);
        }
        self.find(k).is_some()
    }

    /// Stores `v` under `k`, giving back the value it replaces, if any.
    pub fn insert(&mut self, k: K, v: V) -> (r: Option<V>)
        requires
            old(self).wf(),
        ensures
            final(self).wf(),
            final(self)@ == old(self)@.insert(k.key_view(), v),
            match r {
                Some(x) => old(self)@.contains_key(k.key_view()) && x == old(self)@[k.key_view()],
                None => !old(self)@.contains_key(k.key_view()),
            },
            !old(self)@.contains_key(k.key_view()) ==> final(self).spec_entries() == old(self).spec_entries().push((k, v)),
            old(self)@.contains_key(k.key_view()) ==> exists|i: int| 0 <= i < old(self).spec_entries().len()
                && #[trigger] old(self).spec_entries()[i].0.key_view() == k.key_view()
                && final(self).spec_entries() == old(self).spec_entries().update(i, (k, v)),
    {
        proof {
            lemma_map_of_entries(self.entries@);
        }
        let ghost o = self.entries@;
        match self.find(&k) {
            Some(i) => {
                let ghost kv = k.key_view();
                let ghost kk = k;
                let ghost vv = v;
                let mut e = (k, v);
                std::mem::swap(&mut e, &mut self.entries[i]);
                proof {
                    let n = self.entries@;
                    assert(n =~= o.update(i as int, (kk, vv)));
                    assert(o[i as int].0.key_view() == kv);
                    assert(unique_keys(n)) by {
                        assert forall|a: int, b: int| 0 <= a < b < n.len() implies n[a].0.key_view() != n[b].0.key_view() by {
                            if a != i && b != i {
                                assert(n[a] == o[a] && n[b] == o[b]);
                            } else if a == i {
                                assert(n[b] == o[b]);
                            } else {
                                assert(n[a] == o[a]);
                            }
                        }
                    }
                    lemma_map_of_entries(n);
                    assert(map_of(n) =~= map_of(o).insert(kv, v)) by {
                        assert forall|key: K::KeyView| #[trigger] map_of(n).contains_key(key) == map_of(o).insert(kv, v).contains_key(key) by {
                            if map_of(n).contains_key(key) {
                                let j = choose|j: int| 0 <= j < n.len() && #[trigger] n[j].0.key_view() == key;
                                if j != i {
                                    assert(n[j] == o[j]);
                                }
                            }
                            if map_of(o).contains_key(key) {
                                let j = choose|j: int| 0 <= j < o.len() && #[trigger] o[j].0.key_view() == key;
                                if j != i {
                                    assert(n[j] == o[j]);
                                } else {
                                    assert(n[i as int].0.key_view() == key);
                                }
                            }
                            if key == kv {
                                assert(n[i as int].0.key_view() == key);
                            }
                        }
                        assert forall|key: K::KeyView| #[trigger] map_of(n).contains_key(key) implies map_of(n)[key] == map_of(o).insert(kv, v)[key] by {
                            let j = choose|j: int| 0 <= j < n.len() && #[trigger] n[j].0.key_view() == key;
                            if j != i {
                                assert(n[j] == o[j]);
                            }
                        }
                    }
                }
                assert(old(self).spec_entries()[i as int].0.key_view() == kk.key_view()
                    && self.spec_entries() == old(self).spec_entries().update(i as int, (kk, vv)));
                Some(e.1)
            },
            None => {
                self.entries.push((k, v));
                proof {
                    let n = self.entries@;
                    assert(n.drop_last() =~= o);
                    assert(unique_keys(n)) by {
                        assert forall|a: int, b: int| 0 <= a < b < n.len() implies n[a].0.key_view() != n[b].0.key_view() by {
                            if b < o.len() {
                                assert(n[a] == o[a] && n[b] == o[b]);
                            } else {
                                assert(n[a] == o[a]);
                            }
                        }
                    }
                }
                None
            },
        }
    }

    /// The entries, in order of first insertion.
    pub fn entries(&self) -> (r: &Vec<(K, V)>)
        requires
            self.wf(),
        ensures
            r@ == self.spec_entries(),
            unique_keys(r@),
            map_of(r@) == self@,
    {
        &self.entries
    }

    /// Number of keys.
    pub fn len(&self) -> (r: usize)
        requires
            self.wf(),
        ensures
            r == self@.len(),
    {
        proof {
            lemma_map_of_entries(self.entries@);
            lemma_map_of_len(self.entries@);
        }
        self.entries.len()
    }

    /// Removes every entry.
    pub fn clear(&mut self)
        ensures
            final(self).wf(),
            final(self)@ == Map::<K::KeyView, V>::empty(),
    {
        self.entries.clear();
        assert(self.entries@ =~= Seq::<(K, V)>::empty());
    }
}

/// With distinct keys, the map has one key per entry.
pub proof fn lemma_map_of_len<K: MapKey, V>(s: Seq<(K, V)>)
    requires
        unique_keys(s),
    ensures
        map_of(s).dom().finite(),
        map_of(s).len() == s.len(),
    decreases s.len(),
{
    if s.len() > 0 {
        let d = s.drop_last();
        assert(unique_keys(d)) by {
            assert forall|i: int, j: int| 0 <= i < j < d.len() implies d[i].0.key_view() != d[j].0.key_view() by {
                assert(d[i] == s[i] && d[j] == s[j]);
            }
        }
        lemma_map_of_len(d);
        lemma_map_of_entries(d);
        if map_of(d).contains_key(s.last().0.key_view()) {
            let i = choose|i: int| 0 <= i < d.len() && #[trigger] d[i].0.key_view() == s.last().0.key_view();
            assert(s[i] == d[i]);
        }
    }
}

} // verus!
