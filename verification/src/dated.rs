use vstd::prelude::*;

use crate::assoc::{AssocMap, MapKey};
use crate::date::Date;
use crate::termstructure::slots_below;

verus! {

/// Values by key, kept apart per reference date.
pub struct DatedMap<K, V> {
    by_date: AssocMap<Date, usize>,
    tables: Vec<AssocMap<K, V>>,
}

/// The table of `date` in `m`, empty where the date has none.
pub open spec fn table_or_empty<KV, V>(m: Map<Date, Map<KV, V>>, date: Date) -> Map<KV, V> {
    if m.contains_key(date) {
        m[date]
    } else {
        Map::empty()
    }
}

impl<K: MapKey, V> View for DatedMap<K, V> {
    type V = Map<Date, Map<K::KeyView, V>>;

    closed spec fn view(&self) -> Map<Date, Map<K::KeyView, V>> {
        self.by_date@.map_values(|i: usize| self.tables@[i as int]@)
    }
}

impl<K: MapKey, V> DatedMap<K, V> {
    pub closed spec fn wf(&self) -> bool {
        &&& self.by_date.wf()
        &&& slots_below(self.by_date@, self.tables@.len())
        &&& forall|a: Date, b: Date| #[trigger] self.by_date@.contains_key(a) && #[trigger] self.by_date@.contains_key(b) && a != b
            ==> self.by_date@[a] != self.by_date@[b]
        &&& forall|i: int| 0 <= i < self.tables@.len() ==> #[trigger] self.tables@[i].wf()
    }

    /// No value for any date.
    pub fn new() -> (r: Self)
        ensures
            r.wf(),
            r@ == Map::<Date, Map<K::KeyView, V>>::empty(),
    {
        let r = DatedMap { by_date: AssocMap::new(), tables: Vec::new() };
        assert(r@ =~= Map::empty());
        r
    }

    /// Stores `value` under `key` in the table of `date`, replacing what was there.
    pub fn insert(&mut self, date: Date, key: K, value: V)
        requires
            old(self).wf(),
        ensures
            final(self).wf(),
            final(self)@ == old(self)@.insert(date, table_or_empty(old(self)@, date).insert(key.key_view(), value)),
    {
        let ghost s0 = self@;
        let slot = match self.by_date.get(&date) {
            Some(i) => *i,
            None => {
                let i = self.tables.len();
                self.tables.push(AssocMap::new());
                let _ = self.by_date.insert(date, i);
                assert forall|d: Date| #[trigger] self.by_date@.contains_key(d) && d != date implies
                    self.by_date@[d] < i by {}
                assert(self@ =~= s0.insert(date, Map::empty())) by {
                    assert forall|d: Date| self@.contains_key(d) && d != date implies
                        #[trigger] self@[d] == s0[d] by {
                        assert(self.tables@[self.by_date@[d] as int] == old(self).tables@[self.by_date@[d] as int]);
                    }
                }
                i
            },
        };
        let ghost s1 = self@;
        assert(s1.contains_key(date) && self.by_date@[date] == slot);
        assert(s1[date] == table_or_empty(s0, date));
        assert(self.tables@[slot as int].wf());
        let _ = self.tables[slot].insert(key, value);
        proof {
            assert forall|i: int| 0 <= i < self.tables@.len() implies #[trigger] self.tables@[i].wf() by {}
            assert forall|d: Date| self@.contains_key(d) && d != date implies #[trigger] self@[d] == s1[d] by {
                assert(self.by_date@[d] != slot);
            }
            assert(self@ =~= s0.insert(date, s1[date].insert(key.key_view(), value)));
        }
    }

    /// The table of `date`.
    pub fn table(&self, date: &Date) -> (r: Option<&AssocMap<K, V>>)
        requires
            self.wf(),
        ensures
            match r {
                Some(t) => self@.contains_key(*date) && t.wf() && t@ == self@[*date],
                None => !self@.contains_key(*date),
            },
    {
        match self.by_date.get(date) {
            Some(i) => Some(&self.tables[*i]),
            None => None,
        }
    }

    /// The value stored under `key` in the table of `date`.
    pub fn get(&self, date: &Date, key: &K) -> (r: Option<&V>)
        requires
            self.wf(),
        ensures
            match r {
                Some(v) => self@.contains_key(*date) && self@[*date].contains_key(key.key_view())
                    && *v == self@[*date][key.key_view()],
                None => !(self@.contains_key(*date) && self@[*date].contains_key(key.key_view())),
            },
    {
        match self.table(date) {
            Some(t) => t.get(key),
            None => None,
        }
    }
}

/// A value stored under a key of a date is read back from that date's table; the other
/// keys of that date and every other date's table are as they were.
pub proof fn lemma_dated_write_read<KV, V>(m: Map<Date, Map<KV, V>>, date: Date, key: KV, value: V, d2: Date, k2: KV)
    ensures
        ({
            let w = m.insert(date, table_or_empty(m, date).insert(key, value));
            &&& w.contains_key(date) && w[date].contains_key(key) && w[date][key] == value
            &&& d2 != date ==> table_or_empty(w, d2) == table_or_empty(m, d2)
            &&& k2 != key ==> (table_or_empty(w, date).contains_key(k2) == table_or_empty(m, date).contains_key(k2))
            &&& k2 != key && table_or_empty(m, date).contains_key(k2) ==> table_or_empty(w, date)[k2] == table_or_empty(m, date)[k2]
        }),
{
}

} // verus!
