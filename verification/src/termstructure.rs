use vstd::prelude::*;

use crate::assoc::{map_of, AssocMap, MapKey};
use crate::currency::{same_text, Currency};
use crate::date::Date;
use crate::error::{ErrorKind, ScriptingError};
use crate::requests::{Compounding, Frequency};

verus! {

/// How a curve's stored values are meant.
#[derive(Clone, Copy, Debug, PartialEq, Eq, Structural)]
pub enum TermStructureType {
    Discount,
    FlatForward,
    Zero,
}

/// How a curve interpolates between its pillars.
#[derive(Clone, Copy, Debug, PartialEq, Eq, Structural)]
pub enum Interpolator {
    Linear,
    LogLinear,
}

/// How a curve measures time between two dates.
#[derive(Clone, Copy, Debug, PartialEq, Eq, Structural)]
pub enum DayCounter {
    Actual360,
    Actual365,
    Thirty360,
    ActualActual,
}

/// The name a day counter is written with in scripts.
pub open spec fn day_counter_name(d: DayCounter) -> Seq<char> {
    match d {
        DayCounter::Actual360 => "Actual360"@,
        DayCounter::Actual365 => "Actual365"@,
        DayCounter::Thirty360 => "Thirty360"@,
        DayCounter::ActualActual => "ActualActual"@,
    }
}

impl DayCounter {
    /// The day counter written `s`, if any.
    pub fn from_name(s: &str) -> (r: Option<DayCounter>)
        ensures
            forall|d: DayCounter| #[trigger] day_counter_name(d) == s@ <==> r == Some(d),
    {
        proof {
            reveal_strlit("Actual360");
            reveal_strlit("Actual365");
            reveal_strlit("Thirty360");
            reveal_strlit("ActualActual");
            assert("Actual360"@[8] != "Actual365"@[8]);
            assert("Actual360"@[0] != "Thirty360"@[0]);
            assert("Actual365"@[0] != "Thirty360"@[0]);
        }
        if same_text(s, "Actual360") {
            Some(DayCounter::Actual360)
        } else if same_text(s, "Actual365") {
            Some(DayCounter::Actual365)
        } else if same_text(s, "Thirty360") {
            Some(DayCounter::Thirty360)
        } else if same_text(s, "ActualActual") {
            Some(DayCounter::ActualActual)
        } else {
            None
        }
    }
}

/// What identifies a curve among those of a date.
#[derive(Clone, Debug, PartialEq, Eq, Hash)]
pub struct TermStructureKey {
    pub name: Option<String>,
    pub currency: Currency,
    pub is_risk_free: bool,
}

/// The abstract value of an optional name.
pub open spec fn name_view(n: Option<String>) -> Option<Seq<char>> {
    match n {
        Some(s) => Some(s@),
        None => None,
    }
}

impl TermStructureKey {
    pub fn new(currency: Currency, is_risk_free: bool, name: Option<String>) -> (k: TermStructureKey)
        ensures
            k.currency == currency,
            k.is_risk_free == is_risk_free,
            k.name == name,
    {
        TermStructureKey { name, currency, is_risk_free }
    }

    /// A key with the same content.
    pub fn copy(&self) -> (k: TermStructureKey)
        ensures
            k.key_view() == self.key_view(),
            name_view(k.name) == name_view(self.name),
            k.currency == self.currency,
            k.is_risk_free == self.is_risk_free,
    {
        let name = match &self.name {
            Some(s) => Some(s.clone()),
            None => None,
        };
        TermStructureKey { name, currency: self.currency, is_risk_free: self.is_risk_free }
    }
}

impl MapKey for TermStructureKey {
    type KeyView = (Option<Seq<char>>, Currency, bool);

    open spec fn key_view(&self) -> (Option<Seq<char>>, Currency, bool) {
        (name_view(self.name), self.currency, self.is_risk_free)
    }

    fn same_key(&self, other: &Self) -> (r: bool) {
        let same_name = match (&self.name, &other.name) {
            (Some(a), Some(b)) => *a == *b,
            (None, None) => true,
            _ => false,
        };
        same_name && self.currency == other.currency && self.is_risk_free == other.is_risk_free
    }
}

/// A curve: its key, its values by pillar date, and how to read them.
pub struct TermStructure<T> {
    key: TermStructureKey,
    values: AssocMap<Date, T>,
    interpolation: Interpolator,
    enable_extrapolation: bool,
    day_counter: DayCounter,
    compounding: Compounding,
    frequency: Frequency,
}

impl<T> TermStructure<T> {
    pub closed spec fn spec_key(&self) -> TermStructureKey {
        self.key
    }

    pub closed spec fn spec_values(&self) -> Map<Date, T> {
        self.values@
    }

    pub closed spec fn wf(&self) -> bool {
        self.values.wf()
    }

    /// A curve; a pillar date given twice keeps its last value.
    pub fn new(
        key: TermStructureKey,
        values: Vec<(Date, T)>,
        interpolation: Interpolator,
        enable_extrapolation: bool,
        day_counter: DayCounter,
        compounding: Compounding,
        frequency: Frequency,
    ) -> (r: TermStructure<T>)
        ensures
            r.wf(),
            r.spec_key() == key,
            r.spec_values() == map_of(values@),
            r.interpolation() == interpolation,
            r.enable_extrapolation() == enable_extrapolation,
            r.day_counter() == day_counter,
            r.compounding() == compounding,
            r.frequency() == frequency,
    {
        let mut map: AssocMap<Date, T> = AssocMap::new();
        let ghost all = values@;
        let mut rest = values;
        let total = rest.len();
        assert(all.len() == total);
        assert(all.take(0) =~= Seq::<(Date, T)>::empty());
        let mut i: usize = 0;
        let mut rev: Vec<(Date, T)> = Vec::new();
        while rest.len() > 0
            invariant
                rest@.len() + rev@.len() == all.len(),
                all.len() <= usize::MAX,
                forall|j: int| 0 <= j < rest@.len() ==> #[trigger] rest@[j] == all[j],
                forall|j: int| 0 <= j < rev@.len() ==> #[trigger] rev@[j] == all[all.len() - 1 - j],
            decreases rest@.len(),
        {
            let x = rest.pop().unwrap();
            rev.push(x);
        }
        while rev.len() > 0
            invariant
                map.wf(),
                all.len() <= usize::MAX,
                i + rev@.len() == all.len(),
                forall|j: int| 0 <= j < rev@.len() ==> #[trigger] rev@[j] == all[all.len() - 1 - j],
                map@ == map_of(all.take(i as int)),
            decreases rev@.len(),
        {
            let x = rev.pop().unwrap();
            assert(x == all[i as int]);
            assert(all.take(i + 1).drop_last() =~= all.take(i as int));
            let _ = map.insert(x.0, x.1);
            i = i + 1;
        }
        assert(all.take(all.len() as int) =~= all);
        TermStructure { key, values: map, interpolation, enable_extrapolation, day_counter, compounding, frequency }
    }

    pub fn key(&self) -> (r: &TermStructureKey)
        ensures
            *r == self.spec_key(),
    {
        &self.key
    }

    /// The values by pillar date.
    pub fn values(&self) -> (r: &AssocMap<Date, T>)
        requires
            self.wf(),
        ensures
            r.wf(),
            r@ == self.spec_values(),
    {
        &self.values
    }

    pub closed spec fn spec_interpolation(&self) -> Interpolator {
        self.interpolation
    }

    #[verifier::when_used_as_spec(spec_interpolation)]
    pub fn interpolation(&self) -> (r: Interpolator)
        ensures
            r == self.spec_interpolation(),
    {
        self.interpolation
    }

    pub closed spec fn spec_enable_extrapolation(&self) -> bool {
        self.enable_extrapolation
    }

    #[verifier::when_used_as_spec(spec_enable_extrapolation)]
    pub fn enable_extrapolation(&self) -> (r: bool)
        ensures
            r == self.spec_enable_extrapolation(),
    {
        self.enable_extrapolation
    }

    pub closed spec fn spec_day_counter(&self) -> DayCounter {
        self.day_counter
    }

    #[verifier::when_used_as_spec(spec_day_counter)]
    pub fn day_counter(&self) -> (r: DayCounter)
        ensures
            r == self.spec_day_counter(),
    {
        self.day_counter
    }

    pub closed spec fn spec_compounding(&self) -> Compounding {
        self.compounding
    }

    #[verifier::when_used_as_spec(spec_compounding)]
    pub fn compounding(&self) -> (r: Compounding)
        ensures
            r == self.spec_compounding(),
    {
        self.compounding
    }

    pub closed spec fn spec_frequency(&self) -> Frequency {
        self.frequency
    }

    #[verifier::when_used_as_spec(spec_frequency)]
    pub fn frequency(&self) -> (r: Frequency)
        ensures
            r == self.spec_frequency(),
    {
        self.frequency
    }
}


/// The curves of one reference date, as maps: by full key, risk-free ones by currency,
/// named ones by name.
pub struct IndexesView<T> {
    pub by_key: Map<(Option<Seq<char>>, Currency, bool), TermStructure<T>>,
    pub by_currency: Map<Currency, TermStructure<T>>,
    pub by_name: Map<Seq<char>, TermStructure<T>>,
}

/// The curves of a date before any was added.
pub open spec fn empty_indexes<T>() -> IndexesView<T> {
    IndexesView { by_key: Map::empty(), by_currency: Map::empty(), by_name: Map::empty() }
}

/// Registers curve `c` under its name, if it has one.
pub open spec fn add_by_name<T>(v: IndexesView<T>, c: TermStructure<T>) -> IndexesView<T> {
    match c.spec_key().name {
        Some(n) => IndexesView { by_name: v.by_name.insert(n@, c), ..v },
        None => v,
    }
}

/// Adding curve `c`: it is stored under its key (replacing a curve with the same key, which
/// is an error); a risk-free curve is also stored under its currency (a second risk-free
/// curve of a currency replaces the first and is an error); a named curve is stored under
/// its name. An error stops the later steps.
pub open spec fn add_curve<T>(v: IndexesView<T>, c: TermStructure<T>) -> (IndexesView<T>, Result<(), ErrorKind>) {
    let k = c.spec_key();
    let v1 = IndexesView { by_key: v.by_key.insert(k.key_view(), c), ..v };
    if v.by_key.contains_key(k.key_view()) {
        (v1, Err(ErrorKind::InvalidOperation))
    } else if k.is_risk_free {
        let v2 = IndexesView { by_currency: v1.by_currency.insert(k.currency, c), ..v1 };
        if v.by_currency.contains_key(k.currency) {
            (v2, Err(ErrorKind::InvalidOperation))
        } else {
            (add_by_name(v2, c), Ok(()))
        }
    } else {
        (add_by_name(v1, c), Ok(()))
    }
}

/// `c` is stored under some key of `m`.
pub open spec fn is_stored<K, V>(m: Map<K, V>, c: V) -> bool {
    exists|k: K| #[trigger] m.contains_key(k) && m[k] == c
}

/// The curves of one reference date.
pub struct IndexesForDate<T> {
    curves: Vec<TermStructure<T>>,
    by_key: AssocMap<TermStructureKey, usize>,
    rf_by_currency: AssocMap<Currency, usize>,
    by_name: AssocMap<String, usize>,
}

/// Every slot of `m` is a valid position of a list of length `n`.
pub open spec fn slots_below<K>(m: Map<K, usize>, n: nat) -> bool {
    forall|k: K| #[trigger] m.contains_key(k) ==> m[k] < n
}

impl<T> View for IndexesForDate<T> {
    type V = IndexesView<T>;

    closed spec fn view(&self) -> IndexesView<T> {
        IndexesView {
            by_key: self.by_key@.map_values(|i: usize| self.curves@[i as int]),
            by_currency: self.rf_by_currency@.map_values(|i: usize| self.curves@[i as int]),
            by_name: self.by_name@.map_values(|i: usize| self.curves@[i as int]),
        }
    }
}

impl<T> IndexesForDate<T> {
    pub closed spec fn wf(&self) -> bool {
        &&& self.by_key.wf()
        &&& self.rf_by_currency.wf()
        &&& self.by_name.wf()
        &&& slots_below(self.by_key@, self.curves@.len())
        &&& slots_below(self.rf_by_currency@, self.curves@.len())
        &&& slots_below(self.by_name@, self.curves@.len())
    }

    /// No curve yet.
    pub fn new() -> (r: IndexesForDate<T>)
        ensures
            r.wf(),
            r@ == empty_indexes::<T>(),
    {
        let r = IndexesForDate {
            curves: Vec::new(),
            by_key: AssocMap::new(),
            rf_by_currency: AssocMap::new(),
            by_name: AssocMap::new(),
        };
        assert(r@.by_key =~= Map::empty());
        assert(r@.by_currency =~= Map::empty());
        assert(r@.by_name =~= Map::empty());
        r
    }

    /// The curve stored under `key`.
    pub fn get_by_key(&self, key: &TermStructureKey) -> (r: Option<&TermStructure<T>>)
        requires
            self.wf(),
        ensures
            match r {
                Some(c) => self@.by_key.contains_key(key.key_view()) && *c == self@.by_key[key.key_view()],
                None => !self@.by_key.contains_key(key.key_view()),
            },
    {
        match self.by_key.get(key) {
            Some(i) => Some(&self.curves[*i]),
            None => None,
        }
    }

    /// The risk-free curve of `currency`.
    pub fn get_by_currency(&self, currency: Currency) -> (r: Option<&TermStructure<T>>)
        requires
            self.wf(),
        ensures
            match r {
                Some(c) => self@.by_currency.contains_key(currency) && *c == self@.by_currency[currency],
                None => !self@.by_currency.contains_key(currency),
            },
    {
        match self.rf_by_currency.get(&currency) {
            Some(i) => Some(&self.curves[*i]),
            None => None,
        }
    }

    /// The curve named `name`.
    pub fn get_by_name(&self, name: &str) -> (r: Option<&TermStructure<T>>)
        requires
            self.wf(),
        ensures
            match r {
                Some(c) => self@.by_name.contains_key(name@) && *c == self@.by_name[name@],
                None => !self@.by_name.contains_key(name@),
            },
    {
        let key = name.to_owned();
        match self.by_name.get(&key) {
            Some(i) => Some(&self.curves[*i]),
            None => None,
        }
    }

    /// Every curve stored under a key, each once per key.
    pub fn get_all(&self) -> (r: Vec<&TermStructure<T>>)
        requires
            self.wf(),
        ensures
            r@.len() == self@.by_key.len(),
            forall|i: int| 0 <= i < r@.len() ==> #[trigger] is_stored(self@.by_key, *r@[i]),
            forall|k: (Option<Seq<char>>, Currency, bool)| #[trigger] self@.by_key.contains_key(k) ==>
                exists|i: int| 0 <= i < r@.len() && #[trigger] *r@[i] == self@.by_key[k],
    {
        let entries = self.by_key.entries();
        proof {
            crate::assoc::lemma_map_of_entries(entries@);
            crate::assoc::lemma_map_of_len(entries@);
        }
        let mut r: Vec<&TermStructure<T>> = Vec::new();
        let mut i: usize = 0;
        while i < entries.len()
            invariant
                self.wf(),
                entries@ == self.by_key.spec_entries(),
                map_of(entries@) == self.by_key@,
                i <= entries@.len(),
                r@.len() == i,
                forall|j: int| 0 <= j < i ==> #[trigger] *r@[j] == self.curves@[entries@[j].1 as int],
                forall|j: int| 0 <= j < entries@.len() ==> self.by_key@.contains_key(#[trigger] entries@[j].0.key_view())
                    && self.by_key@[entries@[j].0.key_view()] == entries@[j].1,
            decreases entries@.len() - i,
        {
            let slot = entries[i].1;
            assert(self.by_key@.contains_key(entries@[i as int].0.key_view()));
            r.push(&self.curves[slot]);
            i = i + 1;
        }
        proof {
            assert(self@.by_key.dom() =~= self.by_key@.dom());
            assert forall|j: int| 0 <= j < r@.len() implies #[trigger] is_stored(self@.by_key, *r@[j]) by {
                let k = entries@[j].0.key_view();
                assert(self.by_key@.contains_key(k) && self.by_key@[k] == entries@[j].1);
                assert(self@.by_key.contains_key(k));
                assert(self@.by_key[k] == self.curves@[entries@[j].1 as int]);
                assert(*r@[j] == self@.by_key[k]);
            }
            assert forall|k: (Option<Seq<char>>, Currency, bool)| #[trigger] self@.by_key.contains_key(k) implies
                exists|j: int| 0 <= j < r@.len() && #[trigger] *r@[j] == self@.by_key[k] by {
                assert(self.by_key@.contains_key(k));
                let j = choose|j: int| 0 <= j < entries@.len() && #[trigger] entries@[j].0.key_view() == k;
                assert(self.by_key@[k] == entries@[j].1);
                assert(*r@[j] == self@.by_key[k]);
            }
        }
        r
    }

    /// Adds a curve as `add_curve` says.
    pub fn add(&mut self, curve: TermStructure<T>) -> (r: Result<(), ScriptingError>)
        requires
            old(self).wf(),
        ensures
            final(self).wf(),
            final(self)@ == add_curve(old(self)@, curve).0,
            match add_curve(old(self)@, curve).1 {
                Ok(()) => r is Ok,
                Err(k) => r matches Err(e) && e.kind() == k,
            },
    {
        let ghost v0 = self@;
        let key = curve.key().copy();
        let idx = self.curves.len();
        self.curves.push(curve);
        assert(self@.by_key =~= v0.by_key);
        assert(self@.by_currency =~= v0.by_currency);
        assert(self@.by_name =~= v0.by_name);
        let ghost v1 = IndexesView { by_key: v0.by_key.insert(key.key_view(), curve), ..v0 };
        let replaced = self.by_key.insert(key.copy(), idx);
        assert(self@.by_key =~= v1.by_key);
        if replaced.is_some() {
            return Err(ScriptingError::InvalidOperation("duplicate term structure for the reference date".to_owned()));
        }
        let ghost mut v2 = v1;
        if key.is_risk_free {
            proof {
                v2 = IndexesView { by_currency: v1.by_currency.insert(key.currency, curve), ..v1 };
            }
            let replaced_rf = self.rf_by_currency.insert(key.currency, idx);
            assert(self@.by_currency =~= v2.by_currency);
            if replaced_rf.is_some() {
                return Err(ScriptingError::InvalidOperation("more than one risk-free curve for a currency".to_owned()));
            }
        }
        match key.name {
            Some(n) => {
                let ghost nv = n@;
                let _ = self.by_name.insert(n, idx);
                assert(self@.by_name =~= v2.by_name.insert(nv, curve));
            },
            None => {},
        }
        Ok(())
    }
}

/// The curves of every reference date.
pub struct TermStructureStore<T> {
    by_date: AssocMap<Date, usize>,
    indexes: Vec<IndexesForDate<T>>,
}

impl<T> View for TermStructureStore<T> {
    type V = Map<Date, IndexesView<T>>;

    closed spec fn view(&self) -> Map<Date, IndexesView<T>> {
        self.by_date@.map_values(|i: usize| self.indexes@[i as int]@)
    }
}

impl<T> TermStructureStore<T> {
    pub closed spec fn wf(&self) -> bool {
        &&& self.by_date.wf()
        &&& slots_below(self.by_date@, self.indexes@.len())
        &&& forall|a: Date, b: Date| #[trigger] self.by_date@.contains_key(a) && #[trigger] self.by_date@.contains_key(b) && a != b
            ==> self.by_date@[a] != self.by_date@[b]
        &&& forall|i: int| 0 <= i < self.indexes@.len() ==> #[trigger] self.indexes@[i].wf()
    }

    /// No curve for any date.
    pub fn new() -> (r: TermStructureStore<T>)
        ensures
            r.wf(),
            r@ == Map::<Date, IndexesView<T>>::empty(),
    {
        let r = TermStructureStore { by_date: AssocMap::new(), indexes: Vec::new() };
        assert(r@ =~= Map::empty());
        r
    }

    /// Adds a curve to those of `reference_date`, as `add_curve` says.
    pub fn add_term_structure(&mut self, reference_date: Date, curve: TermStructure<T>) -> (r: Result<(), ScriptingError>)
        requires
            old(self).wf(),
        ensures
            final(self).wf(),
            ({
                let before = if old(self)@.contains_key(reference_date) {
                    old(self)@[reference_date]
                } else {
                    empty_indexes::<T>()
                };
                &&& final(self)@ == old(self)@.insert(reference_date, add_curve(before, curve).0)
                &&& match add_curve(before, curve).1 {
                    Ok(()) => r is Ok,
                    Err(k) => r matches Err(e) && e.kind() == k,
                }
            }),
    {
        let ghost s0 = self@;
        let slot = match self.by_date.get(&reference_date) {
            Some(i) => *i,
            None => {
                let i = self.indexes.len();
                self.indexes.push(IndexesForDate::new());
                let _ = self.by_date.insert(reference_date, i);
                assert forall|d: Date| #[trigger] self.by_date@.contains_key(d) && d != reference_date implies
                    self.by_date@[d] < i by {}
                assert(self@ =~= s0.insert(reference_date, empty_indexes::<T>())) by {
                    assert forall|d: Date| self@.contains_key(d) && d != reference_date implies
                        #[trigger] self@[d] == s0[d] by {
                        assert(self.indexes@[self.by_date@[d] as int] == old(self).indexes@[self.by_date@[d] as int]);
                    }
                }
                i
            },
        };
        let ghost s1 = self@;
        assert(s1.contains_key(reference_date) && self.by_date@[reference_date] == slot);
        assert(self.indexes@[slot as int].wf());
        let r = self.indexes[slot].add(curve);
        proof {
            assert forall|i: int| 0 <= i < self.indexes@.len() implies #[trigger] self.indexes@[i].wf() by {}
            assert forall|d: Date| self@.contains_key(d) && d != reference_date implies #[trigger] self@[d] == s1[d] by {
                assert(self.by_date@[d] != slot);
            }
            assert(self@ =~= s0.insert(reference_date, add_curve(s1[reference_date], curve).0));
        }
        r
    }

    /// The curves of `reference_date`.
    pub fn get_term_structures(&self, reference_date: Date) -> (r: Result<&IndexesForDate<T>, ScriptingError>)
        requires
            self.wf(),
        ensures
            match r {
                Ok(x) => self@.contains_key(reference_date) && x@ == self@[reference_date] && x.wf(),
                Err(e) => !self@.contains_key(reference_date) && e.kind() == ErrorKind::NotFound,
            },
    {
        match self.by_date.get(&reference_date) {
            Some(i) => Ok(&self.indexes[*i]),
            None => Err(ScriptingError::NotFoundError("no term structures found for the reference date".to_owned())),
        }
    }

    /// Forgets every curve.
    pub fn clear(&mut self)
        ensures
            final(self).wf(),
            final(self)@ == Map::<Date, IndexesView<T>>::empty(),
    {
        self.by_date.clear();
        self.indexes.clear();
        assert(self@ =~= Map::empty());
    }
}

/// After adding a curve, it is found under its key whether or not the add was refused; an
/// accepted risk-free curve is found under its currency, an accepted named curve under its
/// name; other keys, currencies and names keep their curves.
pub proof fn lemma_add_curve_lookup<T>(v: IndexesView<T>, c: TermStructure<T>)
    ensures
        ({
            let (w, r) = add_curve(v, c);
            let k = c.spec_key();
            &&& w.by_key.contains_key(k.key_view()) && w.by_key[k.key_view()] == c
            &&& r is Ok && k.is_risk_free ==> w.by_currency.contains_key(k.currency) && w.by_currency[k.currency] == c
            &&& r is Ok && k.name is Some ==> w.by_name.contains_key(k.name.unwrap()@) && w.by_name[k.name.unwrap()@] == c
            &&& forall|x: (Option<Seq<char>>, Currency, bool)| x != k.key_view() && #[trigger] v.by_key.contains_key(x)
                ==> w.by_key.contains_key(x) && w.by_key[x] == v.by_key[x]
            &&& forall|x: Currency| x != k.currency && #[trigger] v.by_currency.contains_key(x)
                ==> w.by_currency.contains_key(x) && w.by_currency[x] == v.by_currency[x]
            &&& forall|x: Seq<char>| name_view(k.name) != Some(x) && #[trigger] v.by_name.contains_key(x)
                ==> w.by_name.contains_key(x) && w.by_name[x] == v.by_name[x]
        }),
{
}

/// A curve is refused exactly when its key is taken, or it is a second risk-free curve of
/// its currency.
pub proof fn lemma_add_curve_refused<T>(v: IndexesView<T>, c: TermStructure<T>)
    ensures
        add_curve(v, c).1 is Err <==> (v.by_key.contains_key(c.spec_key().key_view())
            || (c.spec_key().is_risk_free && v.by_currency.contains_key(c.spec_key().currency))),
{
}

/// Only risk-free curves are found by currency: adding a curve that is not risk-free leaves
/// the by-currency index as it was, adding a risk-free one changes at most the entry of its
/// own currency, and when every curve found by currency is risk-free and of that currency,
/// this stays so after any addition.
pub proof fn lemma_add_curve_by_currency<T>(v: IndexesView<T>, c: TermStructure<T>)
    ensures
        !c.spec_key().is_risk_free ==> add_curve(v, c).0.by_currency == v.by_currency,
        forall|x: Currency| x != c.spec_key().currency ==> #[trigger] add_curve(v, c).0.by_currency.contains_key(x)
            == v.by_currency.contains_key(x),
        (forall|x: Currency| #[trigger] v.by_currency.contains_key(x)
            ==> v.by_currency[x].spec_key().is_risk_free && v.by_currency[x].spec_key().currency == x)
            ==> (forall|x: Currency| #[trigger] add_curve(v, c).0.by_currency.contains_key(x)
                ==> add_curve(v, c).0.by_currency[x].spec_key().is_risk_free
                    && add_curve(v, c).0.by_currency[x].spec_key().currency == x),
{
}

} // verus!
