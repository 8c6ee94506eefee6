use vstd::prelude::*;

use crate::assoc::AssocMap;
use crate::currency::Currency;
use crate::date::Date;
use crate::dated::{table_or_empty, DatedMap};
use crate::error::{ErrorKind, ScriptingError};
use crate::fxpath::{conversion_path, connected, is_conversion_path, is_shortest_conversion, no_shorter, ConversionStep};
use crate::termstructure::{add_curve, empty_indexes, IndexesView, TermStructure, TermStructureStore};

verus! {

/// How to convert `ccy1` into `ccy2` with the quotes of one date: nothing to do for equal
/// currencies; the direct quote `(ccy1, ccy2)` where there is one; else the inverse quote
/// `(ccy2, ccy1)`; else a chain of as few quotes as possible, found breadth first. Fails
/// with `NotFound` exactly when no chain of quotes joins the two currencies.
pub fn triangulate_currencies<V>(
    exchange_rates: &AssocMap<(Currency, Currency), V>,
    ccy1: Currency,
    ccy2: Currency,
) -> (r: Result<Vec<ConversionStep>, ScriptingError>)
    requires
        exchange_rates.wf(),
    ensures
        r is Ok <==> connected(exchange_rates@, ccy1, ccy2),
        match r {
            Ok(p) => {
                &&& is_shortest_conversion(exchange_rates@, ccy1, ccy2, p@)
                &&& ccy1 == ccy2 ==> p@.len() == 0
                &&& ccy1 != ccy2 && exchange_rates@.contains_key((ccy1, ccy2))
                    ==> p@ == seq![ConversionStep { base: ccy1, terms: ccy2, inverted: false }]
                &&& ccy1 != ccy2 && !exchange_rates@.contains_key((ccy1, ccy2)) && exchange_rates@.contains_key((ccy2, ccy1))
                    ==> p@ == seq![ConversionStep { base: ccy2, terms: ccy1, inverted: true }]
            },
            Err(e) => e.kind() == ErrorKind::NotFound,
        },
{
    if ccy1 == ccy2 {
        let p: Vec<ConversionStep> = Vec::new();
        assert(is_conversion_path(exchange_rates@, ccy1, ccy2, p@));
        assert(no_shorter(exchange_rates@, ccy1, ccy2, 0));
        return Ok(p);
    }
    if exchange_rates.contains_key(&(ccy1, ccy2)) {
        let mut p: Vec<ConversionStep> = Vec::new();
        p.push(ConversionStep { base: ccy1, terms: ccy2, inverted: false });
        assert(p@.drop_last() =~= Seq::<ConversionStep>::empty());
        assert(is_conversion_path(exchange_rates@, ccy1, ccy1, p@.drop_last()));
        assert(is_conversion_path(exchange_rates@, ccy1, ccy2, p@));
        assert(no_shorter(exchange_rates@, ccy1, ccy2, 1));
        return Ok(p);
    }
    if exchange_rates.contains_key(&(ccy2, ccy1)) {
        let mut p: Vec<ConversionStep> = Vec::new();
        p.push(ConversionStep { base: ccy2, terms: ccy1, inverted: true });
        assert(p@.drop_last() =~= Seq::<ConversionStep>::empty());
        assert(is_conversion_path(exchange_rates@, ccy1, ccy1, p@.drop_last()));
        assert(is_conversion_path(exchange_rates@, ccy1, ccy2, p@));
        assert(no_shorter(exchange_rates@, ccy1, ccy2, 1));
        return Ok(p);
    }
    match conversion_path(exchange_rates, ccy1, ccy2) {
        Some(p) => Ok(p),
        None => Err(ScriptingError::NotFoundError("unable to triangulate the two currencies".to_owned())),
    }
}

/// Exchange-rate quotes per reference date: the quote `(from, to)` is the price of one
/// unit of `from` in `to`. Beside the quotes stands a cache of the rates already worked
/// out, per date and currency pair; a new quote does not clear it.
pub struct ExchangeRates<V> {
    exchange_rates: DatedMap<(Currency, Currency), V>,
    exchange_rate_cache: DatedMap<(Currency, Currency), V>,
}

/// What a rate between two currencies is worked out from: nothing for equal currencies, a
/// rate cached earlier, or a chain of quotes.
pub enum RateLookup<V> {
    Same,
    Cached(V),
    Path(Vec<ConversionStep>),
}

/// The cache after `rate` was stored for `(first_ccy, second_ccy)` on `date`, then
/// `inverse` for `(second_ccy, first_ccy)`.
pub open spec fn cache_with_rates<V>(
    cache: Map<Date, Map<(Currency, Currency), V>>,
    date: Date,
    first_ccy: Currency,
    second_ccy: Currency,
    rate: V,
    inverse: V,
) -> Map<Date, Map<(Currency, Currency), V>> {
    let c1 = cache.insert(date, table_or_empty(cache, date).insert((first_ccy, second_ccy), rate));
    c1.insert(date, table_or_empty(c1, date).insert((second_ccy, first_ccy), inverse))
}

/// Once a rate and its inverse are remembered for two different currencies, the pair
/// gives back the rate, the reversed pair the inverse, and every other date's cached
/// rates are as they were.
pub proof fn lemma_remembered_rates<V>(
    cache: Map<Date, Map<(Currency, Currency), V>>,
    date: Date,
    first_ccy: Currency,
    second_ccy: Currency,
    rate: V,
    inverse: V,
    other: Date,
)
    requires
        first_ccy != second_ccy,
    ensures
        ({
            let c = cache_with_rates(cache, date, first_ccy, second_ccy, rate, inverse);
            &&& c.contains_key(date)
            &&& c[date].contains_key((first_ccy, second_ccy)) && c[date][(first_ccy, second_ccy)] == rate
            &&& c[date].contains_key((second_ccy, first_ccy)) && c[date][(second_ccy, first_ccy)] == inverse
            &&& other != date ==> table_or_empty(c, other) == table_or_empty(cache, other)
        }),
{
}

impl<V> ExchangeRates<V> {
    pub closed spec fn wf(&self) -> bool {
        self.exchange_rates.wf() && self.exchange_rate_cache.wf()
    }

    /// The quotes, per date and currency pair.
    pub closed spec fn spec_quotes(&self) -> Map<Date, Map<(Currency, Currency), V>> {
        self.exchange_rates@
    }

    /// The rates worked out so far, per date and currency pair.
    pub closed spec fn spec_cache(&self) -> Map<Date, Map<(Currency, Currency), V>> {
        self.exchange_rate_cache@
    }

    /// No quote, nothing cached.
    pub fn new() -> (r: Self)
        ensures
            r.wf(),
            r.spec_quotes() == Map::<Date, Map<(Currency, Currency), V>>::empty(),
            r.spec_cache() == Map::<Date, Map<(Currency, Currency), V>>::empty(),
    {
        ExchangeRates { exchange_rates: DatedMap::new(), exchange_rate_cache: DatedMap::new() }
    }

    /// Records the quote `(from_currency, to_currency)` of `reference_date`, replacing an
    /// earlier one. The cache is left as it is.
    pub fn add_exchange_rate(&mut self, reference_date: Date, from_currency: Currency, to_currency: Currency, rate: V)
        requires
            old(self).wf(),
        ensures
            final(self).wf(),
            final(self).spec_quotes() == old(self).spec_quotes().insert(
                reference_date,
                table_or_empty(old(self).spec_quotes(), reference_date).insert((from_currency, to_currency), rate),
            ),
            final(self).spec_cache() == old(self).spec_cache(),
    {
        self.exchange_rates.insert(reference_date, (from_currency, to_currency), rate);
    }

    /// The quotes of `reference_date`.
    pub fn get_exchange_rates(&self, reference_date: Date) -> (r: Result<&AssocMap<(Currency, Currency), V>, ScriptingError>)
        requires
            self.wf(),
        ensures
            match r {
                Ok(t) => self.spec_quotes().contains_key(reference_date) && t.wf() && t@ == self.spec_quotes()[reference_date],
                Err(e) => !self.spec_quotes().contains_key(reference_date) && e.kind() == ErrorKind::NotFound,
            },
    {
        match self.exchange_rates.table(&reference_date) {
            Some(t) => Ok(t),
            None => Err(ScriptingError::NotFoundError("no exchange rates found for the reference date".to_owned())),
        }
    }

    /// How to convert `first_ccy` into `second_ccy` on `reference_date`: nothing to do for
    /// equal currencies; else a chain of as few of that date's quotes as possible, found
    /// breadth first. Fails with `NotFound` when the date has no quote, or no chain joins
    /// the two currencies. The cache is not read.
    pub fn conversion_path(&self, reference_date: Date, first_ccy: Currency, second_ccy: Currency) -> (r: Result<Vec<ConversionStep>, ScriptingError>)
        requires
            self.wf(),
        ensures
            first_ccy == second_ccy ==> (r matches Ok(p) && p@.len() == 0),
            first_ccy != second_ccy ==> (r is Ok <==> self.spec_quotes().contains_key(reference_date)
                && connected(self.spec_quotes()[reference_date], first_ccy, second_ccy)),
            match r {
                Ok(p) => first_ccy != second_ccy ==> is_shortest_conversion(self.spec_quotes()[reference_date], first_ccy, second_ccy, p@),
                Err(e) => e.kind() == ErrorKind::NotFound,
            },
    {
        if first_ccy == second_ccy {
            let p: Vec<ConversionStep> = Vec::new();
            return Ok(p);
        }
        let storage = match self.exchange_rates.table(&reference_date) {
            Some(t) => t,
            None => {
                return Err(ScriptingError::NotFoundError("no exchange rates found for the reference date".to_owned()));
            },
        };
        match conversion_path(storage, first_ccy, second_ccy) {
            Some(p) => Ok(p),
            None => Err(ScriptingError::NotFoundError("no exchange rate found between the two currencies".to_owned())),
        }
    }

    /// Stores `rate` as the cached rate of `(first_ccy, second_ccy)` on `reference_date`,
    /// then `inverse` as that of `(second_ccy, first_ccy)`. The quotes are left as they are.
    pub fn remember_rate(&mut self, reference_date: Date, first_ccy: Currency, second_ccy: Currency, rate: V, inverse: V)
        requires
            old(self).wf(),
        ensures
            final(self).wf(),
            final(self).spec_quotes() == old(self).spec_quotes(),
            final(self).spec_cache() == cache_with_rates(old(self).spec_cache(), reference_date, first_ccy, second_ccy, rate, inverse),
    {
        self.exchange_rate_cache.insert(reference_date, (first_ccy, second_ccy), rate);
        self.exchange_rate_cache.insert(reference_date, (second_ccy, first_ccy), inverse);
    }
}

impl<V: Copy> ExchangeRates<V> {
    /// What the rate of `first_ccy` in `second_ccy` on `reference_date` is worked out from:
    /// `Same` for equal currencies; else `NotFound` when the date has no quote; else the
    /// rate cached for the pair on that date, where there is one; else a chain of as few of
    /// that date's quotes as possible, or `NotFound` when no chain joins the two currencies.
    pub fn exchange_rate_lookup(&self, reference_date: Date, first_ccy: Currency, second_ccy: Currency) -> (r: Result<RateLookup<V>, ScriptingError>)
        requires
            self.wf(),
        ensures
            first_ccy == second_ccy ==> r matches Ok(RateLookup::Same),
            first_ccy != second_ccy && !self.spec_quotes().contains_key(reference_date)
                ==> (r matches Err(e) && e.kind() == ErrorKind::NotFound),
            first_ccy != second_ccy && self.spec_quotes().contains_key(reference_date)
                && table_or_empty(self.spec_cache(), reference_date).contains_key((first_ccy, second_ccy))
                ==> (r matches Ok(RateLookup::Cached(v)) && v == self.spec_cache()[reference_date][(first_ccy, second_ccy)]),
            first_ccy != second_ccy && self.spec_quotes().contains_key(reference_date)
                && !table_or_empty(self.spec_cache(), reference_date).contains_key((first_ccy, second_ccy))
                ==> {
                    &&& (r is Ok <==> connected(self.spec_quotes()[reference_date], first_ccy, second_ccy))
                    &&& match r {
                        Ok(l) => (l matches RateLookup::Path(p)
                            && is_shortest_conversion(self.spec_quotes()[reference_date], first_ccy, second_ccy, p@)),
                        Err(e) => e.kind() == ErrorKind::NotFound,
                    }
                },
    {
        if first_ccy == second_ccy {
            return Ok(RateLookup::Same);
        }
        let storage = match self.exchange_rates.table(&reference_date) {
            Some(t) => t,
            None => {
                return Err(ScriptingError::NotFoundError("no exchange rates found for the reference date".to_owned()));
            },
        };
        match self.exchange_rate_cache.get(&reference_date, &(first_ccy, second_ccy)) {
            Some(v) => {
                return Ok(RateLookup::Cached(*v));
            },
            None => {},
        }
        match conversion_path(storage, first_ccy, second_ccy) {
            Some(p) => Ok(RateLookup::Path(p)),
            None => Err(ScriptingError::NotFoundError("no exchange rate found between the two currencies".to_owned())),
        }
    }
}

/// Fixings per reference date, by index name.
pub struct Fixings<V> {
    fixings: DatedMap<String, V>,
}

impl<V> View for Fixings<V> {
    type V = Map<Date, Map<Seq<char>, V>>;

    closed spec fn view(&self) -> Map<Date, Map<Seq<char>, V>> {
        self.fixings@
    }
}

impl<V: Copy> Fixings<V> {
    pub closed spec fn wf(&self) -> bool {
        self.fixings.wf()
    }

    /// No fixing.
    pub fn new() -> (r: Self)
        ensures
            r.wf(),
            r@ == Map::<Date, Map<Seq<char>, V>>::empty(),
    {
        Fixings { fixings: DatedMap::new() }
    }

    /// Records the fixing of `name` on `reference_date`, replacing an earlier one.
    pub fn add_fixing(&mut self, reference_date: Date, name: String, value: V)
        requires
            old(self).wf(),
        ensures
            final(self).wf(),
            final(self)@ == old(self)@.insert(reference_date, table_or_empty(old(self)@, reference_date).insert(name@, value)),
    {
        self.fixings.insert(reference_date, name, value);
    }

    /// The fixing of `name` on `reference_date`.
    pub fn get_fixing(&self, reference_date: Date, name: &String) -> (r: Option<V>)
        requires
            self.wf(),
        ensures
            match r {
                Some(v) => self@.contains_key(reference_date) && self@[reference_date].contains_key(name@)
                    && v == self@[reference_date][name@],
                None => !(self@.contains_key(reference_date) && self@[reference_date].contains_key(name@)),
            },
    {
        match self.fixings.get(&reference_date, name) {
            Some(v) => Some(*v),
            None => None,
        }
    }
}

/// Volatilities per reference date: of equities by name, of exchange rates by currency pair.
pub struct Volatilities<V> {
    equity_vol: DatedMap<String, V>,
    fx_vol: DatedMap<(Currency, Currency), V>,
}

impl<V: Copy> Volatilities<V> {
    pub closed spec fn wf(&self) -> bool {
        self.equity_vol.wf() && self.fx_vol.wf()
    }

    pub closed spec fn spec_equity_vol(&self) -> Map<Date, Map<Seq<char>, V>> {
        self.equity_vol@
    }

    pub closed spec fn spec_fx_vol(&self) -> Map<Date, Map<(Currency, Currency), V>> {
        self.fx_vol@
    }

    /// No volatility.
    pub fn new() -> (r: Self)
        ensures
            r.wf(),
            r.spec_equity_vol() == Map::<Date, Map<Seq<char>, V>>::empty(),
            r.spec_fx_vol() == Map::<Date, Map<(Currency, Currency), V>>::empty(),
    {
        Volatilities { equity_vol: DatedMap::new(), fx_vol: DatedMap::new() }
    }

    /// Records the volatility of `equity_id` on `reference_date`, replacing an earlier one.
    pub fn add_equity_volatility(&mut self, reference_date: Date, equity_id: String, volatility: V)
        requires
            old(self).wf(),
        ensures
            final(self).wf(),
            final(self).spec_equity_vol() == old(self).spec_equity_vol().insert(
                reference_date,
                table_or_empty(old(self).spec_equity_vol(), reference_date).insert(equity_id@, volatility),
            ),
            final(self).spec_fx_vol() == old(self).spec_fx_vol(),
    {
        self.equity_vol.insert(reference_date, equity_id, volatility);
    }

    /// The volatility of `equity_id` on `reference_date`.
    pub fn get_equity_volatility(&self, reference_date: Date, equity_id: &str) -> (r: Option<V>)
        requires
            self.wf(),
        ensures
            match r {
                Some(v) => self.spec_equity_vol().contains_key(reference_date)
                    && self.spec_equity_vol()[reference_date].contains_key(equity_id@)
                    && v == self.spec_equity_vol()[reference_date][equity_id@],
                None => !(self.spec_equity_vol().contains_key(reference_date)
                    && self.spec_equity_vol()[reference_date].contains_key(equity_id@)),
            },
    {
        let key = equity_id.to_owned();
        match self.equity_vol.get(&reference_date, &key) {
            Some(v) => Some(*v),
            None => None,
        }
    }

    /// Records the volatility of the pair `(from_currency, to_currency)` on
    /// `reference_date`, replacing an earlier one.
    pub fn add_fx_volatility(&mut self, reference_date: Date, from_currency: Currency, to_currency: Currency, volatility: V)
        requires
            old(self).wf(),
        ensures
            final(self).wf(),
            final(self).spec_fx_vol() == old(self).spec_fx_vol().insert(
                reference_date,
                table_or_empty(old(self).spec_fx_vol(), reference_date).insert((from_currency, to_currency), volatility),
            ),
            final(self).spec_equity_vol() == old(self).spec_equity_vol(),
    {
        self.fx_vol.insert(reference_date, (from_currency, to_currency), volatility);
    }

    /// The volatility of the pair `(from_currency, to_currency)` on `reference_date`.
    pub fn get_fx_volatility(&self, reference_date: Date, from_currency: Currency, to_currency: Currency) -> (r: Result<V, ScriptingError>)
        requires
            self.wf(),
        ensures
            match r {
                Ok(v) => self.spec_fx_vol().contains_key(reference_date)
                    && self.spec_fx_vol()[reference_date].contains_key((from_currency, to_currency))
                    && v == self.spec_fx_vol()[reference_date][(from_currency, to_currency)],
                Err(e) => e.kind() == ErrorKind::NotFound && !(self.spec_fx_vol().contains_key(reference_date)
                    && self.spec_fx_vol()[reference_date].contains_key((from_currency, to_currency))),
            },
    {
        match self.fx_vol.get(&reference_date, &(from_currency, to_currency)) {
            Some(v) => Ok(*v),
            None => Err(ScriptingError::NotFoundError("no FX volatility found for the currency pair and date".to_owned())),
        }
    }

    /// The FX volatilities of `reference_date`.
    pub fn get_fx_volatilities(&self, reference_date: Date) -> (r: Result<&AssocMap<(Currency, Currency), V>, ScriptingError>)
        requires
            self.wf(),
        ensures
            match r {
                Ok(t) => self.spec_fx_vol().contains_key(reference_date) && t.wf()
                    && t@ == self.spec_fx_vol()[reference_date],
                Err(e) => !self.spec_fx_vol().contains_key(reference_date) && e.kind() == ErrorKind::NotFound,
            },
    {
        match self.fx_vol.table(&reference_date) {
            Some(t) => Ok(t),
            None => Err(ScriptingError::NotFoundError("no FX volatilities found for the reference date".to_owned())),
        }
    }
}

/// All market data of the past: quotes, fixings, volatilities and curves.
pub struct HistoricalData<V> {
    exchange_rates: ExchangeRates<V>,
    fixings: Fixings<V>,
    volatilities: Volatilities<V>,
    term_structures: TermStructureStore<V>,
}

impl<V: Copy> HistoricalData<V> {
    pub closed spec fn spec_exchange_rates(&self) -> ExchangeRates<V> {
        self.exchange_rates
    }

    pub closed spec fn spec_fixings(&self) -> Fixings<V> {
        self.fixings
    }

    pub closed spec fn spec_volatilities(&self) -> Volatilities<V> {
        self.volatilities
    }

    pub closed spec fn spec_term_structures(&self) -> TermStructureStore<V> {
        self.term_structures
    }

    pub open spec fn wf(&self) -> bool {
        &&& self.spec_exchange_rates().wf()
        &&& self.spec_fixings().wf()
        &&& self.spec_volatilities().wf()
        &&& self.spec_term_structures().wf()
    }

    /// No data at all.
    pub fn new() -> (r: Self)
        ensures
            r.wf(),
            r.spec_exchange_rates().spec_quotes() == Map::<Date, Map<(Currency, Currency), V>>::empty(),
            r.spec_exchange_rates().spec_cache() == Map::<Date, Map<(Currency, Currency), V>>::empty(),
            r.spec_fixings()@ == Map::<Date, Map<Seq<char>, V>>::empty(),
            r.spec_volatilities().spec_equity_vol() == Map::<Date, Map<Seq<char>, V>>::empty(),
            r.spec_volatilities().spec_fx_vol() == Map::<Date, Map<(Currency, Currency), V>>::empty(),
            r.spec_term_structures()@ == Map::<Date, IndexesView<V>>::empty(),
    {
        HistoricalData {
            exchange_rates: ExchangeRates::new(),
            fixings: Fixings::new(),
            volatilities: Volatilities::new(),
            term_structures: TermStructureStore::new(),
        }
    }

    pub fn exchange_rates(&self) -> (r: &ExchangeRates<V>)
        ensures
            *r == self.spec_exchange_rates(),
    {
        &self.exchange_rates
    }

    pub fn fixings(&self) -> (r: &Fixings<V>)
        ensures
            *r == self.spec_fixings(),
    {
        &self.fixings
    }

    pub fn volatilities(&self) -> (r: &Volatilities<V>)
        ensures
            *r == self.spec_volatilities(),
    {
        &self.volatilities
    }

    pub fn term_structures(&self) -> (r: &TermStructureStore<V>)
        ensures
            *r == self.spec_term_structures(),
    {
        &self.term_structures
    }

    pub fn mut_exchange_rates(&mut self) -> (r: &mut ExchangeRates<V>)
        ensures
            *r == old(self).spec_exchange_rates(),
            final(self).spec_exchange_rates() == *final(r),
            final(self).spec_fixings() == old(self).spec_fixings(),
            final(self).spec_volatilities() == old(self).spec_volatilities(),
            final(self).spec_term_structures() == old(self).spec_term_structures(),
    {
        &mut self.exchange_rates
    }

    pub fn mut_fixings(&mut self) -> (r: &mut Fixings<V>)
        ensures
            *r == old(self).spec_fixings(),
            final(self).spec_fixings() == *final(r),
            final(self).spec_exchange_rates() == old(self).spec_exchange_rates(),
            final(self).spec_volatilities() == old(self).spec_volatilities(),
            final(self).spec_term_structures() == old(self).spec_term_structures(),
    {
        &mut self.fixings
    }

    pub fn mut_volatilities(&mut self) -> (r: &mut Volatilities<V>)
        ensures
            *r == old(self).spec_volatilities(),
            final(self).spec_volatilities() == *final(r),
            final(self).spec_exchange_rates() == old(self).spec_exchange_rates(),
            final(self).spec_fixings() == old(self).spec_fixings(),
            final(self).spec_term_structures() == old(self).spec_term_structures(),
    {
        &mut self.volatilities
    }

    pub fn mut_term_structures(&mut self) -> (r: &mut TermStructureStore<V>)
        ensures
            *r == old(self).spec_term_structures(),
            final(self).spec_term_structures() == *final(r),
            final(self).spec_exchange_rates() == old(self).spec_exchange_rates(),
            final(self).spec_fixings() == old(self).spec_fixings(),
            final(self).spec_volatilities() == old(self).spec_volatilities(),
    {
        &mut self.term_structures
    }
}

/// A quote of the market data: on `reference_date` one `weak` costs `value` units of
/// `strong`, with volatility `vol`.
pub struct FxParity<V> {
    pub reference_date: Date,
    pub weak: Currency,
    pub strong: Currency,
    pub value: V,
    pub vol: V,
}

/// The quotes after each parity of `fx`, in order, was recorded into `m`.
pub open spec fn quotes_after<V>(m: Map<Date, Map<(Currency, Currency), V>>, fx: Seq<FxParity<V>>) -> Map<Date, Map<(Currency, Currency), V>>
    decreases fx.len(),
{
    if fx.len() == 0 {
        m
    } else {
        let m1 = quotes_after(m, fx.drop_last());
        let p = fx.last();
        m1.insert(p.reference_date, table_or_empty(m1, p.reference_date).insert((p.weak, p.strong), p.value))
    }
}

/// The FX volatilities after each parity of `fx`, in order, was recorded into `m`.
pub open spec fn vols_after<V>(m: Map<Date, Map<(Currency, Currency), V>>, fx: Seq<FxParity<V>>) -> Map<Date, Map<(Currency, Currency), V>>
    decreases fx.len(),
{
    if fx.len() == 0 {
        m
    } else {
        let m1 = vols_after(m, fx.drop_last());
        let p = fx.last();
        m1.insert(p.reference_date, table_or_empty(m1, p.reference_date).insert((p.weak, p.strong), p.vol))
    }
}

/// The curves after each of `curves`, in order, was added to those of `date` in `m`.
pub open spec fn curves_after<V>(m: Map<Date, IndexesView<V>>, date: Date, curves: Seq<TermStructure<V>>) -> Map<Date, IndexesView<V>>
    decreases curves.len(),
{
    if curves.len() == 0 {
        m
    } else {
        let m1 = curves_after(m, date, curves.drop_last());
        let before = if m1.contains_key(date) { m1[date] } else { empty_indexes::<V>() };
        m1.insert(date, add_curve(before, curves.last()).0)
    }
}

/// Parity `j` comes later than parity `i` and quotes the same pair on the same date.
pub open spec fn overridden<V>(fx: Seq<FxParity<V>>, i: int, j: int) -> bool {
    &&& i < j < fx.len()
    &&& fx[j].reference_date == fx[i].reference_date
    &&& fx[j].weak == fx[i].weak
    &&& fx[j].strong == fx[i].strong
}

/// Each parity is recorded under its own date and pair: after recording a list of parities
/// into nothing, the quote and the volatility of a parity's pair on its date are the
/// parity's own, unless a later parity quotes the same pair on the same date.
pub proof fn lemma_parity_recorded<V>(fx: Seq<FxParity<V>>, i: int)
    requires
        0 <= i < fx.len(),
        forall|j: int| !#[trigger] overridden(fx, i, j),
    ensures
        ({
            let q = quotes_after(Map::empty(), fx);
            let w = vols_after(Map::empty(), fx);
            let key = (fx[i].weak, fx[i].strong);
            &&& q.contains_key(fx[i].reference_date) && q[fx[i].reference_date].contains_key(key)
            &&& q[fx[i].reference_date][key] == fx[i].value
            &&& w.contains_key(fx[i].reference_date) && w[fx[i].reference_date].contains_key(key)
            &&& w[fx[i].reference_date][key] == fx[i].vol
        }),
    decreases fx.len(),
{
    if i < fx.len() - 1 {
        let dl = fx.drop_last();
        assert forall|j: int| !#[trigger] overridden(dl, i, j) by {
            if overridden(dl, i, j) {
                assert(overridden(fx, i, j));
            }
        }
        lemma_parity_recorded(dl, i);
        assert(!overridden(fx, i, fx.len() - 1));
    }
}

/// A date and pair are quoted after recording a list of parities into nothing exactly when
/// some parity quotes that pair on that date; a date has quotes exactly when some parity
/// has that date. The volatilities are kept under the same dates and pairs.
pub proof fn lemma_parity_dates<V>(fx: Seq<FxParity<V>>, date: Date, pair: (Currency, Currency))
    ensures
        quotes_after(Map::empty(), fx).contains_key(date)
            <==> exists|j: int| 0 <= j < fx.len() && #[trigger] fx[j].reference_date == date,
        table_or_empty(quotes_after(Map::empty(), fx), date).contains_key(pair)
            <==> exists|j: int| 0 <= j < fx.len() && #[trigger] fx[j].reference_date == date
                && fx[j].weak == pair.0 && fx[j].strong == pair.1,
        vols_after(Map::empty(), fx).dom() == quotes_after(Map::empty(), fx).dom(),
        table_or_empty(vols_after(Map::empty(), fx), date).dom() == table_or_empty(quotes_after(Map::empty(), fx), date).dom(),
    decreases fx.len(),
{
    if fx.len() > 0 {
        let dl = fx.drop_last();
        lemma_parity_dates(dl, date, pair);
        let last = fx.len() - 1;
        assert forall|j: int| 0 <= j < dl.len() implies #[trigger] dl[j] == fx[j] by {}
        if exists|j: int| 0 <= j < dl.len() && #[trigger] dl[j].reference_date == date {
            let j = choose|j: int| 0 <= j < dl.len() && #[trigger] dl[j].reference_date == date;
            assert(fx[j].reference_date == date);
        }
        if exists|j: int| 0 <= j < dl.len() && #[trigger] dl[j].reference_date == date
            && dl[j].weak == pair.0 && dl[j].strong == pair.1 {
            let j = choose|j: int| 0 <= j < dl.len() && #[trigger] dl[j].reference_date == date
                && dl[j].weak == pair.0 && dl[j].strong == pair.1;
            assert(fx[j].reference_date == date);
        }
        if exists|j: int| 0 <= j < fx.len() && #[trigger] fx[j].reference_date == date {
            let j = choose|j: int| 0 <= j < fx.len() && #[trigger] fx[j].reference_date == date;
            if j < last {
                assert(dl[j].reference_date == date);
            }
        }
        if exists|j: int| 0 <= j < fx.len() && #[trigger] fx[j].reference_date == date
            && fx[j].weak == pair.0 && fx[j].strong == pair.1 {
            let j = choose|j: int| 0 <= j < fx.len() && #[trigger] fx[j].reference_date == date
                && fx[j].weak == pair.0 && fx[j].strong == pair.1;
            if j < last {
                assert(dl[j].reference_date == date);
            }
        }
        let q = quotes_after(Map::empty(), fx);
        let w = vols_after(Map::empty(), fx);
        assert(w.dom() =~= q.dom());
        assert(table_or_empty(w, date).dom() =~= table_or_empty(q, date).dom());
    } else {
        assert(quotes_after(Map::empty(), fx) =~= Map::<Date, Map<(Currency, Currency), V>>::empty());
        assert(vols_after(Map::empty(), fx) =~= Map::<Date, Map<(Currency, Currency), V>>::empty());
    }
}

/// Builds the market data of the past from its parts: each parity gives a quote and an FX
/// volatility of its date, in order, a later one replacing an earlier one of the same pair
/// and date; each curve is then added to those of `reference_date`, in order, a curve that
/// the store refuses being left out. No fixing, no equity volatility, nothing cached.
pub fn create_historical_data<V: Copy>(reference_date: Date, fx: &Vec<FxParity<V>>, curves: Vec<TermStructure<V>>) -> (r: HistoricalData<V>)
    ensures
        r.wf(),
        r.spec_exchange_rates().spec_quotes() == quotes_after(Map::empty(), fx@),
        r.spec_exchange_rates().spec_cache() == Map::<Date, Map<(Currency, Currency), V>>::empty(),
        r.spec_volatilities().spec_fx_vol() == vols_after(Map::empty(), fx@),
        r.spec_volatilities().spec_equity_vol() == Map::<Date, Map<Seq<char>, V>>::empty(),
        r.spec_fixings()@ == Map::<Date, Map<Seq<char>, V>>::empty(),
        r.spec_term_structures()@ == curves_after(Map::empty(), reference_date, curves@),
{
    let mut rates: ExchangeRates<V> = ExchangeRates::new();
    let mut vols: Volatilities<V> = Volatilities::new();
    let n = fx.len();
    let mut i: usize = 0;
    while i < n
        invariant
            n == fx@.len(),
            i <= n,
            rates.wf(),
            vols.wf(),
            rates.spec_quotes() == quotes_after(Map::empty(), fx@.take(i as int)),
            rates.spec_cache() == Map::<Date, Map<(Currency, Currency), V>>::empty(),
            vols.spec_fx_vol() == vols_after(Map::empty(), fx@.take(i as int)),
            vols.spec_equity_vol() == Map::<Date, Map<Seq<char>, V>>::empty(),
        decreases n - i,
    {
        assert(fx@.take(i + 1).drop_last() =~= fx@.take(i as int));
        assert(fx@.take(i + 1).last() == fx@[i as int]);
        let p = &fx[i];
        rates.add_exchange_rate(p.reference_date, p.weak, p.strong, p.value);
        vols.add_fx_volatility(p.reference_date, p.weak, p.strong, p.vol);
        i = i + 1;
    }
    assert(fx@.take(n as int) =~= fx@);
    let mut store: TermStructureStore<V> = TermStructureStore::new();
    let ghost all = curves@;
    let mut rest = curves;
    let m = rest.len();
    let mut j: usize = 0;
    while j < m
        invariant
            m == all.len(),
            j <= m,
            rest@ == all.skip(j as int),
            store.wf(),
            store@ == curves_after(Map::empty(), reference_date, all.take(j as int)),
        decreases m - j,
    {
        assert(all.take(j + 1).drop_last() =~= all.take(j as int));
        assert(all.take(j + 1).last() == all[j as int]);
        let c = rest.remove(0);
        assert(rest@ =~= all.skip(j + 1));
        let _ = store.add_term_structure(reference_date, c);
        j = j + 1;
    }
    assert(all.take(m as int) =~= all);
    HistoricalData {
        exchange_rates: rates,
        fixings: Fixings::new(),
        volatilities: vols,
        term_structures: store,
    }
}

} // verus!
