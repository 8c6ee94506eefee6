use lefi::assoc::AssocMap;
use lefi::currency::Currency;
use lefi::date::Date;
use lefi::error::ScriptingError;
use lefi::marketdata::{create_historical_data, FxParity};
use lefi::node::Node;
use lefi::requests::{
    Compounding, DiscountFactorRequest, EquityRequest, ExchangeRateRequest, ForwardRateRequest, Frequency,
    SimulationDataRequest,
};
use lefi::simdata::SimulationData;
use lefi::termstructure::{DayCounter, Interpolator, TermStructure, TermStructureKey, TermStructureStore};

fn curve(ccy: Currency, risk_free: bool, name: Option<&str>, rate: f64) -> TermStructure<f64> {
    TermStructure::new(
        TermStructureKey::new(ccy, risk_free, name.map(|n| n.to_string())),
        vec![(Date::new(2024, 1, 2), rate), (Date::new(2025, 1, 2), rate)],
        Interpolator::Linear,
        true,
        DayCounter::Actual360,
        Compounding::Simple,
        Frequency::Annual,
    )
}

#[test]
fn currency_codes_round_trip() {
    for c in [Currency::USD, Currency::EUR, Currency::CLP, Currency::CLF, Currency::JPY, Currency::KRW] {
        assert_eq!(Currency::from_code(c.code()), Some(c));
    }
    assert_eq!(Currency::USD.code(), "USD");
    assert_eq!(Currency::from_code("CLF"), Some(Currency::CLF));
    assert_eq!(Currency::from_code("usd"), None);
    assert_eq!(Currency::from_code("XYZ"), None);
    assert_eq!(Currency::from_code(""), None);
}

#[test]
fn currency_positions_are_distinct() {
    assert_eq!(Currency::USD.position(), 0);
    assert_eq!(Currency::KRW.position(), 23);
    assert_ne!(Currency::CLP.position(), Currency::CLF.position());
}

#[test]
fn dates_and_calendar() {
    assert!(Date::leap_year(2024));
    assert!(!Date::leap_year(1900));
    assert!(Date::leap_year(2000));
    assert_eq!(Date::month_length(2024, 2), 29);
    assert_eq!(Date::month_length(2023, 2), 28);
    assert_eq!(Date::month_length(2023, 4), 30);
    assert_eq!(Date::try_new(2023, 2, 29), None);
    assert_eq!(Date::try_new(2024, 2, 29), Some(Date::new(2024, 2, 29)));
    assert_eq!(Date::try_new(2024, 13, 1), None);
    let d = Date::new(2025, 6, 1);
    assert_eq!((d.year(), d.month(), d.day()), (2025, 6, 1));
    assert!(Date::new(2024, 12, 31) < Date::new(2025, 1, 1));
    assert_eq!(Date::empty(), Date::new(1970, 1, 1));
}

#[test]
fn assoc_map_insert_get() {
    let mut m: AssocMap<String, i32> = AssocMap::new();
    assert_eq!(m.insert("a".to_string(), 1), None);
    assert_eq!(m.insert("b".to_string(), 2), None);
    assert_eq!(m.insert("a".to_string(), 3), Some(1));
    assert_eq!(m.len(), 2);
    assert_eq!(m.get(&"a".to_string()), Some(&3));
    assert!(m.contains_key(&"b".to_string()));
    assert!(!m.contains_key(&"c".to_string()));
    assert_eq!(m.entries()[0].0, "a");
    m.clear();
    assert_eq!(m.len(), 0);
}

#[test]
fn simulation_data_lookups() {
    let s = SimulationData::new(1.5, vec![0.9, 0.8], vec![0.02], vec![800.0], vec![]);
    assert_eq!(s.numerarie(), 1.5);
    assert_eq!(s.get_df(1).unwrap(), 0.8);
    assert_eq!(s.get_fwd(0).unwrap(), 0.02);
    assert_eq!(s.get_fx(0).unwrap(), 800.0);
    assert!(matches!(s.get_df(2), Err(ScriptingError::NotFoundError(_))));
    assert!(matches!(s.get_fwd(1), Err(ScriptingError::NotFoundError(_))));
    assert!(matches!(s.get_fx(5), Err(ScriptingError::NotFoundError(_))));
    assert!(matches!(s.get_equity(0), Err(ScriptingError::NotFoundError(_))));
}

#[test]
fn simulation_data_request_pushes() {
    let d = Date::new(2024, 1, 2);
    let mut r = SimulationDataRequest::new();
    r.push_df(DiscountFactorRequest::new("local".to_string(), d, d));
    r.push_fwd(ForwardRateRequest::new("SOFR".to_string(), d, d, Date::new(2024, 4, 2), Compounding::Simple, Frequency::Quarterly));
    r.push_fx(ExchangeRateRequest::new(Currency::USD, Currency::CLP, d));
    r.push_equity(EquityRequest::new("AAPL".to_string(), d));
    assert_eq!(r.dfs().len(), 1);
    assert_eq!(r.fwds()[0].end_date(), Date::new(2024, 4, 2));
    assert_eq!(r.fxs()[0].second_currency(), Currency::CLP);
    assert_eq!(r.equities()[0].equity_id(), "AAPL");
    let c = r.copy();
    assert_eq!(c, r);
}

#[test]
fn term_structure_keeps_last_value_of_a_pillar() {
    let ts = TermStructure::new(
        TermStructureKey::new(Currency::USD, true, None),
        vec![(Date::new(2024, 1, 2), 0.01), (Date::new(2024, 1, 2), 0.02)],
        Interpolator::LogLinear,
        false,
        DayCounter::Actual365,
        Compounding::Continuous,
        Frequency::Annual,
    );
    assert_eq!(ts.values().len(), 1);
    assert_eq!(ts.values().get(&Date::new(2024, 1, 2)), Some(&0.02));
    assert_eq!(ts.interpolation(), Interpolator::LogLinear);
    assert!(!ts.enable_extrapolation());
    assert_eq!(ts.day_counter(), DayCounter::Actual365);
}

#[test]
fn term_structure_store_lookups() {
    let d = Date::new(2024, 1, 2);
    let mut store = TermStructureStore::new();
    store.add_term_structure(d, curve(Currency::USD, true, Some("SOFR"), 0.05)).unwrap();
    store.add_term_structure(d, curve(Currency::CLP, false, Some("CAM"), 0.06)).unwrap();
    let idx = store.get_term_structures(d).unwrap();
    assert_eq!(idx.get_all().len(), 2);
    assert!(idx.get_by_currency(Currency::USD).is_some());
    assert!(idx.get_by_currency(Currency::CLP).is_none());
    assert_eq!(idx.get_by_name("CAM").unwrap().key().currency, Currency::CLP);
    let k = TermStructureKey::new(Currency::USD, true, Some("SOFR".to_string()));
    assert!(idx.get_by_key(&k).is_some());
    assert!(matches!(store.get_term_structures(Date::new(2024, 1, 3)), Err(ScriptingError::NotFoundError(_))));
    store.clear();
    assert!(store.get_term_structures(d).is_err());
}

#[test]
fn term_structure_store_rejects_duplicates() {
    let d = Date::new(2024, 1, 2);
    let mut store = TermStructureStore::new();
    store.add_term_structure(d, curve(Currency::USD, true, Some("SOFR"), 0.05)).unwrap();
    let dup = store.add_term_structure(d, curve(Currency::USD, true, Some("SOFR"), 0.04));
    assert!(matches!(dup, Err(ScriptingError::InvalidOperation(_))));
    let second_rf = store.add_term_structure(d, curve(Currency::USD, true, Some("OIS"), 0.03));
    assert!(matches!(second_rf, Err(ScriptingError::InvalidOperation(_))));
    // the same curve on another date is fine
    store.add_term_structure(Date::new(2024, 1, 3), curve(Currency::USD, true, Some("SOFR"), 0.05)).unwrap();
}

#[test]
fn node_children_and_add_child() {
    let mut add = Node::new_add();
    add.add_child(Node::new_variable("x".to_string()));
    add.add_child(Node::new_true());
    assert_eq!(add.children().len(), 2);
    assert_eq!(add.children()[1], Node::new_true());
    let leaf = Node::new_variable("y".to_string());
    assert!(leaf.children().is_empty());
}

#[test]
fn error_messages() {
    let e = ScriptingError::NotFoundError("no curve".to_string());
    assert_eq!(e.message(), "no curve");
    let e = ScriptingError::InvalidOperation("dup".to_string());
    assert_eq!(e.message(), "dup");
}

#[test]
fn iso_dates_are_read() {
    assert_eq!(Date::from_iso("2025-06-01"), Some(Date::new(2025, 6, 1)));
    assert_eq!(Date::from_iso("2024-02-29"), Some(Date::new(2024, 2, 29)));
    assert_eq!(Date::from_iso("2023-02-29"), None);
    assert_eq!(Date::from_iso("2025-6-01"), None);
    assert_eq!(Date::from_iso("2025/06/01"), None);
    assert_eq!(Date::from_iso("20a5-06-01"), None);
    assert_eq!(Date::from_iso(""), None);
}

#[test]
fn day_counts() {
    let a = Date::new(2020, 1, 1);
    let b = Date::new(2020, 6, 1);
    assert_eq!(a.days_until(&b), 152);
    assert_eq!(b.days_until(&a), -152);
    assert_eq!(a.days_until(&a), 0);
    assert_eq!(Date::new(2023, 12, 31).days_until(&Date::new(2025, 1, 1)), 367);
    assert_eq!(Date::new(1970, 1, 1).days_until(&Date::new(2000, 1, 1)), 10957);
}

#[test]
fn day_counter_names() {
    assert_eq!(DayCounter::from_name("Actual360"), Some(DayCounter::Actual360));
    assert_eq!(DayCounter::from_name("Actual365"), Some(DayCounter::Actual365));
    assert_eq!(DayCounter::from_name("Thirty360"), Some(DayCounter::Thirty360));
    assert_eq!(DayCounter::from_name("ActualActual"), Some(DayCounter::ActualActual));
    assert_eq!(DayCounter::from_name("actual360"), None);
}

#[test]
fn iso_dates_are_written_and_read_back() {
    let d = Date::new(2025, 6, 1);
    assert_eq!(d.to_iso(), "2025-06-01");
    assert_eq!(Date::new(987, 12, 31).to_iso(), "0987-12-31");
    for d in [Date::new(2024, 2, 29), Date::new(1, 1, 1), Date::new(9999, 12, 31)] {
        assert_eq!(Date::from_iso(&d.to_iso()), Some(d));
    }
}

#[test]
fn historical_data_is_built_from_parities_and_curves() {
    let d = Date::new(2024, 1, 2);
    let fx = vec![
        FxParity { reference_date: d, weak: Currency::CLP, strong: Currency::USD, value: 0.00125, vol: 0.1 },
        FxParity { reference_date: d, weak: Currency::CLP, strong: Currency::USD, value: 0.0011, vol: 0.2 },
        FxParity { reference_date: d, weak: Currency::EUR, strong: Currency::USD, value: 1.1, vol: 0.05 },
    ];
    let curves = vec![curve(Currency::USD, true, Some("usd"), 0.05), curve(Currency::USD, true, Some("usd"), 0.06)];
    let data = create_historical_data(d, &fx, curves);
    let quotes = data.exchange_rates().get_exchange_rates(d).unwrap();
    assert_eq!(quotes.get(&(Currency::CLP, Currency::USD)), Some(&0.0011));
    assert_eq!(quotes.get(&(Currency::EUR, Currency::USD)), Some(&1.1));
    assert_eq!(data.volatilities().get_fx_volatility(d, Currency::CLP, Currency::USD).unwrap(), 0.2);
    assert_eq!(data.volatilities().get_fx_volatility(d, Currency::EUR, Currency::USD).unwrap(), 0.05);
    assert!(data.fixings().get_fixing(d, &"x".to_string()).is_none());
    let ts = data.term_structures().get_term_structures(d).unwrap();
    assert!(ts.get_by_name("usd").is_some());
    assert!(data.term_structures().get_term_structures(Date::new(2024, 1, 3)).is_err());
}

#[test]
fn years_outside_four_digits_are_written_with_a_sign() {
    assert_eq!(Date::new(10000, 1, 1).to_iso(), "+10000-01-01");
    assert_eq!(Date::new(-1, 3, 4).to_iso(), "-0001-03-04");
    assert_eq!(Date::new(-12345, 11, 30).to_iso(), "-12345-11-30");
    assert_eq!(Date::new(0, 2, 29).to_iso(), "0000-02-29");
    assert_eq!(Date::new(9999, 12, 31).to_iso(), "9999-12-31");
    assert_eq!(Date::from_iso("+10000-01-01"), None);
}
