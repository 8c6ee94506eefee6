use lefi::assoc::AssocMap;
use lefi::currency::Currency;
use lefi::date::Date;
use lefi::error::ScriptingError;
use lefi::fxpath::{conversion_path, ConversionStep};
use lefi::marketdata::{triangulate_currencies, ExchangeRates, Fixings, HistoricalData, RateLookup, Volatilities};

fn rate_along(quotes: &AssocMap<(Currency, Currency), f64>, path: &[ConversionStep]) -> f64 {
    let mut r = 1.0;
    for s in path {
        let q = *quotes.get(&(s.base, s.terms)).unwrap();
        if s.inverted {
            r /= q;
        } else {
            r *= q;
        }
    }
    r
}

fn follows(path: &[ConversionStep], from: Currency, to: Currency) -> bool {
    let mut cur = from;
    for s in path {
        let (src, dst) = if s.inverted { (s.terms, s.base) } else { (s.base, s.terms) };
        if src != cur {
            return false;
        }
        cur = dst;
    }
    cur == to
}

fn sample_rates() -> ExchangeRates<f64> {
    let d = Date::new(2024, 1, 2);
    let mut rates = ExchangeRates::new();
    rates.add_exchange_rate(d, Currency::USD, Currency::CLP, 800.0);
    rates.add_exchange_rate(d, Currency::EUR, Currency::USD, 1.1);
    rates.add_exchange_rate(d, Currency::JPY, Currency::USD, 0.0070);
    rates
}

#[test]
fn same_currency_needs_no_quote() {
    let rates: ExchangeRates<f64> = ExchangeRates::new();
    let p = rates.conversion_path(Date::new(2024, 1, 2), Currency::USD, Currency::USD).unwrap();
    assert!(p.is_empty());
}

#[test]
fn missing_date_is_not_found() {
    let rates = sample_rates();
    let r = rates.conversion_path(Date::new(2030, 1, 1), Currency::USD, Currency::CLP);
    assert!(matches!(r, Err(ScriptingError::NotFoundError(_))));
    assert!(matches!(rates.get_exchange_rates(Date::new(2030, 1, 1)), Err(ScriptingError::NotFoundError(_))));
}

#[test]
fn direct_and_inverse_quotes() {
    let rates = sample_rates();
    let d = Date::new(2024, 1, 2);
    let quotes = rates.get_exchange_rates(d).unwrap();
    let p = rates.conversion_path(d, Currency::USD, Currency::CLP).unwrap();
    assert!(follows(&p, Currency::USD, Currency::CLP));
    assert!((rate_along(quotes, &p) - 800.0).abs() < 1e-9);
    let p = rates.conversion_path(d, Currency::CLP, Currency::USD).unwrap();
    assert!(follows(&p, Currency::CLP, Currency::USD));
    assert!((rate_along(quotes, &p) - 1.0 / 800.0).abs() < 1e-12);
}

#[test]
fn triangulated_through_a_third_currency() {
    let rates = sample_rates();
    let d = Date::new(2024, 1, 2);
    let quotes = rates.get_exchange_rates(d).unwrap();
    let p = rates.conversion_path(d, Currency::EUR, Currency::CLP).unwrap();
    assert_eq!(p.len(), 2);
    assert!(follows(&p, Currency::EUR, Currency::CLP));
    assert!((rate_along(quotes, &p) - 880.0).abs() < 1e-9);
    let p = rates.conversion_path(d, Currency::JPY, Currency::EUR).unwrap();
    assert!(follows(&p, Currency::JPY, Currency::EUR));
    assert!((rate_along(quotes, &p) - 0.0070 / 1.1).abs() < 1e-12);
}

#[test]
fn unreachable_currency_is_not_found() {
    let rates = sample_rates();
    let r = rates.conversion_path(Date::new(2024, 1, 2), Currency::EUR, Currency::GBP);
    assert!(matches!(r, Err(ScriptingError::NotFoundError(_))));
}

#[test]
fn conversion_works_both_ways() {
    let rates = sample_rates();
    let d = Date::new(2024, 1, 2);
    let quotes = rates.get_exchange_rates(d).unwrap();
    let forward = rates.conversion_path(d, Currency::CLP, Currency::JPY).unwrap();
    let backward = rates.conversion_path(d, Currency::JPY, Currency::CLP).unwrap();
    let product = rate_along(quotes, &forward) * rate_along(quotes, &backward);
    assert!((product - 1.0).abs() < 1e-9);
}

#[test]
fn triangulate_prefers_direct_then_inverse() {
    let mut quotes: AssocMap<(Currency, Currency), f64> = AssocMap::new();
    quotes.insert((Currency::USD, Currency::CLP), 800.0);
    quotes.insert((Currency::CLP, Currency::EUR), 0.00114);
    quotes.insert((Currency::EUR, Currency::USD), 1.1);
    let p = triangulate_currencies(&quotes, Currency::USD, Currency::CLP).unwrap();
    assert_eq!(p, vec![ConversionStep { base: Currency::USD, terms: Currency::CLP, inverted: false }]);
    let p = triangulate_currencies(&quotes, Currency::CLP, Currency::USD).unwrap();
    assert_eq!(p, vec![ConversionStep { base: Currency::USD, terms: Currency::CLP, inverted: true }]);
    assert!(triangulate_currencies(&quotes, Currency::GBP, Currency::GBP).unwrap().is_empty());
    let e = triangulate_currencies(&quotes, Currency::GBP, Currency::USD);
    assert!(matches!(e, Err(ScriptingError::NotFoundError(_))));
}

#[test]
fn triangulate_searches_longer_chains() {
    let mut quotes: AssocMap<(Currency, Currency), f64> = AssocMap::new();
    quotes.insert((Currency::USD, Currency::CLP), 800.0);
    quotes.insert((Currency::EUR, Currency::USD), 1.1);
    quotes.insert((Currency::GBP, Currency::EUR), 1.2);
    let p = triangulate_currencies(&quotes, Currency::GBP, Currency::CLP).unwrap();
    assert!(follows(&p, Currency::GBP, Currency::CLP));
    assert!((rate_along(&quotes, &p) - 1.2 * 1.1 * 800.0).abs() < 1e-6);
    let q = conversion_path(&quotes, Currency::CLP, Currency::GBP).unwrap();
    assert!(follows(&q, Currency::CLP, Currency::GBP));
}

#[test]
fn later_quote_replaces_earlier() {
    let d = Date::new(2024, 1, 2);
    let mut rates = ExchangeRates::new();
    rates.add_exchange_rate(d, Currency::USD, Currency::CLP, 800.0);
    rates.add_exchange_rate(d, Currency::USD, Currency::CLP, 900.0);
    let quotes = rates.get_exchange_rates(d).unwrap();
    assert_eq!(quotes.len(), 1);
    assert_eq!(quotes.get(&(Currency::USD, Currency::CLP)), Some(&900.0));
}

#[test]
fn fixings_by_date_and_name() {
    let d1 = Date::new(2024, 1, 2);
    let d2 = Date::new(2024, 1, 3);
    let mut fixings = Fixings::new();
    fixings.add_fixing(d1, "ICP".to_string(), 10000.0);
    fixings.add_fixing(d2, "ICP".to_string(), 10001.5);
    assert_eq!(fixings.get_fixing(d1, &"ICP".to_string()), Some(10000.0));
    assert_eq!(fixings.get_fixing(d2, &"ICP".to_string()), Some(10001.5));
    assert_eq!(fixings.get_fixing(d1, &"SOFR".to_string()), None);
    assert_eq!(fixings.get_fixing(Date::new(2024, 1, 4), &"ICP".to_string()), None);
}

#[test]
fn volatilities_by_date() {
    let d = Date::new(2024, 1, 2);
    let mut vols = Volatilities::new();
    vols.add_equity_volatility(d, "AAPL".to_string(), 0.25);
    vols.add_fx_volatility(d, Currency::USD, Currency::CLP, 0.12);
    assert_eq!(vols.get_equity_volatility(d, "AAPL"), Some(0.25));
    assert_eq!(vols.get_equity_volatility(d, "MSFT"), None);
    assert_eq!(vols.get_fx_volatility(d, Currency::USD, Currency::CLP).unwrap(), 0.12);
    assert!(matches!(
        vols.get_fx_volatility(d, Currency::CLP, Currency::USD),
        Err(ScriptingError::NotFoundError(_))
    ));
    assert_eq!(vols.get_fx_volatilities(d).unwrap().len(), 1);
    assert!(matches!(vols.get_fx_volatilities(Date::new(2025, 1, 1)), Err(ScriptingError::NotFoundError(_))));
}

#[test]
fn historical_data_parts() {
    let d = Date::new(2024, 1, 2);
    let mut data: HistoricalData<f64> = HistoricalData::new();
    data.mut_exchange_rates().add_exchange_rate(d, Currency::USD, Currency::CLP, 800.0);
    data.mut_fixings().add_fixing(d, "ICP".to_string(), 1.0);
    data.mut_volatilities().add_fx_volatility(d, Currency::USD, Currency::CLP, 0.1);
    assert!(data.exchange_rates().get_exchange_rates(d).is_ok());
    assert_eq!(data.fixings().get_fixing(d, &"ICP".to_string()), Some(1.0));
    assert_eq!(data.volatilities().get_fx_volatility(d, Currency::USD, Currency::CLP).unwrap(), 0.1);
    assert!(data.term_structures().get_term_structures(d).is_err());
}

#[test]
fn conversion_uses_fewest_quotes() {
    let mut quotes: AssocMap<(Currency, Currency), f64> = AssocMap::new();
    quotes.insert((Currency::USD, Currency::EUR), 0.9);
    quotes.insert((Currency::EUR, Currency::GBP), 0.85);
    quotes.insert((Currency::GBP, Currency::JPY), 190.0);
    quotes.insert((Currency::CLP, Currency::USD), 0.00125);
    quotes.insert((Currency::CLP, Currency::JPY), 0.18);
    let p = conversion_path(&quotes, Currency::USD, Currency::JPY).unwrap();
    assert_eq!(p.len(), 2);
    assert!(follows(&p, Currency::USD, Currency::JPY));
    let back = conversion_path(&quotes, Currency::JPY, Currency::USD).unwrap();
    assert_eq!(back.len(), 2);
    let p = conversion_path(&quotes, Currency::EUR, Currency::CLP).unwrap();
    assert_eq!(p.len(), 2);
    assert!(conversion_path(&quotes, Currency::KRW, Currency::USD).is_none());
}

#[test]
fn lookup_of_equal_currencies_is_same() {
    let rates: ExchangeRates<f64> = ExchangeRates::new();
    assert!(matches!(rates.exchange_rate_lookup(Date::new(2024, 1, 2), Currency::USD, Currency::USD), Ok(RateLookup::Same)));
}

#[test]
fn lookup_without_quotes_of_the_date_is_not_found() {
    let mut rates = sample_rates();
    rates.remember_rate(Date::new(2030, 1, 1), Currency::EUR, Currency::CLP, 880.0, 1.0 / 880.0);
    let r = rates.exchange_rate_lookup(Date::new(2030, 1, 1), Currency::EUR, Currency::CLP);
    assert!(matches!(r, Err(ScriptingError::NotFoundError(_))));
}

#[test]
fn lookup_finds_a_chain_before_anything_is_cached() {
    let rates = sample_rates();
    let d = Date::new(2024, 1, 2);
    match rates.exchange_rate_lookup(d, Currency::EUR, Currency::CLP) {
        Ok(RateLookup::Path(p)) => {
            assert_eq!(p.len(), 2);
            assert!(follows(&p, Currency::EUR, Currency::CLP));
            let quotes = rates.get_exchange_rates(d).unwrap();
            assert!((rate_along(quotes, &p) - 880.0).abs() < 1e-9);
        }
        _ => panic!("expected a chain of quotes"),
    }
    let r = rates.exchange_rate_lookup(d, Currency::EUR, Currency::GBP);
    assert!(matches!(r, Err(ScriptingError::NotFoundError(_))));
}

#[test]
fn remembered_rate_and_its_inverse_are_given_back() {
    let mut rates = sample_rates();
    let d = Date::new(2024, 1, 2);
    rates.remember_rate(d, Currency::EUR, Currency::CLP, 880.0, 1.0 / 880.0);
    assert!(matches!(rates.exchange_rate_lookup(d, Currency::EUR, Currency::CLP), Ok(RateLookup::Cached(r)) if r == 880.0));
    assert!(matches!(rates.exchange_rate_lookup(d, Currency::CLP, Currency::EUR), Ok(RateLookup::Cached(r)) if r == 1.0 / 880.0));
    // Other dates are untouched.
    let other = Date::new(2024, 1, 3);
    rates.add_exchange_rate(other, Currency::EUR, Currency::CLP, 900.0);
    assert!(matches!(rates.exchange_rate_lookup(other, Currency::EUR, Currency::CLP), Ok(RateLookup::Path(_))));
}

#[test]
fn a_new_quote_does_not_clear_the_cache() {
    let mut rates = sample_rates();
    let d = Date::new(2024, 1, 2);
    rates.remember_rate(d, Currency::USD, Currency::CLP, 800.0, 1.0 / 800.0);
    rates.add_exchange_rate(d, Currency::USD, Currency::CLP, 950.0);
    assert!(matches!(rates.exchange_rate_lookup(d, Currency::USD, Currency::CLP), Ok(RateLookup::Cached(r)) if r == 800.0));
    // The quote itself was replaced.
    assert_eq!(rates.get_exchange_rates(d).unwrap().get(&(Currency::USD, Currency::CLP)), Some(&950.0));
    // The path, which does not read the cache, uses the new quote.
    let p = rates.conversion_path(d, Currency::USD, Currency::CLP).unwrap();
    assert!((rate_along(rates.get_exchange_rates(d).unwrap(), &p) - 950.0).abs() < 1e-9);
}
