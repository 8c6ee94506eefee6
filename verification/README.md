# lefi

A scripting engine for pricing financial products: scripts are expression trees whose
events observe market data (spot rates, discount factors, rate indexes) and make payments.

The library in `src/` is verified with Verus. It holds

- `node`, `event`: the expression trees and the event streams of a script;
- `indexer`: the indexer that gives every variable a slot and every market observation the
  position of the request it adds to its event's simulation request, with laws on what
  indexing keeps and on indexing twice;
- `ifprocessor`: the pass that records, on each `if`, the slots its blocks modify
  (assignment, payment and append targets; variables only read are not recorded), once:
  a list already recorded is kept;
- `requests`, `simdata`: simulation requests and simulated market data;
- `date`, `currency`: calendar days (ISO text, day counts) and ISO currency codes;
- `assoc`, `dated`: maps kept as entry lists, and tables kept per reference date;
- `termstructure`: curves and their store, indexed by key, currency and name;
- `fxpath`, `marketdata`: exchange-rate quotes with their cache of rates worked out,
  fixings and volatilities, the building of the market data of the past from quotes and
  curves, and the breadth-first search for a chain of quotes that converts one currency
  into another.

`app/` holds what computes on floating-point numbers: the script evaluators, the
cash-flow collector, the Black-Scholes model, exchange-rate products, year fractions, and
the JSON form of market data.
