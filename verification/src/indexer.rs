use vstd::prelude::*;

use crate::currency::Currency;
use crate::date::Date;
use crate::error::{ErrorKind, ErrorView, ScriptingError};
use crate::event::{Event, EventStream};
use crate::node::{DfData, Node, PaysData, RateIndexData, SpotData, VarData};
use crate::requests::{
    empty_request, Compounding, DfRequestView, DiscountFactorRequest, ExchangeRateRequest, ForwardRateRequest,
    Frequency, FwdRequestView, RequestView, SimulationDataRequest,
};

verus! {

/// Abstract state of an `EventIndexer`: the variable table (name `names[i]` has slot
/// `ids[i]`), one request per visited event, and the context of the current event.
pub struct IndexerModel {
    pub names: Seq<Seq<char>>,
    pub ids: Seq<usize>,
    pub requests: Seq<RequestView>,
    pub event_date: Option<Date>,
    pub local_currency: Option<Currency>,
}

/// The slot of variable `name` in the table, if it has one.
pub open spec fn slot_of(m: IndexerModel, name: Seq<char>) -> Option<usize> {
    if m.names.contains(name) {
        Some(m.ids[m.names.index_of(name)])
    } else {
        None
    }
}

/// Records variable `name` (with its preset slot, if any) and gives the new state and the
/// slot the occurrence gets. A preset slot overwrites the table entry; otherwise a known
/// name keeps its slot and a new name gets the next free slot (the table's size).
pub open spec fn assign_var(m: IndexerModel, name: Seq<char>, preset: Option<usize>) -> (IndexerModel, usize) {
    match preset {
        Some(id) => if m.names.contains(name) {
            (IndexerModel { ids: m.ids.update(m.names.index_of(name), id), ..m }, id)
        } else {
            (IndexerModel { names: m.names.push(name), ids: m.ids.push(id), ..m }, id)
        },
        None => if m.names.contains(name) {
            (m, m.ids[m.names.index_of(name)])
        } else {
            let id = m.names.len() as usize;
            (IndexerModel { names: m.names.push(name), ids: m.ids.push(id), ..m }, id)
        },
    }
}

/// The state with the last event's request replaced by `r`.
pub open spec fn with_last_request(m: IndexerModel, r: RequestView) -> IndexerModel {
    IndexerModel { requests: m.requests.update(m.requests.len() - 1, r), ..m }
}

pub open spec fn push_fx_model(m: IndexerModel, fx: ExchangeRateRequest) -> IndexerModel {
    with_last_request(m, RequestView { fxs: m.requests.last().fxs.push(fx), ..m.requests.last() })
}

pub open spec fn push_df_model(m: IndexerModel, df: DfRequestView) -> IndexerModel {
    with_last_request(m, RequestView { dfs: m.requests.last().dfs.push(df), ..m.requests.last() })
}

pub open spec fn push_fwd_model(m: IndexerModel, fwd: FwdRequestView) -> IndexerModel {
    with_last_request(m, RequestView { fwds: m.requests.last().fwds.push(fwd), ..m.requests.last() })
}

/// Name of the curve used when a script names none.
pub open spec fn local_curve() -> Seq<char> {
    seq!['l', 'o', 'c', 'a', 'l']
}

/// The date a discount factor is observed from: the event date when there is one.
pub open spec fn observation_date(m: IndexerModel, to_date: Date) -> Date {
    match m.event_date {
        Some(d) => d,
        None => to_date,
    }
}

/// The error of an observation met before any event's request exists.
pub open spec fn no_requests() -> ErrorView {
    ErrorView { kind: ErrorKind::NotFound, text: "No market requests found"@ }
}

/// The error of an observation that needs the event date when none is set.
pub open spec fn no_event_date() -> ErrorView {
    ErrorView { kind: ErrorKind::InvalidSyntax, text: "Event date is not set"@ }
}

/// The error of a foreign payment when no local currency is set.
pub open spec fn no_local_currency() -> ErrorView {
    ErrorView { kind: ErrorKind::InvalidSyntax, text: "Local currency is not set"@ }
}

/// The discount request of a payment (payment date first, then the event's), after the
/// payment's amount was indexed.
pub open spec fn pays_df_step(m: IndexerModel, d: PaysData) -> Result<IndexerModel, ErrorView> {
    if d.df_id is Some {
        Ok(m)
    } else if d.date is None && m.event_date is None {
        Err(no_event_date())
    } else if m.requests.len() == 0 {
        Err(no_requests())
    } else {
        let pay = match d.date { Some(x) => x, None => m.event_date.unwrap() };
        Ok(push_df_model(m, DfRequestView { curve: local_curve(), to_date: pay, from_date: observation_date(m, pay) }))
    }
}

/// The exchange request of a payment in a foreign currency.
pub open spec fn pays_fx_step(m: IndexerModel, d: PaysData) -> Result<IndexerModel, ErrorView> {
    if d.currency is None || d.spot_id is Some {
        Ok(m)
    } else if m.local_currency is None {
        Err(no_local_currency())
    } else if d.date is None && m.event_date is None {
        Err(no_event_date())
    } else if m.requests.len() == 0 {
        Err(no_requests())
    } else {
        let pay = match d.date { Some(x) => x, None => m.event_date.unwrap() };
        Ok(push_fx_model(m, ExchangeRateRequest { first_ccy: m.local_currency.unwrap(), second_ccy: d.currency.unwrap(), date: pay }))
    }
}

/// The indexing of one node: the state after it, or the kind of error it stops with.
pub open spec fn istep(m: IndexerModel, n: Node) -> Result<IndexerModel, ErrorView>
    decreases n,
{
    match n {
        Node::Base(d) => istep_seq(m, d.children@),
        Node::Add(d) => istep_seq(m, d.children@),
        Node::Subtract(d) => istep_seq(m, d.children@),
        Node::Multiply(d) => istep_seq(m, d.children@),
        Node::Divide(d) => istep_seq(m, d.children@),
        Node::Assign(d) => istep_seq(m, d.children@),
        Node::Min(d) => istep_seq(m, d.children@),
        Node::Max(d) => istep_seq(m, d.children@),
        Node::Exp(d) => istep_seq(m, d.children@),
        Node::Pow(d) => istep_seq(m, d.children@),
        Node::Ln(d) => istep_seq(m, d.children@),
        Node::Fif(d) => istep_seq(m, d.children@),
        Node::Append(d) => istep_seq(m, d.children@),
        Node::Mean(d) => istep_seq(m, d.children@),
        Node::Std(d) => istep_seq(m, d.children@),
        Node::Index(d) => istep_seq(m, d.children@),
        Node::UnaryPlus(d) => istep_seq(m, d.children@),
        Node::UnaryMinus(d) => istep_seq(m, d.children@),
        Node::Equal(d) => istep_seq(m, d.children@),
        Node::NotEqual(d) => istep_seq(m, d.children@),
        Node::And(d) => istep_seq(m, d.children@),
        Node::Or(d) => istep_seq(m, d.children@),
        Node::Not(d) => istep_seq(m, d.children@),
        Node::Superior(d) => istep_seq(m, d.children@),
        Node::Inferior(d) => istep_seq(m, d.children@),
        Node::SuperiorOrEqual(d) => istep_seq(m, d.children@),
        Node::InferiorOrEqual(d) => istep_seq(m, d.children@),
        Node::Range(d) => istep_seq(m, d.children@),
        Node::List(d) => istep_seq(m, d.children@),
        Node::If(d) => istep_seq(m, d.children@),
        Node::Variable(d) => match istep_seq(m, d.expr_data.children@) {
            Ok(m1) => Ok(assign_var(m1, d.name@, d.id).0),
            Err(e) => Err(e),
        },
        Node::ForEach(d) => match istep_seq(m, d.iter@) {
            Ok(m1) => istep(assign_var(m1, d.var@, d.id).0, *d.node),
            Err(e) => Err(e),
        },
        Node::Spot(d) => if d.id is Some {
            Ok(m)
        } else if m.requests.len() == 0 {
            Err(no_requests())
        } else if m.event_date is None {
            Err(no_event_date())
        } else {
            let date = match d.date { Some(x) => x, None => m.event_date.unwrap() };
            Ok(push_fx_model(m, ExchangeRateRequest { first_ccy: d.first, second_ccy: d.second, date }))
        },
        Node::Df(d) => if d.id is Some {
            Ok(m)
        } else if m.requests.len() == 0 {
            Err(no_requests())
        } else {
            let curve = match d.curve { Some(c) => c@, None => local_curve() };
            Ok(push_df_model(m, DfRequestView { curve, to_date: d.date, from_date: observation_date(m, d.date) }))
        },
        Node::RateIndex(d) => if d.id is Some {
            Ok(m)
        } else if m.requests.len() == 0 {
            Err(no_requests())
        } else {
            Ok(push_fwd_model(m, FwdRequestView {
                curve: d.name@,
                fixing_date: d.start,
                start_date: d.start,
                end_date: d.end,
                compounding: Compounding::Simple,
                frequency: Frequency::Annual,
            }))
        },
        Node::Pays(d) => match istep_seq(m, d.children@) {
            Ok(m1) => match pays_df_step(m1, d) {
                Ok(m2) => pays_fx_step(m2, d),
                Err(e) => Err(e),
            },
            Err(e) => Err(e),
        },
        _ => Ok(m),
    }
}

/// The indexing of a list of nodes, left to right.
pub open spec fn istep_seq(m: IndexerModel, s: Seq<Node>) -> Result<IndexerModel, ErrorView>
    decreases s,
{
    if s.len() == 0 {
        Ok(m)
    } else {
        match istep_seq(m, s.drop_last()) {
            Ok(m1) => istep(m1, s.last()),
            Err(e) => Err(e),
        }
    }
}

/// `new` is `old` annotated as indexing it from state `m` annotates it: every index slot
/// that was empty is filled with the variable slot or request index it was given.
pub open spec fn annotated(m: IndexerModel, old: Node, new: Node) -> bool
    decreases old,
{
    match old {
        Node::Base(x) => new matches Node::Base(y) && annotated_seq(m, x.children@, y.children@),
        Node::Add(x) => new matches Node::Add(y) && annotated_seq(m, x.children@, y.children@),
        Node::Subtract(x) => new matches Node::Subtract(y) && annotated_seq(m, x.children@, y.children@),
        Node::Multiply(x) => new matches Node::Multiply(y) && annotated_seq(m, x.children@, y.children@),
        Node::Divide(x) => new matches Node::Divide(y) && annotated_seq(m, x.children@, y.children@),
        Node::Assign(x) => new matches Node::Assign(y) && annotated_seq(m, x.children@, y.children@),
        Node::Min(x) => new matches Node::Min(y) && annotated_seq(m, x.children@, y.children@),
        Node::Max(x) => new matches Node::Max(y) && annotated_seq(m, x.children@, y.children@),
        Node::Exp(x) => new matches Node::Exp(y) && annotated_seq(m, x.children@, y.children@),
        Node::Pow(x) => new matches Node::Pow(y) && annotated_seq(m, x.children@, y.children@),
        Node::Ln(x) => new matches Node::Ln(y) && annotated_seq(m, x.children@, y.children@),
        Node::Fif(x) => new matches Node::Fif(y) && annotated_seq(m, x.children@, y.children@),
        Node::Append(x) => new matches Node::Append(y) && annotated_seq(m, x.children@, y.children@),
        Node::Mean(x) => new matches Node::Mean(y) && annotated_seq(m, x.children@, y.children@),
        Node::Std(x) => new matches Node::Std(y) && annotated_seq(m, x.children@, y.children@),
        Node::Index(x) => new matches Node::Index(y) && annotated_seq(m, x.children@, y.children@),
        Node::UnaryPlus(x) => new matches Node::UnaryPlus(y) && annotated_seq(m, x.children@, y.children@),
        Node::UnaryMinus(x) => new matches Node::UnaryMinus(y) && annotated_seq(m, x.children@, y.children@),
        Node::Equal(x) => new matches Node::Equal(y) && annotated_seq(m, x.children@, y.children@),
        Node::NotEqual(x) => new matches Node::NotEqual(y) && annotated_seq(m, x.children@, y.children@),
        Node::And(x) => new matches Node::And(y) && annotated_seq(m, x.children@, y.children@),
        Node::Or(x) => new matches Node::Or(y) && annotated_seq(m, x.children@, y.children@),
        Node::Not(x) => new matches Node::Not(y) && annotated_seq(m, x.children@, y.children@),
        Node::Superior(x) => new matches Node::Superior(y) && annotated_seq(m, x.children@, y.children@),
        Node::Inferior(x) => new matches Node::Inferior(y) && annotated_seq(m, x.children@, y.children@),
        Node::SuperiorOrEqual(x) => new matches Node::SuperiorOrEqual(y) && annotated_seq(m, x.children@, y.children@),
        Node::InferiorOrEqual(x) => new matches Node::InferiorOrEqual(y) && annotated_seq(m, x.children@, y.children@),
        Node::Range(x) => new matches Node::Range(y) && annotated_seq(m, x.children@, y.children@),
        Node::List(x) => new matches Node::List(y) && annotated_seq(m, x.children@, y.children@),
        Node::If(x) => new matches Node::If(y) && y.first_else == x.first_else
            && y.affected_vars == x.affected_vars && annotated_seq(m, x.children@, y.children@),
        Node::Variable(x) => new matches Node::Variable(y) && y.name == x.name
            && y.bool_data == x.bool_data && y.expr_data.is_constant == x.expr_data.is_constant
            && y.expr_data.const_value == x.expr_data.const_value
            && annotated_seq(m, x.expr_data.children@, y.expr_data.children@)
            && match istep_seq(m, x.expr_data.children@) {
                Ok(m1) => y.id == Some(assign_var(m1, x.name@, x.id).1),
                Err(_) => false,
            },
        Node::ForEach(x) => new matches Node::ForEach(y) && y.var == x.var
            && annotated_seq(m, x.iter@, y.iter@)
            && match istep_seq(m, x.iter@) {
                Ok(m1) => y.id == Some(assign_var(m1, x.var@, x.id).1)
                    && annotated(assign_var(m1, x.var@, x.id).0, *x.node, *y.node),
                Err(_) => false,
            },
        Node::Spot(x) => new matches Node::Spot(y) && y.first == x.first && y.second == x.second
            && y.date == x.date && y.id == (if x.id is Some { x.id } else {
                Some(m.requests.last().fxs.len() as usize)
            }),
        Node::Df(x) => new matches Node::Df(y) && y.date == x.date && y.curve == x.curve
            && y.id == (if x.id is Some { x.id } else {
                Some(m.requests.last().dfs.len() as usize)
            }),
        Node::RateIndex(x) => new matches Node::RateIndex(y) && y.name == x.name
            && y.start == x.start && y.end == x.end && y.id == (if x.id is Some { x.id } else {
                Some(m.requests.last().fwds.len() as usize)
            }),
        Node::Pays(x) => new matches Node::Pays(y) && y.date == x.date && y.currency == x.currency
            && annotated_seq(m, x.children@, y.children@)
            && match istep_seq(m, x.children@) {
                Ok(m1) => y.df_id == (if x.df_id is Some { x.df_id } else {
                    Some(m1.requests.last().dfs.len() as usize)
                }) && match pays_df_step(m1, x) {
                    Ok(m2) => y.spot_id == (if x.currency is None || x.spot_id is Some { x.spot_id } else {
                        Some(m2.requests.last().fxs.len() as usize)
                    }),
                    Err(_) => false,
                },
                Err(_) => false,
            },
        _ => new == old,
    }
}

/// Pointwise `annotated` over a list, each node from the state left by the ones before it.
pub open spec fn annotated_seq(m: IndexerModel, old: Seq<Node>, new: Seq<Node>) -> bool
    decreases old,
{
    &&& old.len() == new.len()
    &&& old.len() > 0 ==> {
        &&& annotated_seq(m, old.drop_last(), new.drop_last())
        &&& match istep_seq(m, old.drop_last()) {
            Ok(m1) => annotated(m1, old.last(), new.last()),
            Err(_) => false,
        }
    }
}


/// The state at the start of an event: its date is current and it gets an empty request.
pub open spec fn start_event(m: IndexerModel, date: Date) -> IndexerModel {
    IndexerModel { event_date: Some(date), requests: m.requests.push(empty_request()), ..m }
}

/// The indexing of a stream of events, in order.
pub open spec fn istep_events(m: IndexerModel, evs: Seq<Event>) -> Result<IndexerModel, ErrorView>
    decreases evs.len(),
{
    if evs.len() == 0 {
        Ok(m)
    } else {
        match istep_events(m, evs.drop_last()) {
            Ok(m1) => istep(start_event(m1, evs.last().event_date), evs.last().expr),
            Err(e) => Err(e),
        }
    }
}

/// Each event of `new` is the same event of `old` with its expression annotated.
pub open spec fn annotated_events(m: IndexerModel, old: Seq<Event>, new: Seq<Event>) -> bool
    decreases old.len(),
{
    &&& old.len() == new.len()
    &&& old.len() > 0 ==> {
        &&& annotated_events(m, old.drop_last(), new.drop_last())
        &&& new.last().event_date == old.last().event_date
        &&& match istep_events(m, old.drop_last()) {
            Ok(m1) => annotated(start_event(m1, old.last().event_date), old.last().expr, new.last().expr),
            Err(_) => false,
        }
    }
}

proof fn lemma_istep_events_prefix_err(m: IndexerModel, s: Seq<Event>, k: int)
    requires
        0 <= k <= s.len(),
        istep_events(m, s.take(k)) is Err,
    ensures
        istep_events(m, s) == istep_events(m, s.take(k)),
    decreases s.len(),
{
    if k == s.len() {
        assert(s.take(k) =~= s);
    } else {
        assert(s.drop_last().take(k) =~= s.take(k));
        lemma_istep_events_prefix_err(m, s.drop_last(), k);
    }
}

/// The variable table gives slot `i` to the `i`-th name entered: what indexing from an
/// empty indexer keeps when no slot is preset.
pub open spec fn dense(m: IndexerModel) -> bool {
    &&& model_wf(m)
    &&& forall|i: int| 0 <= i < m.ids.len() ==> m.ids[i] == i
}

/// No index slot of the tree is filled yet, as a freshly built tree.
pub open spec fn fresh(n: Node) -> bool
    decreases n,
{
    match n {
        Node::Base(d) => fresh_seq(d.children@),
        Node::Add(d) => fresh_seq(d.children@),
        Node::Subtract(d) => fresh_seq(d.children@),
        Node::Multiply(d) => fresh_seq(d.children@),
        Node::Divide(d) => fresh_seq(d.children@),
        Node::Assign(d) => fresh_seq(d.children@),
        Node::Min(d) => fresh_seq(d.children@),
        Node::Max(d) => fresh_seq(d.children@),
        Node::Exp(d) => fresh_seq(d.children@),
        Node::Pow(d) => fresh_seq(d.children@),
        Node::Ln(d) => fresh_seq(d.children@),
        Node::Fif(d) => fresh_seq(d.children@),
        Node::Append(d) => fresh_seq(d.children@),
        Node::Mean(d) => fresh_seq(d.children@),
        Node::Std(d) => fresh_seq(d.children@),
        Node::Index(d) => fresh_seq(d.children@),
        Node::UnaryPlus(d) => fresh_seq(d.children@),
        Node::UnaryMinus(d) => fresh_seq(d.children@),
        Node::Equal(d) => fresh_seq(d.children@),
        Node::NotEqual(d) => fresh_seq(d.children@),
        Node::And(d) => fresh_seq(d.children@),
        Node::Or(d) => fresh_seq(d.children@),
        Node::Not(d) => fresh_seq(d.children@),
        Node::Superior(d) => fresh_seq(d.children@),
        Node::Inferior(d) => fresh_seq(d.children@),
        Node::SuperiorOrEqual(d) => fresh_seq(d.children@),
        Node::InferiorOrEqual(d) => fresh_seq(d.children@),
        Node::Range(d) => fresh_seq(d.children@),
        Node::List(d) => fresh_seq(d.children@),
        Node::If(d) => fresh_seq(d.children@),
        Node::Variable(d) => d.id is None && fresh_seq(d.expr_data.children@),
        Node::ForEach(d) => d.id is None && fresh_seq(d.iter@) && fresh(*d.node),
        Node::Spot(d) => d.id is None,
        Node::Df(d) => d.id is None,
        Node::RateIndex(d) => d.id is None,
        Node::Pays(d) => d.df_id is None && d.spot_id is None && fresh_seq(d.children@),
        _ => true,
    }
}

pub open spec fn fresh_seq(s: Seq<Node>) -> bool
    decreases s,
{
    s.len() > 0 ==> fresh_seq(s.drop_last()) && fresh(s.last())
}

/// Every slot of the tree names its entry: a variable's slot holds its name in `names`,
/// and a spot, discount, rate-index or payment node's index points at a request of `req`
/// that asks for what the node observes.
pub open spec fn well_indexed(names: Seq<Seq<char>>, req: RequestView, n: Node) -> bool
    decreases n,
{
    match n {
        Node::Base(d) => well_indexed_seq(names, req, d.children@),
        Node::Add(d) => well_indexed_seq(names, req, d.children@),
        Node::Subtract(d) => well_indexed_seq(names, req, d.children@),
        Node::Multiply(d) => well_indexed_seq(names, req, d.children@),
        Node::Divide(d) => well_indexed_seq(names, req, d.children@),
        Node::Assign(d) => well_indexed_seq(names, req, d.children@),
        Node::Min(d) => well_indexed_seq(names, req, d.children@),
        Node::Max(d) => well_indexed_seq(names, req, d.children@),
        Node::Exp(d) => well_indexed_seq(names, req, d.children@),
        Node::Pow(d) => well_indexed_seq(names, req, d.children@),
        Node::Ln(d) => well_indexed_seq(names, req, d.children@),
        Node::Fif(d) => well_indexed_seq(names, req, d.children@),
        Node::Append(d) => well_indexed_seq(names, req, d.children@),
        Node::Mean(d) => well_indexed_seq(names, req, d.children@),
        Node::Std(d) => well_indexed_seq(names, req, d.children@),
        Node::Index(d) => well_indexed_seq(names, req, d.children@),
        Node::UnaryPlus(d) => well_indexed_seq(names, req, d.children@),
        Node::UnaryMinus(d) => well_indexed_seq(names, req, d.children@),
        Node::Equal(d) => well_indexed_seq(names, req, d.children@),
        Node::NotEqual(d) => well_indexed_seq(names, req, d.children@),
        Node::And(d) => well_indexed_seq(names, req, d.children@),
        Node::Or(d) => well_indexed_seq(names, req, d.children@),
        Node::Not(d) => well_indexed_seq(names, req, d.children@),
        Node::Superior(d) => well_indexed_seq(names, req, d.children@),
        Node::Inferior(d) => well_indexed_seq(names, req, d.children@),
        Node::SuperiorOrEqual(d) => well_indexed_seq(names, req, d.children@),
        Node::InferiorOrEqual(d) => well_indexed_seq(names, req, d.children@),
        Node::Range(d) => well_indexed_seq(names, req, d.children@),
        Node::List(d) => well_indexed_seq(names, req, d.children@),
        Node::If(d) => well_indexed_seq(names, req, d.children@),
        Node::Variable(d) => {
            &&& well_indexed_seq(names, req, d.expr_data.children@)
            &&& d.id matches Some(i) && i < names.len() && names[i as int] == d.name@
        },
        Node::ForEach(d) => {
            &&& well_indexed_seq(names, req, d.iter@)
            &&& well_indexed(names, req, *d.node)
            &&& d.id matches Some(i) && i < names.len() && names[i as int] == d.var@
        },
        Node::Spot(d) => d.id matches Some(i) && i < req.fxs.len()
            && req.fxs[i as int].first_ccy == d.first && req.fxs[i as int].second_ccy == d.second
            && (d.date matches Some(x) ==> req.fxs[i as int].date == x),
        Node::Df(d) => d.id matches Some(i) && i < req.dfs.len()
            && req.dfs[i as int].curve == (match d.curve { Some(c) => c@, None => local_curve() })
            && req.dfs[i as int].to_date == d.date,
        Node::RateIndex(d) => d.id matches Some(i) && i < req.fwds.len()
            && req.fwds[i as int].curve == d.name@ && req.fwds[i as int].start_date == d.start
            && req.fwds[i as int].end_date == d.end,
        Node::Pays(d) => {
            &&& well_indexed_seq(names, req, d.children@)
            &&& d.df_id matches Some(i) && i < req.dfs.len() && req.dfs[i as int].curve == local_curve()
                && (d.date matches Some(x) ==> req.dfs[i as int].to_date == x)
            &&& d.currency matches Some(c) ==> (d.spot_id matches Some(j) && j < req.fxs.len()
                && req.fxs[j as int].second_ccy == c
                && (d.date matches Some(x) ==> req.fxs[j as int].date == x))
        },
        _ => true,
    }
}

pub open spec fn well_indexed_seq(names: Seq<Seq<char>>, req: RequestView, s: Seq<Node>) -> bool
    decreases s,
{
    s.len() > 0 ==> well_indexed_seq(names, req, s.drop_last()) && well_indexed(names, req, s.last())
}

/// Number of nodes the indexer visits in a tree: a bound on how much indexing it can add
/// to any list of the state.
pub open spec fn visit_size(n: Node) -> nat
    decreases n,
{
    match n {
        Node::Base(d) => 1 + visit_size_seq(d.children@),
        Node::Add(d) => 1 + visit_size_seq(d.children@),
        Node::Subtract(d) => 1 + visit_size_seq(d.children@),
        Node::Multiply(d) => 1 + visit_size_seq(d.children@),
        Node::Divide(d) => 1 + visit_size_seq(d.children@),
        Node::Assign(d) => 1 + visit_size_seq(d.children@),
        Node::Min(d) => 1 + visit_size_seq(d.children@),
        Node::Max(d) => 1 + visit_size_seq(d.children@),
        Node::Exp(d) => 1 + visit_size_seq(d.children@),
        Node::Pow(d) => 1 + visit_size_seq(d.children@),
        Node::Ln(d) => 1 + visit_size_seq(d.children@),
        Node::Fif(d) => 1 + visit_size_seq(d.children@),
        Node::Append(d) => 1 + visit_size_seq(d.children@),
        Node::Mean(d) => 1 + visit_size_seq(d.children@),
        Node::Std(d) => 1 + visit_size_seq(d.children@),
        Node::Index(d) => 1 + visit_size_seq(d.children@),
        Node::UnaryPlus(d) => 1 + visit_size_seq(d.children@),
        Node::UnaryMinus(d) => 1 + visit_size_seq(d.children@),
        Node::Equal(d) => 1 + visit_size_seq(d.children@),
        Node::NotEqual(d) => 1 + visit_size_seq(d.children@),
        Node::And(d) => 1 + visit_size_seq(d.children@),
        Node::Or(d) => 1 + visit_size_seq(d.children@),
        Node::Not(d) => 1 + visit_size_seq(d.children@),
        Node::Superior(d) => 1 + visit_size_seq(d.children@),
        Node::Inferior(d) => 1 + visit_size_seq(d.children@),
        Node::SuperiorOrEqual(d) => 1 + visit_size_seq(d.children@),
        Node::InferiorOrEqual(d) => 1 + visit_size_seq(d.children@),
        Node::Range(d) => 1 + visit_size_seq(d.children@),
        Node::List(d) => 1 + visit_size_seq(d.children@),
        Node::If(d) => 1 + visit_size_seq(d.children@),
        Node::Variable(d) => 1 + visit_size_seq(d.expr_data.children@),
        Node::ForEach(d) => 1 + visit_size_seq(d.iter@) + visit_size(*d.node),
        Node::Pays(d) => 1 + visit_size_seq(d.children@),
        _ => 1,
    }
}

pub open spec fn visit_size_seq(s: Seq<Node>) -> nat
    decreases s,
{
    if s.len() == 0 {
        0
    } else {
        visit_size_seq(s.drop_last()) + visit_size(s.last())
    }
}

/// Every list of the state can still take `k` more entries without passing `usize::MAX`.
pub open spec fn has_room(m: IndexerModel, k: nat) -> bool {
    &&& m.names.len() + k <= usize::MAX
    &&& m.requests.len() > 0 ==> {
        &&& m.requests.last().dfs.len() + k <= usize::MAX
        &&& m.requests.last().fwds.len() + k <= usize::MAX
        &&& m.requests.last().fxs.len() + k <= usize::MAX
    }
}

/// `m2` has at most `k` more entries than `m` in each list.
pub open spec fn grew_within(m: IndexerModel, m2: IndexerModel, k: nat) -> bool {
    &&& m2.names.len() <= m.names.len() + k
    &&& m2.requests.last().dfs.len() <= m.requests.last().dfs.len() + k
    &&& m2.requests.last().fwds.len() <= m.requests.last().fwds.len() + k
    &&& m2.requests.last().fxs.len() <= m.requests.last().fxs.len() + k
}

/// Every list of request `b` starts with the matching list of `a`.
pub open spec fn request_extends(a: RequestView, b: RequestView) -> bool {
    &&& a.dfs.is_prefix_of(b.dfs)
    &&& a.fwds.is_prefix_of(b.fwds)
    &&& a.fxs.is_prefix_of(b.fxs)
    &&& a.equities.is_prefix_of(b.equities)
}

/// Indexing from `m` to `m2` only appends: names, and entries of the current request.
pub open spec fn only_appends(m: IndexerModel, m2: IndexerModel) -> bool {
    &&& m.names.is_prefix_of(m2.names)
    &&& m2.requests.len() == m.requests.len()
    &&& m2.requests.drop_last() == m.requests.drop_last()
    &&& request_extends(m.requests.last(), m2.requests.last())
    &&& m2.event_date == m.event_date
    &&& m2.local_currency == m.local_currency
}

proof fn lemma_well_indexed_grows(names: Seq<Seq<char>>, req: RequestView, names2: Seq<Seq<char>>, req2: RequestView, n: Node)
    requires
        well_indexed(names, req, n),
        names.is_prefix_of(names2),
        request_extends(req, req2),
    ensures
        well_indexed(names2, req2, n),
    decreases n,
{
    match n {
        Node::Base(d) => lemma_well_indexed_seq_grows(names, req, names2, req2, d.children@),
        Node::Add(d) => lemma_well_indexed_seq_grows(names, req, names2, req2, d.children@),
        Node::Subtract(d) => lemma_well_indexed_seq_grows(names, req, names2, req2, d.children@),
        Node::Multiply(d) => lemma_well_indexed_seq_grows(names, req, names2, req2, d.children@),
        Node::Divide(d) => lemma_well_indexed_seq_grows(names, req, names2, req2, d.children@),
        Node::Assign(d) => lemma_well_indexed_seq_grows(names, req, names2, req2, d.children@),
        Node::Min(d) => lemma_well_indexed_seq_grows(names, req, names2, req2, d.children@),
        Node::Max(d) => lemma_well_indexed_seq_grows(names, req, names2, req2, d.children@),
        Node::Exp(d) => lemma_well_indexed_seq_grows(names, req, names2, req2, d.children@),
        Node::Pow(d) => lemma_well_indexed_seq_grows(names, req, names2, req2, d.children@),
        Node::Ln(d) => lemma_well_indexed_seq_grows(names, req, names2, req2, d.children@),
        Node::Fif(d) => lemma_well_indexed_seq_grows(names, req, names2, req2, d.children@),
        Node::Append(d) => lemma_well_indexed_seq_grows(names, req, names2, req2, d.children@),
        Node::Mean(d) => lemma_well_indexed_seq_grows(names, req, names2, req2, d.children@),
        Node::Std(d) => lemma_well_indexed_seq_grows(names, req, names2, req2, d.children@),
        Node::Index(d) => lemma_well_indexed_seq_grows(names, req, names2, req2, d.children@),
        Node::UnaryPlus(d) => lemma_well_indexed_seq_grows(names, req, names2, req2, d.children@),
        Node::UnaryMinus(d) => lemma_well_indexed_seq_grows(names, req, names2, req2, d.children@),
        Node::Equal(d) => lemma_well_indexed_seq_grows(names, req, names2, req2, d.children@),
        Node::NotEqual(d) => lemma_well_indexed_seq_grows(names, req, names2, req2, d.children@),
        Node::And(d) => lemma_well_indexed_seq_grows(names, req, names2, req2, d.children@),
        Node::Or(d) => lemma_well_indexed_seq_grows(names, req, names2, req2, d.children@),
        Node::Not(d) => lemma_well_indexed_seq_grows(names, req, names2, req2, d.children@),
        Node::Superior(d) => lemma_well_indexed_seq_grows(names, req, names2, req2, d.children@),
        Node::Inferior(d) => lemma_well_indexed_seq_grows(names, req, names2, req2, d.children@),
        Node::SuperiorOrEqual(d) => lemma_well_indexed_seq_grows(names, req, names2, req2, d.children@),
        Node::InferiorOrEqual(d) => lemma_well_indexed_seq_grows(names, req, names2, req2, d.children@),
        Node::Range(d) => lemma_well_indexed_seq_grows(names, req, names2, req2, d.children@),
        Node::List(d) => lemma_well_indexed_seq_grows(names, req, names2, req2, d.children@),
        Node::If(d) => lemma_well_indexed_seq_grows(names, req, names2, req2, d.children@),
        Node::Variable(d) => lemma_well_indexed_seq_grows(names, req, names2, req2, d.expr_data.children@),
        Node::ForEach(d) => {
            lemma_well_indexed_seq_grows(names, req, names2, req2, d.iter@);
            lemma_well_indexed_grows(names, req, names2, req2, *d.node);
        },
        Node::Pays(d) => lemma_well_indexed_seq_grows(names, req, names2, req2, d.children@),
        _ => {},
    }
}

proof fn lemma_well_indexed_seq_grows(names: Seq<Seq<char>>, req: RequestView, names2: Seq<Seq<char>>, req2: RequestView, s: Seq<Node>)
    requires
        well_indexed_seq(names, req, s),
        names.is_prefix_of(names2),
        request_extends(req, req2),
    ensures
        well_indexed_seq(names2, req2, s),
    decreases s,
{
    if s.len() > 0 {
        lemma_well_indexed_seq_grows(names, req, names2, req2, s.drop_last());
        lemma_well_indexed_grows(names, req, names2, req2, s.last());
    }
}

proof fn lemma_with_last(m: IndexerModel, r: RequestView)
    requires
        m.requests.len() > 0,
    ensures
        with_last_request(m, r).requests.len() == m.requests.len(),
        with_last_request(m, r).requests.drop_last() == m.requests.drop_last(),
        with_last_request(m, r).requests.last() == r,
{
    assert(with_last_request(m, r).requests.drop_last() =~= m.requests.drop_last());
}

proof fn lemma_only_appends_trans(a: IndexerModel, b: IndexerModel, c: IndexerModel)
    requires
        only_appends(a, b),
        only_appends(b, c),
    ensures
        only_appends(a, c),
{
}

/// A new variable in a dense table gets the next slot; a known one keeps its own.
proof fn lemma_assign_fresh(m: IndexerModel, name: Seq<char>)
    requires
        dense(m),
        m.names.len() < usize::MAX,
    ensures
        grew_within(m, assign_var(m, name, None).0, 1),
        dense(assign_var(m, name, None).0),
        only_appends(m, assign_var(m, name, None).0),
        assign_var(m, name, None).1 < assign_var(m, name, None).0.names.len(),
        assign_var(m, name, None).0.names[assign_var(m, name, None).1 as int] == name,
{
    let r = assign_var(m, name, None);
    if m.names.contains(name) {
        let k = m.names.index_of(name);
        assert(m.names[k] == name);
        assert(m.ids[k] == k);
        assert(m.names.is_prefix_of(m.names));
    } else {
        assert(m.names.is_prefix_of(m.names.push(name)));
        assert(r.0.names.no_duplicates());
        assert(r.0.names[m.names.len() as int] == name);
        assert forall|i: int| 0 <= i < r.0.ids.len() implies r.0.ids[i] == i by {
            if i < m.ids.len() {
                assert(r.0.ids[i] == m.ids[i]);
            }
        }
    }
    assert(r.0.requests.drop_last() =~= m.requests.drop_last());
    assert(m.requests.last().dfs.is_prefix_of(m.requests.last().dfs));
    assert(m.requests.last().fwds.is_prefix_of(m.requests.last().fwds));
    assert(m.requests.last().fxs.is_prefix_of(m.requests.last().fxs));
    assert(m.requests.last().equities.is_prefix_of(m.requests.last().equities));
}

#[verifier::spinoff_prover]
#[verifier::rlimit(100)]
/// Indexing a fresh tree from a dense table only appends to the table and to the current
/// request, keeps the table dense, and leaves the tree well indexed against the result.
pub proof fn lemma_indexing(m: IndexerModel, old: Node, new: Node)
    requires
        dense(m),
        fresh(old),
        has_room(m, visit_size(old)),
        istep(m, old) is Ok,
        annotated(m, old, new),
    ensures
        grew_within(m, istep(m, old)->Ok_0, visit_size(old)),
        dense(istep(m, old)->Ok_0),
        only_appends(m, istep(m, old)->Ok_0),
        well_indexed(istep(m, old)->Ok_0.names, istep(m, old)->Ok_0.requests.last(), new),
    decreases old,
{
    let m2 = istep(m, old)->Ok_0;
    assert(m.requests.last().dfs.is_prefix_of(m.requests.last().dfs));
    assert(m.requests.last().fwds.is_prefix_of(m.requests.last().fwds));
    assert(m.requests.last().fxs.is_prefix_of(m.requests.last().fxs));
    assert(m.requests.last().equities.is_prefix_of(m.requests.last().equities));
    assert(m.names.is_prefix_of(m.names));
    assert(m.requests.drop_last() =~= m.requests.drop_last());
    match old {
        Node::Base(d) => {
            let y = new->Base_0;
            lemma_indexing_seq(m, d.children@, y.children@);
        },
        Node::Add(d) => {
            let y = new->Add_0;
            lemma_indexing_seq(m, d.children@, y.children@);
        },
        Node::Subtract(d) => {
            let y = new->Subtract_0;
            lemma_indexing_seq(m, d.children@, y.children@);
        },
        Node::Multiply(d) => {
            let y = new->Multiply_0;
            lemma_indexing_seq(m, d.children@, y.children@);
        },
        Node::Divide(d) => {
            let y = new->Divide_0;
            lemma_indexing_seq(m, d.children@, y.children@);
        },
        Node::Assign(d) => {
            let y = new->Assign_0;
            lemma_indexing_seq(m, d.children@, y.children@);
        },
        Node::Min(d) => {
            let y = new->Min_0;
            lemma_indexing_seq(m, d.children@, y.children@);
        },
        Node::Max(d) => {
            let y = new->Max_0;
            lemma_indexing_seq(m, d.children@, y.children@);
        },
        Node::Exp(d) => {
            let y = new->Exp_0;
            lemma_indexing_seq(m, d.children@, y.children@);
        },
        Node::Pow(d) => {
            let y = new->Pow_0;
            lemma_indexing_seq(m, d.children@, y.children@);
        },
        Node::Ln(d) => {
            let y = new->Ln_0;
            lemma_indexing_seq(m, d.children@, y.children@);
        },
        Node::Fif(d) => {
            let y = new->Fif_0;
            lemma_indexing_seq(m, d.children@, y.children@);
        },
        Node::Append(d) => {
            let y = new->Append_0;
            lemma_indexing_seq(m, d.children@, y.children@);
        },
        Node::Mean(d) => {
            let y = new->Mean_0;
            lemma_indexing_seq(m, d.children@, y.children@);
        },
        Node::Std(d) => {
            let y = new->Std_0;
            lemma_indexing_seq(m, d.children@, y.children@);
        },
        Node::Index(d) => {
            let y = new->Index_0;
            lemma_indexing_seq(m, d.children@, y.children@);
        },
        Node::UnaryPlus(d) => {
            let y = new->UnaryPlus_0;
            lemma_indexing_seq(m, d.children@, y.children@);
        },
        Node::UnaryMinus(d) => {
            let y = new->UnaryMinus_0;
            lemma_indexing_seq(m, d.children@, y.children@);
        },
        Node::Equal(d) => {
            let y = new->Equal_0;
            lemma_indexing_seq(m, d.children@, y.children@);
        },
        Node::NotEqual(d) => {
            let y = new->NotEqual_0;
            lemma_indexing_seq(m, d.children@, y.children@);
        },
        Node::And(d) => {
            let y = new->And_0;
            lemma_indexing_seq(m, d.children@, y.children@);
        },
        Node::Or(d) => {
            let y = new->Or_0;
            lemma_indexing_seq(m, d.children@, y.children@);
        },
        Node::Not(d) => {
            let y = new->Not_0;
            lemma_indexing_seq(m, d.children@, y.children@);
        },
        Node::Superior(d) => {
            let y = new->Superior_0;
            lemma_indexing_seq(m, d.children@, y.children@);
        },
        Node::Inferior(d) => {
            let y = new->Inferior_0;
            lemma_indexing_seq(m, d.children@, y.children@);
        },
        Node::SuperiorOrEqual(d) => {
            let y = new->SuperiorOrEqual_0;
            lemma_indexing_seq(m, d.children@, y.children@);
        },
        Node::InferiorOrEqual(d) => {
            let y = new->InferiorOrEqual_0;
            lemma_indexing_seq(m, d.children@, y.children@);
        },
        Node::Range(d) => {
            let y = new->Range_0;
            lemma_indexing_seq(m, d.children@, y.children@);
        },
        Node::List(d) => {
            let y = new->List_0;
            lemma_indexing_seq(m, d.children@, y.children@);
        },
        Node::If(d) => {
            let y = new->If_0;
            lemma_indexing_seq(m, d.children@, y.children@);
        },
        Node::Variable(d) => {
            let y = new->Variable_0;
            lemma_indexing_seq(m, d.expr_data.children@, y.expr_data.children@);
            let m1 = istep_seq(m, d.expr_data.children@)->Ok_0;
            lemma_assign_fresh(m1, d.name@);
            lemma_only_appends_trans(m, m1, m2);
            lemma_well_indexed_seq_grows(m1.names, m1.requests.last(), m2.names, m2.requests.last(), y.expr_data.children@);
        },
        Node::ForEach(d) => {
            let y = new->ForEach_0;
            lemma_indexing_seq(m, d.iter@, y.iter@);
            let m1 = istep_seq(m, d.iter@)->Ok_0;
            lemma_assign_fresh(m1, d.var@);
            let ma = assign_var(m1, d.var@, d.id).0;
            lemma_only_appends_trans(m, m1, ma);
            lemma_indexing(ma, *d.node, *y.node);
            lemma_only_appends_trans(m, ma, m2);
            lemma_well_indexed_seq_grows(m1.names, m1.requests.last(), m2.names, m2.requests.last(), y.iter@);
        },
        Node::Spot(d) => {
            lemma_with_last(m, m2.requests.last());
            assert(m.requests.last().fxs.is_prefix_of(m2.requests.last().fxs));
        },
        Node::Df(d) => {
            lemma_with_last(m, m2.requests.last());
            assert(m.requests.last().dfs.is_prefix_of(m2.requests.last().dfs));
        },
        Node::RateIndex(d) => {
            lemma_with_last(m, m2.requests.last());
            assert(m.requests.last().fwds.is_prefix_of(m2.requests.last().fwds));
        },
        Node::Pays(d) => {
            let y = new->Pays_0;
            lemma_indexing_seq(m, d.children@, y.children@);
            let m1 = istep_seq(m, d.children@)->Ok_0;
            let ma = pays_df_step(m1, d)->Ok_0;
            if d.df_id is None {
                lemma_with_last(m1, ma.requests.last());
            }
            if !(d.currency is None || d.spot_id is Some) {
                lemma_with_last(ma, m2.requests.last());
            }
            assert(m1.requests.last().dfs.is_prefix_of(ma.requests.last().dfs));
            assert(m1.requests.last().fwds.is_prefix_of(ma.requests.last().fwds));
            assert(m1.requests.last().fxs.is_prefix_of(ma.requests.last().fxs));
            assert(m1.requests.last().equities.is_prefix_of(ma.requests.last().equities));
            assert(m1.names.is_prefix_of(ma.names));
            assert(only_appends(m1, ma));
            assert(ma.requests.last().dfs.is_prefix_of(m2.requests.last().dfs));
            assert(ma.requests.last().fwds.is_prefix_of(m2.requests.last().fwds));
            assert(ma.requests.last().fxs.is_prefix_of(m2.requests.last().fxs));
            assert(ma.requests.last().equities.is_prefix_of(m2.requests.last().equities));
            assert(ma.names.is_prefix_of(m2.names));
            assert(only_appends(ma, m2));
            lemma_only_appends_trans(m, m1, ma);
            lemma_only_appends_trans(m, ma, m2);
            lemma_only_appends_trans(m1, ma, m2);
            lemma_well_indexed_seq_grows(m1.names, m1.requests.last(), m2.names, m2.requests.last(), y.children@);
        },
        _ => {},
    }
}

/// `lemma_indexing` over a list of nodes.
pub proof fn lemma_indexing_seq(m: IndexerModel, old: Seq<Node>, new: Seq<Node>)
    requires
        dense(m),
        fresh_seq(old),
        has_room(m, visit_size_seq(old)),
        istep_seq(m, old) is Ok,
        annotated_seq(m, old, new),
    ensures
        grew_within(m, istep_seq(m, old)->Ok_0, visit_size_seq(old)),
        dense(istep_seq(m, old)->Ok_0),
        only_appends(m, istep_seq(m, old)->Ok_0),
        well_indexed_seq(istep_seq(m, old)->Ok_0.names, istep_seq(m, old)->Ok_0.requests.last(), new),
    decreases old,
{
    if old.len() == 0 {
        assert(m.requests.last().dfs.is_prefix_of(m.requests.last().dfs));
        assert(m.requests.last().fwds.is_prefix_of(m.requests.last().fwds));
        assert(m.requests.last().fxs.is_prefix_of(m.requests.last().fxs));
        assert(m.requests.last().equities.is_prefix_of(m.requests.last().equities));
        assert(m.names.is_prefix_of(m.names));
    } else {
        lemma_indexing_seq(m, old.drop_last(), new.drop_last());
        let m1 = istep_seq(m, old.drop_last())->Ok_0;
        lemma_indexing(m1, old.last(), new.last());
        let m2 = istep_seq(m, old)->Ok_0;
        lemma_only_appends_trans(m, m1, m2);
        lemma_well_indexed_seq_grows(m1.names, m1.requests.last(), m2.names, m2.requests.last(), new.drop_last());
    }
}

/// Total visit size of a stream's expressions.
pub open spec fn events_size(evs: Seq<Event>) -> nat
    decreases evs.len(),
{
    if evs.len() == 0 {
        0
    } else {
        events_size(evs.drop_last()) + visit_size(evs.last().expr)
    }
}

/// Indexing a stream of freshly built events from a dense table: the table stays dense,
/// each event gets exactly one request, and every event's tree is well indexed against the
/// final table and its own event's request.
pub proof fn lemma_indexing_events(m: IndexerModel, old: Seq<Event>, new: Seq<Event>)
    requires
        dense(m),
        forall|i: int| 0 <= i < old.len() ==> fresh(#[trigger] old[i].expr),
        m.names.len() + events_size(old) <= usize::MAX,
        istep_events(m, old) is Ok,
        annotated_events(m, old, new),
    ensures
        dense(istep_events(m, old)->Ok_0),
        m.names.is_prefix_of(istep_events(m, old)->Ok_0.names),
        istep_events(m, old)->Ok_0.names.len() <= m.names.len() + events_size(old),
        istep_events(m, old)->Ok_0.requests.len() == m.requests.len() + old.len(),
        istep_events(m, old)->Ok_0.requests.take(m.requests.len() as int) == m.requests,
        forall|i: int| 0 <= i < new.len() ==> well_indexed(
            istep_events(m, old)->Ok_0.names,
            istep_events(m, old)->Ok_0.requests[m.requests.len() + i],
            #[trigger] new[i].expr,
        ),
    decreases old.len(),
{
    let m2 = istep_events(m, old)->Ok_0;
    if old.len() == 0 {
        assert(m.names.is_prefix_of(m.names));
        assert(m.requests.take(m.requests.len() as int) =~= m.requests);
    } else {
        let dl = old.drop_last();
        assert forall|i: int| 0 <= i < dl.len() implies fresh(#[trigger] dl[i].expr) by {
            assert(dl[i] == old[i]);
        }
        lemma_indexing_events(m, dl, new.drop_last());
        let m1 = istep_events(m, dl)->Ok_0;
        let ms = start_event(m1, old.last().event_date);
        assert(ms.requests.last() == empty_request());
        assert(fresh(old[old.len() - 1].expr));
        lemma_indexing(ms, old.last().expr, new.last().expr);
        assert(ms.names.is_prefix_of(m2.names));
        assert(m2.requests.drop_last() == ms.requests.drop_last());
        assert(ms.requests.drop_last() =~= m1.requests);
        assert(m2.requests.take(m.requests.len() as int) =~= m.requests) by {
            assert(m2.requests.drop_last().take(m.requests.len() as int) =~= m2.requests.take(m.requests.len() as int));
            assert(m1.requests.take(m.requests.len() as int) == m.requests);
        }
        assert forall|i: int| 0 <= i < new.len() implies well_indexed(
            m2.names,
            m2.requests[m.requests.len() + i],
            #[trigger] new[i].expr,
        ) by {
            if i < new.len() - 1 {
                assert(new.drop_last()[i] == new[i]);
                assert(m2.requests[m.requests.len() + i] == m2.requests.drop_last()[m.requests.len() + i]);
                assert(m2.requests[m.requests.len() + i] == m1.requests[m.requests.len() + i]);
                lemma_well_indexed_grows(
                    m1.names,
                    m1.requests[m.requests.len() + i],
                    m2.names,
                    m2.requests[m.requests.len() + i],
                    new[i].expr,
                );
            } else {
                assert(new[i] == new.last());
            }
        }
    }
}

/// A name held at position `i` of a table without duplicates is found at `i`.
proof fn lemma_index_of_unique(names: Seq<Seq<char>>, i: int)
    requires
        names.no_duplicates(),
        0 <= i < names.len(),
    ensures
        names.contains(names[i]),
        names.index_of(names[i]) == i,
{
    assert(names[i] == names[i]);
    let k = names.index_of(names[i]);
    assert(0 <= k < names.len() && names[k] == names[i]);
}

/// A preset slot that already names its entry leaves a dense table as it was.
proof fn lemma_assign_known(m: IndexerModel, name: Seq<char>, i: usize)
    requires
        dense(m),
        i < m.names.len(),
        m.names[i as int] == name,
    ensures
        assign_var(m, name, Some(i)).0 == m,
        assign_var(m, name, Some(i)).1 == i,
{
    lemma_index_of_unique(m.names, i as int);
    assert(m.ids.update(i as int, i) =~= m.ids);
}

/// Indexing a tree that is already indexed against the current table and request changes
/// nothing: the indexer keeps its state and the tree keeps its slots. So indexing a script
/// twice is indexing it once.
pub proof fn lemma_reindexing(m: IndexerModel, n: Node)
    requires
        dense(m),
        well_indexed(m.names, m.requests.last(), n),
    ensures
        istep(m, n) == Ok::<IndexerModel, ErrorView>(m),
        annotated(m, n, n),
    decreases n,
{
    match n {
        Node::Base(d) => lemma_reindexing_seq(m, d.children@),
        Node::Add(d) => lemma_reindexing_seq(m, d.children@),
        Node::Subtract(d) => lemma_reindexing_seq(m, d.children@),
        Node::Multiply(d) => lemma_reindexing_seq(m, d.children@),
        Node::Divide(d) => lemma_reindexing_seq(m, d.children@),
        Node::Assign(d) => lemma_reindexing_seq(m, d.children@),
        Node::Min(d) => lemma_reindexing_seq(m, d.children@),
        Node::Max(d) => lemma_reindexing_seq(m, d.children@),
        Node::Exp(d) => lemma_reindexing_seq(m, d.children@),
        Node::Pow(d) => lemma_reindexing_seq(m, d.children@),
        Node::Ln(d) => lemma_reindexing_seq(m, d.children@),
        Node::Fif(d) => lemma_reindexing_seq(m, d.children@),
        Node::Append(d) => lemma_reindexing_seq(m, d.children@),
        Node::Mean(d) => lemma_reindexing_seq(m, d.children@),
        Node::Std(d) => lemma_reindexing_seq(m, d.children@),
        Node::Index(d) => lemma_reindexing_seq(m, d.children@),
        Node::UnaryPlus(d) => lemma_reindexing_seq(m, d.children@),
        Node::UnaryMinus(d) => lemma_reindexing_seq(m, d.children@),
        Node::Equal(d) => lemma_reindexing_seq(m, d.children@),
        Node::NotEqual(d) => lemma_reindexing_seq(m, d.children@),
        Node::And(d) => lemma_reindexing_seq(m, d.children@),
        Node::Or(d) => lemma_reindexing_seq(m, d.children@),
        Node::Not(d) => lemma_reindexing_seq(m, d.children@),
        Node::Superior(d) => lemma_reindexing_seq(m, d.children@),
        Node::Inferior(d) => lemma_reindexing_seq(m, d.children@),
        Node::SuperiorOrEqual(d) => lemma_reindexing_seq(m, d.children@),
        Node::InferiorOrEqual(d) => lemma_reindexing_seq(m, d.children@),
        Node::Range(d) => lemma_reindexing_seq(m, d.children@),
        Node::List(d) => lemma_reindexing_seq(m, d.children@),
        Node::If(d) => lemma_reindexing_seq(m, d.children@),
        Node::Variable(d) => {
            lemma_reindexing_seq(m, d.expr_data.children@);
            lemma_assign_known(m, d.name@, d.id.unwrap());
        },
        Node::ForEach(d) => {
            lemma_reindexing_seq(m, d.iter@);
            lemma_assign_known(m, d.var@, d.id.unwrap());
            lemma_reindexing(m, *d.node);
        },
        Node::Pays(d) => lemma_reindexing_seq(m, d.children@),
        _ => {},
    }
}

/// `lemma_reindexing` over a list of nodes.
pub proof fn lemma_reindexing_seq(m: IndexerModel, s: Seq<Node>)
    requires
        dense(m),
        well_indexed_seq(m.names, m.requests.last(), s),
    ensures
        istep_seq(m, s) == Ok::<IndexerModel, ErrorView>(m),
        annotated_seq(m, s, s),
    decreases s,
{
    if s.len() > 0 {
        lemma_reindexing_seq(m, s.drop_last());
        lemma_reindexing(m, s.last());
    }
}

/// Indexing a variable with no slot yet, from a dense table: a known name gets its own
/// slot and the table stays as it is; a new name gets the next slot, the table's size, and
/// the table grows by that name. The table stays dense.
pub proof fn lemma_variable_slot(m: IndexerModel, d: VarData)
    requires
        dense(m),
        d.id is None,
        d.expr_data.children@.len() == 0,
        m.names.len() < usize::MAX,
    ensures
        istep(m, Node::Variable(d)) == Ok::<IndexerModel, ErrorView>(assign_var(m, d.name@, None).0),
        dense(assign_var(m, d.name@, None).0),
        m.names.contains(d.name@) ==> assign_var(m, d.name@, None).0 == m
            && Some(assign_var(m, d.name@, None).1) == slot_of(m, d.name@)
            && assign_var(m, d.name@, None).1 == m.names.index_of(d.name@),
        !m.names.contains(d.name@) ==> assign_var(m, d.name@, None).1 == m.names.len()
            && assign_var(m, d.name@, None).0.names == m.names.push(d.name@)
            && assign_var(m, d.name@, None).0.ids == m.ids.push(m.names.len() as usize),
{
    assert(istep_seq(m, d.expr_data.children@) == Ok::<IndexerModel, ErrorView>(m));
    lemma_assign_fresh(m, d.name@);
    if m.names.contains(d.name@) {
        let k = m.names.index_of(d.name@);
        assert(m.names[k] == d.name@);
        assert(m.ids[k] == k);
    }
}

/// Indexing a freshly built payment from a dense table asks for what it needs at its
/// payment date (its own date, else the event's): a discount factor of the local curve to
/// that date, observed from the event date (the payment date when no event is current);
/// and, for a payment in a foreign currency, the rate from the local currency into that
/// currency at the payment date. The payment's indexes point at those requests of the
/// current event; a payment in the local currency asks for no rate.
pub proof fn lemma_payment_requests(m: IndexerModel, d: PaysData, new: Node)
    requires
        dense(m),
        fresh(Node::Pays(d)),
        has_room(m, visit_size(Node::Pays(d))),
        istep(m, Node::Pays(d)) is Ok,
        annotated(m, Node::Pays(d), new),
    ensures
        ({
            let m2 = istep(m, Node::Pays(d))->Ok_0;
            let req = m2.requests.last();
            let y = new->Pays_0;
            let pay = match d.date {
                Some(x) => x,
                None => m.event_date.unwrap(),
            };
            &&& d.date is Some || m.event_date is Some
            &&& new is Pays
            &&& y.df_id matches Some(k) && k < req.dfs.len() && req.dfs[k as int] == (DfRequestView {
                curve: local_curve(),
                to_date: pay,
                from_date: match m.event_date {
                    Some(e) => e,
                    None => pay,
                },
            })
            &&& d.currency matches Some(c) ==> m.local_currency is Some
            &&& d.currency matches Some(c) ==> (y.spot_id matches Some(j)
                && j < req.fxs.len() && req.fxs[j as int] == (ExchangeRateRequest {
                    first_ccy: m.local_currency.unwrap(),
                    second_ccy: c,
                    date: pay,
                }))
            &&& d.currency is None ==> y.spot_id is None
        }),
{
    let y = new->Pays_0;
    lemma_indexing_seq(m, d.children@, y.children@);
    let m1 = istep_seq(m, d.children@)->Ok_0;
    assert(m1.event_date == m.event_date && m1.local_currency == m.local_currency);
    let ma = pays_df_step(m1, d)->Ok_0;
    lemma_with_last(m1, ma.requests.last());
    let m2 = istep(m, Node::Pays(d))->Ok_0;
    if d.currency is Some {
        lemma_with_last(ma, m2.requests.last());
    }
}

/// Indexing a spot, discount or rate-index node with no index yet, once an event's request
/// exists, appends one request to that event's request, points the node at it and changes
/// nothing else: a spot asks for the rate of its pair at its own date, else the event date;
/// a discount node for its curve (the local one when it names none) to its date, observed
/// from the event date (its own date when no event is current); a rate index for a simple,
/// annual forward of its curve from its start to its end, fixed at its start.
pub proof fn lemma_observation_requests(m: IndexerModel, n: Node, new: Node)
    requires
        n is Spot || n is Df || n is RateIndex,
        istep(m, n) is Ok,
        annotated(m, n, new),
        n is Spot ==> n->Spot_0.id is None,
        n is Df ==> n->Df_0.id is None,
        n is RateIndex ==> n->RateIndex_0.id is None,
    ensures
        ({
            let m2 = istep(m, n)->Ok_0;
            let r0 = m.requests.last();
            let r2 = m2.requests.last();
            &&& m.requests.len() > 0
            &&& m2.requests.len() == m.requests.len()
            &&& m2.requests.drop_last() == m.requests.drop_last()
            &&& m2.names == m.names && m2.ids == m.ids
            &&& m2.event_date == m.event_date && m2.local_currency == m.local_currency
            &&& n is Spot ==> {
                let d = n->Spot_0;
                &&& m.event_date is Some
                &&& new == Node::Spot(SpotData { id: Some(r0.fxs.len() as usize), ..d })
                &&& r2 == (RequestView {
                    fxs: r0.fxs.push(ExchangeRateRequest {
                        first_ccy: d.first,
                        second_ccy: d.second,
                        date: match d.date {
                            Some(x) => x,
                            None => m.event_date.unwrap(),
                        },
                    }),
                    ..r0
                })
            }
            &&& n is Df ==> {
                let d = n->Df_0;
                &&& new == Node::Df(DfData { id: Some(r0.dfs.len() as usize), ..d })
                &&& r2 == (RequestView {
                    dfs: r0.dfs.push(DfRequestView {
                        curve: match d.curve {
                            Some(c) => c@,
                            None => seq!['l', 'o', 'c', 'a', 'l'],
                        },
                        to_date: d.date,
                        from_date: match m.event_date {
                            Some(e) => e,
                            None => d.date,
                        },
                    }),
                    ..r0
                })
            }
            &&& n is RateIndex ==> {
                let d = n->RateIndex_0;
                &&& new == Node::RateIndex(RateIndexData { id: Some(r0.fwds.len() as usize), ..d })
                &&& r2 == (RequestView {
                    fwds: r0.fwds.push(FwdRequestView {
                        curve: d.name@,
                        fixing_date: d.start,
                        start_date: d.start,
                        end_date: d.end,
                        compounding: Compounding::Simple,
                        frequency: Frequency::Annual,
                    }),
                    ..r0
                })
            }
        }),
{
    let m2 = istep(m, n)->Ok_0;
    lemma_with_last(m, m2.requests.last());
}

/// The text view of a list of strings.
pub open spec fn names_view(v: Seq<String>) -> Seq<Seq<char>> {
    v.map_values(|s: String| s@)
}

/// The content view of a list of requests.
pub open spec fn requests_view(v: Seq<SimulationDataRequest>) -> Seq<RequestView> {
    v.map_values(|r: SimulationDataRequest| r@)
}

/// The variable table is a function: one slot per name, each name once.
pub open spec fn model_wf(m: IndexerModel) -> bool {
    &&& m.names.len() == m.ids.len()
    &&& m.names.no_duplicates()
}

/// Once a prefix of a list fails to index, the whole list fails the same way.
proof fn lemma_istep_seq_prefix_err(m: IndexerModel, s: Seq<Node>, k: int)
    requires
        0 <= k <= s.len(),
        istep_seq(m, s.take(k)) is Err,
    ensures
        istep_seq(m, s) == istep_seq(m, s.take(k)),
    decreases s.len(),
{
    if k == s.len() {
        assert(s.take(k) =~= s);
    } else {
        assert(s.drop_last().take(k) =~= s.take(k));
        lemma_istep_seq_prefix_err(m, s.drop_last(), k);
    }
}

/// Walks a script's expression tree and gives every variable a slot and every market
/// observation (spot, discount factor, rate index, payment) an index into the market data
/// request of its event.
pub struct EventIndexer {
    names: Vec<String>,
    ids: Vec<usize>,
    market_requests: Vec<SimulationDataRequest>,
    event_date: Option<Date>,
    local_currency: Option<Currency>,
}

impl View for EventIndexer {
    type V = IndexerModel;

    closed spec fn view(&self) -> IndexerModel {
        IndexerModel {
            names: names_view(self.names@),
            ids: self.ids@,
            requests: requests_view(self.market_requests@),
            event_date: self.event_date,
            local_currency: self.local_currency,
        }
    }
}

/// A not-found error carrying `text`.
fn not_found(text: &str) -> (e: ScriptingError)
    ensures
        e.kind() == ErrorKind::NotFound,
        e matches ScriptingError::NotFoundError(m) && m@ == text@,
{
    ScriptingError::NotFoundError(text.to_owned())
}

/// An invalid-syntax error carrying `text`.
fn invalid_syntax(text: &str) -> (e: ScriptingError)
    ensures
        e.kind() == ErrorKind::InvalidSyntax,
        e matches ScriptingError::InvalidSyntax(m) && m@ == text@,
{
    ScriptingError::InvalidSyntax(text.to_owned())
}

impl EventIndexer {
    pub open spec fn wf(&self) -> bool {
        model_wf(self@)
    }

    /// An indexer with no variable, no request and no context.
    pub fn new() -> (r: EventIndexer)
        ensures
            r.wf(),
            dense(r@),
            r@.names.len() == 0,
            r@.requests.len() == 0,
            r@.event_date is None,
            r@.local_currency is None,
    {
        let r = EventIndexer {
            names: Vec::new(),
            ids: Vec::new(),
            market_requests: Vec::new(),
            event_date: None,
            local_currency: None,
        };
        assert(r@.names =~= Seq::<Seq<char>>::empty());
        r
    }

    /// Sets the date of the event being indexed.
    pub fn with_event_date(self, date: Date) -> (r: EventIndexer)
        requires
            self.wf(),
        ensures
            r.wf(),
            r@ == (IndexerModel { event_date: Some(date), ..self@ }),
    {
        let mut s = self;
        s.event_date = Some(date);
        s
    }

    /// Sets the currency payments are valued in.
    pub fn with_local_currency(self, ccy: Currency) -> (r: EventIndexer)
        requires
            self.wf(),
        ensures
            r.wf(),
            r@ == (IndexerModel { local_currency: Some(ccy), ..self@ }),
    {
        let mut s = self;
        s.local_currency = Some(ccy);
        s
    }

    pub fn current_event_date(&self) -> (r: Option<Date>)
        ensures
            r == self@.event_date,
    {
        self.event_date
    }

    /// Position of `name` in the table.
    fn find_name(&self, name: &String) -> (r: Option<usize>)
        requires
            self.wf(),
        ensures
            match r {
                Some(p) => p < self@.names.len() && self@.names.contains(name@)
                    && self@.names.index_of(name@) == p,
                None => !self@.names.contains(name@),
            },
    {
        let mut i: usize = 0;
        while i < self.names.len()
            invariant
                self.wf(),
                i <= self.names@.len(),
                forall|j: int| 0 <= j < i ==> self@.names[j] != name@,
            decreases self.names@.len() - i,
        {
            if self.names[i] == *name {
                proof {
                    assert(self@.names[i as int] == name@);
                    let k = self@.names.index_of(name@);
                    assert(self@.names[k] == name@);
                }
                return Some(i);
            }
            i = i + 1;
        }
        None
    }

    /// Slot of variable `variable_name`.
    pub fn get_variable_index(&self, variable_name: &str) -> (r: Option<usize>)
        requires
            self.wf(),
        ensures
            r == slot_of(self@, variable_name@),
    {
        let name = variable_name.to_owned();
        match self.find_name(&name) {
            Some(p) => Some(self.ids[p]),
            None => None,
        }
    }

    /// The first name (in order of entry) whose slot is `variable_index`.
    pub fn get_variable_name(&self, variable_index: usize) -> (r: Option<String>)
        requires
            self.wf(),
        ensures
            match r {
                Some(s) => exists|i: int| 0 <= i < self@.ids.len() && self@.ids[i] == variable_index
                    && self@.names[i] == s@ && forall|j: int| 0 <= j < i ==> self@.ids[j] != variable_index,
                None => forall|i: int| 0 <= i < self@.ids.len() ==> self@.ids[i] != variable_index,
            },
    {
        let mut i: usize = 0;
        while i < self.ids.len()
            invariant
                self.wf(),
                i <= self.ids@.len(),
                forall|j: int| 0 <= j < i ==> self@.ids[j] != variable_index,
            decreases self.ids@.len() - i,
        {
            if self.ids[i] == variable_index {
                let s = self.names[i].clone();
                assert(self@.names[i as int] == s@);
                return Some(s);
            }
            i = i + 1;
        }
        None
    }

    /// All variable names, in order of entry.
    pub fn get_variables(&self) -> (r: Vec<String>)
        requires
            self.wf(),
        ensures
            names_view(r@) == self@.names,
    {
        let mut r: Vec<String> = Vec::new();
        let mut i: usize = 0;
        while i < self.names.len()
            invariant
                i <= self.names@.len(),
                r@.len() == i,
                forall|j: int| 0 <= j < i ==> #[trigger] r@[j]@ == self.names@[j]@,
            decreases self.names@.len() - i,
        {
            r.push(self.names[i].clone());
            i = i + 1;
        }
        assert(names_view(r@) =~= self@.names);
        r
    }

    /// The variable table as (name, slot) pairs, in order of entry.
    pub fn get_variable_indexes(&self) -> (r: Vec<(String, usize)>)
        requires
            self.wf(),
        ensures
            r@.len() == self@.names.len(),
            forall|i: int| 0 <= i < r@.len() ==> #[trigger] r@[i].0@ == self@.names[i] && r@[i].1 == self@.ids[i],
    {
        let mut r: Vec<(String, usize)> = Vec::new();
        let mut i: usize = 0;
        while i < self.names.len()
            invariant
                self.wf(),
                i <= self.names@.len(),
                r@.len() == i,
                forall|j: int| 0 <= j < i ==> #[trigger] r@[j].0@ == self@.names[j] && r@[j].1 == self@.ids[j],
            decreases self.names@.len() - i,
        {
            r.push((self.names[i].clone(), self.ids[i]));
            i = i + 1;
        }
        r
    }

    /// Number of entries of the variable table.
    pub fn get_variables_size(&self) -> (r: usize)
        requires
            self.wf(),
        ensures
            r == self@.names.len(),
    {
        self.names.len()
    }

    /// A copy of the requests, one per visited event.
    pub fn get_request(&self) -> (r: Vec<SimulationDataRequest>)
        ensures
            requests_view(r@) == self@.requests,
    {
        let mut r: Vec<SimulationDataRequest> = Vec::new();
        let mut i: usize = 0;
        while i < self.market_requests.len()
            invariant
                i <= self.market_requests@.len(),
                r@.len() == i,
                forall|j: int| 0 <= j < i ==> #[trigger] r@[j]@ == self.market_requests@[j]@,
            decreases self.market_requests@.len() - i,
        {
            r.push(self.market_requests[i].copy());
            i = i + 1;
        }
        assert(requests_view(r@) =~= self@.requests);
        r
    }

    /// Forgets all variables, requests and context.
    pub fn reset(&mut self)
        ensures
            final(self).wf(),
            dense(final(self)@),
            final(self)@.names.len() == 0,
            final(self)@.requests.len() == 0,
            final(self)@.event_date is None,
            final(self)@.local_currency is None,
    {
        self.names.clear();
        self.ids.clear();
        self.market_requests.clear();
        self.event_date = None;
        self.local_currency = None;
        assert(self@.names =~= Seq::<Seq<char>>::empty());
    }

    /// Records an occurrence of variable `name` with its preset slot, if any.
    fn assign(&mut self, name: &String, preset: Option<usize>) -> (r: usize)
        requires
            old(self).wf(),
        ensures
            final(self).wf(),
            (final(self)@, r) == assign_var(old(self)@, name@, preset),
    {
        match self.find_name(name) {
            Some(p) => match preset {
                Some(id) => {
                    self.ids[p] = id;
                    assert(self@.ids =~= old(self)@.ids.update(p as int, id));
                    id
                },
                None => self.ids[p],
            },
            None => {
                let id = match preset {
                    Some(id) => id,
                    None => self.names.len(),
                };
                self.names.push(name.clone());
                self.ids.push(id);
                assert(self@.names =~= old(self)@.names.push(name@));
                id
            },
        }
    }

    fn push_fx_last(&mut self, fx: ExchangeRateRequest)
        requires
            old(self).wf(),
            old(self)@.requests.len() > 0,
        ensures
            final(self).wf(),
            final(self)@ == push_fx_model(old(self)@, fx),
    {
        let last = self.market_requests.len() - 1;
        self.market_requests[last].push_fx(fx);
        assert(self@.requests =~= push_fx_model(old(self)@, fx).requests);
    }

    fn push_df_last(&mut self, df: DiscountFactorRequest)
        requires
            old(self).wf(),
            old(self)@.requests.len() > 0,
        ensures
            final(self).wf(),
            final(self)@ == push_df_model(old(self)@, df@),
    {
        let last = self.market_requests.len() - 1;
        self.market_requests[last].push_df(df);
        assert(self@.requests =~= push_df_model(old(self)@, df@).requests);
    }

    fn push_fwd_last(&mut self, fwd: ForwardRateRequest)
        requires
            old(self).wf(),
            old(self)@.requests.len() > 0,
        ensures
            final(self).wf(),
            final(self)@ == push_fwd_model(old(self)@, fwd@),
    {
        let last = self.market_requests.len() - 1;
        self.market_requests[last].push_fwd(fwd);
        assert(self@.requests =~= push_fwd_model(old(self)@, fwd@).requests);
    }

    fn last_fx_count(&self) -> (r: usize)
        requires
            self@.requests.len() > 0,
        ensures
            r == self@.requests.last().fxs.len(),
    {
        let last = self.market_requests.len() - 1;
        self.market_requests[last].fxs().len()
    }

    fn last_df_count(&self) -> (r: usize)
        requires
            self@.requests.len() > 0,
        ensures
            r == self@.requests.last().dfs.len(),
    {
        let last = self.market_requests.len() - 1;
        self.market_requests[last].dfs().len()
    }

    fn last_fwd_count(&self) -> (r: usize)
        requires
            self@.requests.len() > 0,
        ensures
            r == self@.requests.last().fwds.len(),
    {
        let last = self.market_requests.len() - 1;
        self.market_requests[last].fwds().len()
    }

    /// Indexes a list of nodes, left to right, stopping at the first error.
    fn visit_list(&mut self, kids: &mut Vec<Node>) -> (r: Result<(), ScriptingError>)
        requires
            old(self).wf(),
        ensures
            final(self).wf(),
            match istep_seq(old(self)@, old(kids)@) {
                Ok(m) => r is Ok && final(self)@ == m && annotated_seq(old(self)@, old(kids)@, final(kids)@),
                Err(v) => r matches Err(e) && e@ == v,
            },
        decreases old(kids)@, 0nat,
    {
        let ghost m0 = self@;
        let ghost ok = kids@;
        let n = kids.len();
        let mut i: usize = 0;
        assert(ok.take(0) =~= Seq::<Node>::empty());
        assert(kids@.take(0) =~= Seq::<Node>::empty());
        while i < n
            invariant
                self.wf(),
                ok == old(kids)@,
                m0 == old(self)@,
                n == ok.len(),
                kids@.len() == n,
                i <= n,
                istep_seq(m0, ok.take(i as int)) == Ok::<IndexerModel, ErrorView>(self@),
                annotated_seq(m0, ok.take(i as int), kids@.take(i as int)),
                forall|j: int| i <= j < n ==> kids@[j] == ok[j],
            decreases n - i,
        {
            let ghost before = self@;
            let ghost kids_before = kids@;
            assert(ok.take(i + 1).drop_last() =~= ok.take(i as int));
            assert(ok.take(i + 1).last() == ok[i as int]);
            assert(kids@[i as int] == ok[i as int]);
            assert(istep_seq(m0, ok.take(i + 1)) == istep(before, ok[i as int]));
            proof {
                assert(decreases_to!(ok => ok[i as int]));
            }
            let mut c = Node::True;
            std::mem::swap(&mut c, &mut kids[i]);
            assert(c == ok[i as int]);
            let r = self.visit_node(&mut c);
            std::mem::swap(&mut c, &mut kids[i]);
            match r {
                Err(e) => {
                    proof {
                        assert(istep(before, ok[i as int]) is Err);
                        lemma_istep_seq_prefix_err(m0, ok, i + 1);
                    }
                    return Err(e);
                },
                Ok(()) => {},
            }
            proof {
                assert(kids@.take(i + 1).drop_last() =~= kids_before.take(i as int));
                assert(kids@.take(i + 1).last() == kids@[i as int]);
            }
            i = i + 1;
        }
        assert(ok.take(n as int) =~= ok);
        assert(kids@.take(n as int) =~= kids@);
        Ok(())
    }

    /// Indexes a payment: its amount, then its discount and exchange requests.
    fn visit_pays(&mut self, d: &mut PaysData) -> (r: Result<(), ScriptingError>)
        requires
            old(self).wf(),
        ensures
            final(self).wf(),
            match istep(old(self)@, Node::Pays(*old(d))) {
                Ok(m) => r is Ok && final(self)@ == m
                    && annotated(old(self)@, Node::Pays(*old(d)), Node::Pays(*final(d))),
                Err(v) => r matches Err(e) && e@ == v,
            },
        decreases Node::Pays(*old(d)), 0nat,
    {
        let ghost m0 = self@;
        let ghost d0 = *d;
        match self.visit_list(&mut d.children) {
            Err(e) => return Err(e),
            Ok(()) => {},
        }
        let ghost m1 = self@;
        assert(istep_seq(m0, d0.children@) == Ok::<IndexerModel, ErrorView>(m1));
        assert(d.df_id == d0.df_id && d.date == d0.date && d.currency == d0.currency && d.spot_id == d0.spot_id);
        if d.df_id.is_none() {
            let pay = match d.date {
                Some(x) => x,
                None => match self.event_date {
                    Some(x) => x,
                    None => return Err(invalid_syntax("Event date is not set")),
                },
            };
            if self.market_requests.len() == 0 {
                return Err(not_found("No market requests found"));
            }
            let from = match self.event_date {
                Some(x) => x,
                None => pay,
            };
            let size = self.last_df_count();
            proof {
                reveal_strlit("local");
                assert("local"@ =~= local_curve());
            }
            self.push_df_last(DiscountFactorRequest::new("local".to_owned(), pay, from));
            d.df_id = Some(size);
        }
        let ghost m2 = self@;
        assert(pays_df_step(m1, d0) == Ok::<IndexerModel, ErrorView>(m2));
        match d.currency {
            Some(ccy) => {
                if d.spot_id.is_none() {
                    let dom = match self.local_currency {
                        Some(x) => x,
                        None => return Err(invalid_syntax("Local currency is not set")),
                    };
                    let pay = match d.date {
                        Some(x) => x,
                        None => match self.event_date {
                            Some(x) => x,
                            None => return Err(invalid_syntax("Event date is not set")),
                        },
                    };
                    if self.market_requests.len() == 0 {
                        return Err(not_found("No market requests found"));
                    }
                    let size = self.last_fx_count();
                    self.push_fx_last(ExchangeRateRequest::new(dom, ccy, pay));
                    d.spot_id = Some(size);
                }
            },
            None => {},
        }
        Ok(())
    }

    /// Indexes one node and the nodes below it. Variables get their slot (a new name gets
    /// the next free one); spot, discount, rate-index and payment nodes get the index of
    /// the request they add to the current event's request.
    ///
    /// From a dense table (slot `i` holds the `i`-th name entered, as every table indexed
    /// from `new` with no preset slot is), indexing a fresh tree keeps the table dense, only
    /// appends, and leaves the tree well indexed. In particular a variable with no slot and
    /// no sub-expression gets the slot of its name when the name is known, the table
    /// unchanged, and otherwise the next slot, the table's size, with the table grown by its
    /// name. A slot preset in a tree may break density, which is why the table's validity
    /// does not include it.
    pub fn visit(&mut self, node: &mut Node) -> (r: Result<(), ScriptingError>)
        requires
            old(self).wf(),
        ensures
            final(self).wf(),
            match istep(old(self)@, *old(node)) {
                Ok(m) => r is Ok && final(self)@ == m && annotated(old(self)@, *old(node), *final(node)),
                Err(v) => r matches Err(e) && e@ == v,
            },
            r is Err && (*old(node) is Spot || *old(node) is Df || *old(node) is RateIndex)
                ==> *final(node) == *old(node) && final(self)@ == old(self)@,
            r is Ok && dense(old(self)@) && fresh(*old(node)) && has_room(old(self)@, visit_size(*old(node)))
                ==> dense(final(self)@) && only_appends(old(self)@, final(self)@)
                    && well_indexed(final(self)@.names, final(self)@.requests.last(), *final(node)),
            dense(old(self)@) && old(self)@.names.len() < usize::MAX && *old(node) is Variable
                && old(node)->Variable_0.id is None && old(node)->Variable_0.expr_data.children@.len() == 0
                ==> {
                    let name = old(node)->Variable_0.name@;
                    let known = old(self)@.names.contains(name);
                    &&& r is Ok
                    &&& dense(final(self)@)
                    &&& *final(node) is Variable
                    &&& final(node)->Variable_0.id == Some(
                        if known { old(self)@.names.index_of(name) as usize } else { old(self)@.names.len() as usize },
                    )
                    &&& final(self)@.names == (if known { old(self)@.names } else { old(self)@.names.push(name) })
                    &&& final(self)@.requests == old(self)@.requests
                },
    {
        let ghost m0 = self@;
        let ghost n0 = *node;
        let r = self.visit_node(node);
        proof {
            if r is Ok && dense(m0) && fresh(n0) && has_room(m0, visit_size(n0)) {
                lemma_indexing(m0, n0, *node);
            }
            if dense(m0) && m0.names.len() < usize::MAX && n0 is Variable && n0->Variable_0.id is None
                && n0->Variable_0.expr_data.children@.len() == 0 {
                lemma_variable_slot(m0, n0->Variable_0);
            }
        }
        r
    }

    /// The walk behind `visit`.
    fn visit_node(&mut self, node: &mut Node) -> (r: Result<(), ScriptingError>)
        requires
            old(self).wf(),
        ensures
            final(self).wf(),
            match istep(old(self)@, *old(node)) {
                Ok(m) => r is Ok && final(self)@ == m && annotated(old(self)@, *old(node), *final(node)),
                Err(v) => r matches Err(e) && e@ == v,
            },
            r is Err && (*old(node) is Spot || *old(node) is Df || *old(node) is RateIndex)
                ==> *final(node) == *old(node) && final(self)@ == old(self)@,
        decreases *old(node), 1nat,
    {
        match node {
            Node::Base(d) => self.visit_list(&mut d.children),
            Node::Add(d) => self.visit_list(&mut d.children),
            Node::Subtract(d) => self.visit_list(&mut d.children),
            Node::Multiply(d) => self.visit_list(&mut d.children),
            Node::Divide(d) => self.visit_list(&mut d.children),
            Node::Assign(d) => self.visit_list(&mut d.children),
            Node::Min(d) => self.visit_list(&mut d.children),
            Node::Max(d) => self.visit_list(&mut d.children),
            Node::Exp(d) => self.visit_list(&mut d.children),
            Node::Pow(d) => self.visit_list(&mut d.children),
            Node::Ln(d) => self.visit_list(&mut d.children),
            Node::Fif(d) => self.visit_list(&mut d.children),
            Node::Append(d) => self.visit_list(&mut d.children),
            Node::Mean(d) => self.visit_list(&mut d.children),
            Node::Std(d) => self.visit_list(&mut d.children),
            Node::Index(d) => self.visit_list(&mut d.children),
            Node::UnaryPlus(d) => self.visit_list(&mut d.children),
            Node::UnaryMinus(d) => self.visit_list(&mut d.children),
            Node::Equal(d) => self.visit_list(&mut d.children),
            Node::NotEqual(d) => self.visit_list(&mut d.children),
            Node::And(d) => self.visit_list(&mut d.children),
            Node::Or(d) => self.visit_list(&mut d.children),
            Node::Not(d) => self.visit_list(&mut d.children),
            Node::Superior(d) => self.visit_list(&mut d.children),
            Node::Inferior(d) => self.visit_list(&mut d.children),
            Node::SuperiorOrEqual(d) => self.visit_list(&mut d.children),
            Node::InferiorOrEqual(d) => self.visit_list(&mut d.children),
            Node::Range(d) => self.visit_list(&mut d.children),
            Node::List(d) => self.visit_list(&mut d.children),
            Node::If(d) => self.visit_list(&mut d.children),
            Node::Variable(d) => {
                match self.visit_list(&mut d.expr_data.children) {
                    Err(e) => return Err(e),
                    Ok(()) => {},
                }
                let a = self.assign(&d.name, d.id);
                if d.id.is_none() {
                    d.id = Some(a);
                }
                Ok(())
            },
            Node::ForEach(d) => {
                match self.visit_list(&mut d.iter) {
                    Err(e) => return Err(e),
                    Ok(()) => {},
                }
                let a = self.assign(&d.var, d.id);
                if d.id.is_none() {
                    d.id = Some(a);
                }
                self.visit_node(&mut *d.node)
            },
            Node::Spot(d) => {
                if d.id.is_none() {
                    if self.market_requests.len() == 0 {
                        return Err(not_found("No market requests found"));
                    }
                    let ev = match self.event_date {
                        Some(x) => x,
                        None => return Err(invalid_syntax("Event date is not set")),
                    };
                    let date = match d.date {
                        Some(x) => x,
                        None => ev,
                    };
                    let size = self.last_fx_count();
                    self.push_fx_last(ExchangeRateRequest::new(d.first, d.second, date));
                    d.id = Some(size);
                }
                Ok(())
            },
            Node::Df(d) => {
                if d.id.is_none() {
                    if self.market_requests.len() == 0 {
                        return Err(not_found("No market requests found"));
                    }
                    let curve = match &d.curve {
                        Some(c) => c.clone(),
                        None => "local".to_owned(),
                    };
                    proof {
                        reveal_strlit("local");
                        assert("local"@ =~= local_curve());
                    }
                    let from = match self.event_date {
                        Some(x) => x,
                        None => d.date,
                    };
                    let size = self.last_df_count();
                    self.push_df_last(DiscountFactorRequest::new(curve, d.date, from));
                    d.id = Some(size);
                }
                Ok(())
            },
            Node::RateIndex(d) => {
                if d.id.is_none() {
                    if self.market_requests.len() == 0 {
                        return Err(not_found("No market requests found"));
                    }
                    let size = self.last_fwd_count();
                    self.push_fwd_last(ForwardRateRequest::new(
                        d.name.clone(),
                        d.start,
                        d.start,
                        d.end,
                        Compounding::Simple,
                        Frequency::Annual,
                    ));
                    d.id = Some(size);
                }
                Ok(())
            },
            Node::Pays(d) => self.visit_pays(d),
            _ => Ok(()),
        }
    }

    /// Indexes every event of the stream in order: each event becomes the current one
    /// (its date is the event date) and gets a fresh, empty request.
    pub fn visit_events(&mut self, events: &mut EventStream) -> (r: Result<(), ScriptingError>)
        requires
            old(self).wf(),
        ensures
            final(self).wf(),
            match istep_events(old(self)@, old(events).events@) {
                Ok(m) => r is Ok && final(self)@ == m
                    && annotated_events(old(self)@, old(events).events@, final(events).events@),
                Err(v) => r matches Err(e) && e@ == v,
            },
            r is Ok && dense(old(self)@)
                && (forall|i: int| 0 <= i < old(events).events@.len() ==> fresh(#[trigger] old(events).events@[i].expr))
                && old(self)@.names.len() + events_size(old(events).events@) <= usize::MAX
                ==> dense(final(self)@) && forall|i: int| 0 <= i < final(events).events@.len() ==> well_indexed(
                    final(self)@.names,
                    final(self)@.requests[old(self)@.requests.len() + i],
                    #[trigger] final(events).events@[i].expr,
                ),
    {
        let ghost m0 = self@;
        let ghost ok = events.events@;
        let n = events.events.len();
        let mut i: usize = 0;
        assert(ok.take(0) =~= Seq::<Event>::empty());
        assert(events.events@.take(0) =~= Seq::<Event>::empty());
        while i < n
            invariant
                self.wf(),
                ok == old(events).events@,
                m0 == old(self)@,
                n == ok.len(),
                events.events@.len() == n,
                i <= n,
                istep_events(m0, ok.take(i as int)) == Ok::<IndexerModel, ErrorView>(self@),
                annotated_events(m0, ok.take(i as int), events.events@.take(i as int)),
                forall|j: int| i <= j < n ==> events.events@[j] == ok[j],
            decreases n - i,
        {
            let ghost evs_before = events.events@;
            assert(ok.take(i + 1).drop_last() =~= ok.take(i as int));
            assert(ok.take(i + 1).last() == ok[i as int]);
            let date = events.events[i].event_date;
            self.event_date = Some(date);
            self.market_requests.push(SimulationDataRequest::new());
            assert(self@.requests =~= start_event(istep_events(m0, ok.take(i as int))->Ok_0, date).requests);
            let ghost before = self@;
            assert(before == start_event(istep_events(m0, ok.take(i as int))->Ok_0, date));
            let mut e = Node::True;
            std::mem::swap(&mut e, &mut events.events[i].expr);
            assert(e == ok[i as int].expr);
            let r = self.visit(&mut e);
            std::mem::swap(&mut e, &mut events.events[i].expr);
            match r {
                Err(x) => {
                    proof {
                        lemma_istep_events_prefix_err(m0, ok, i + 1);
                    }
                    return Err(x);
                },
                Ok(()) => {},
            }
            proof {
                assert(events.events@.take(i + 1).drop_last() =~= evs_before.take(i as int));
                assert(events.events@.take(i + 1).last() == events.events@[i as int]);
            }
            i = i + 1;
        }
        assert(ok.take(n as int) =~= ok);
        assert(events.events@.take(n as int) =~= events.events@);
        proof {
            if dense(m0) && (forall|i: int| 0 <= i < ok.len() ==> fresh(#[trigger] ok[i].expr))
                && m0.names.len() + events_size(ok) <= usize::MAX {
                lemma_indexing_events(m0, ok, events.events@);
            }
        }
        Ok(())
    }
}

} // verus!
