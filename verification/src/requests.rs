use vstd::prelude::*;

use crate::currency::Currency;
use crate::date::Date;

verus! {

/// How interest compounds.
#[derive(Clone, Copy, Debug, PartialEq, Eq, Structural, Hash)]
pub enum Compounding {
    Simple,
    Compounded,
    Continuous,
    SimpleThenCompounded,
}

/// How often interest is paid.
#[derive(Clone, Copy, Debug, PartialEq, Eq, Structural, Hash)]
pub enum Frequency {
    NoFrequency,
    Once,
    Annual,
    Semiannual,
    EveryFourthMonth,
    Quarterly,
    Bimonthly,
    Monthly,
    EveryFourthWeek,
    Biweekly,
    Weekly,
    Daily,
    OtherFrequency,
}

/// Abstract content of a discount-factor request.
pub struct DfRequestView {
    pub curve: Seq<char>,
    pub to_date: Date,
    pub from_date: Date,
}

/// Abstract content of a forward-rate request.
pub struct FwdRequestView {
    pub curve: Seq<char>,
    pub fixing_date: Date,
    pub start_date: Date,
    pub end_date: Date,
    pub compounding: Compounding,
    pub frequency: Frequency,
}

/// Abstract content of an equity request.
pub struct EquityRequestView {
    pub equity_id: Seq<char>,
    pub date: Date,
}

/// Abstract content of the requests of one event.
pub struct RequestView {
    pub dfs: Seq<DfRequestView>,
    pub fwds: Seq<FwdRequestView>,
    pub fxs: Seq<ExchangeRateRequest>,
    pub equities: Seq<EquityRequestView>,
}

/// A request for the discount factor from `from_date` to `to_date` on `curve`.
#[derive(Debug, Clone, PartialEq)]
pub struct DiscountFactorRequest {
    curve: String,
    to_date: Date,
    from_date: Date,
}

impl View for DiscountFactorRequest {
    type V = DfRequestView;

    closed spec fn view(&self) -> DfRequestView {
        DfRequestView { curve: self.curve@, to_date: self.to_date, from_date: self.from_date }
    }
}

impl DiscountFactorRequest {
    pub fn new(curve: String, to_date: Date, from_date: Date) -> (r: DiscountFactorRequest)
        ensures
            r@ == (DfRequestView { curve: curve@, to_date, from_date }),
    {
        DiscountFactorRequest { curve, to_date, from_date }
    }

    /// A copy with the same content.
    pub fn copy(&self) -> (r: DiscountFactorRequest)
        ensures
            r@ == self@,
    {
        DiscountFactorRequest { curve: self.curve.clone(), to_date: self.to_date, from_date: self.from_date }
    }

    pub fn curve(&self) -> (r: &String)
        ensures
            r@ == self@.curve,
    {
        &self.curve
    }

    pub fn to_date(&self) -> (r: Date)
        ensures
            r == self@.to_date,
    {
        self.to_date
    }

    pub fn from_date(&self) -> (r: Date)
        ensures
            r == self@.from_date,
    {
        self.from_date
    }
}

/// A request for the forward rate of `curve` fixed at `fixing_date` over
/// `start_date`..`end_date`.
#[derive(Debug, Clone, PartialEq)]
pub struct ForwardRateRequest {
    curve: String,
    fixing_date: Date,
    start_date: Date,
    end_date: Date,
    compounding: Compounding,
    frequency: Frequency,
}

impl View for ForwardRateRequest {
    type V = FwdRequestView;

    closed spec fn view(&self) -> FwdRequestView {
        FwdRequestView {
            curve: self.curve@,
            fixing_date: self.fixing_date,
            start_date: self.start_date,
            end_date: self.end_date,
            compounding: self.compounding,
            frequency: self.frequency,
        }
    }
}

impl ForwardRateRequest {
    pub fn new(
        curve: String,
        fixing_date: Date,
        start_date: Date,
        end_date: Date,
        compounding: Compounding,
        frequency: Frequency,
    ) -> (r: ForwardRateRequest)
        ensures
            r@ == (FwdRequestView {
                curve: curve@,
                fixing_date,
                start_date,
                end_date,
                compounding,
                frequency,
            }),
    {
        ForwardRateRequest { curve, fixing_date, start_date, end_date, compounding, frequency }
    }

    /// A copy with the same content.
    pub fn copy(&self) -> (r: ForwardRateRequest)
        ensures
            r@ == self@,
    {
        ForwardRateRequest {
            curve: self.curve.clone(),
            fixing_date: self.fixing_date,
            start_date: self.start_date,
            end_date: self.end_date,
            compounding: self.compounding,
            frequency: self.frequency,
        }
    }

    pub fn curve(&self) -> (r: &String)
        ensures
            r@ == self@.curve,
    {
        &self.curve
    }

    pub fn fixing_date(&self) -> (r: Date)
        ensures
            r == self@.fixing_date,
    {
        self.fixing_date
    }

    pub fn start_date(&self) -> (r: Date)
        ensures
            r == self@.start_date,
    {
        self.start_date
    }

    pub fn end_date(&self) -> (r: Date)
        ensures
            r == self@.end_date,
    {
        self.end_date
    }

    pub fn compounding(&self) -> (r: Compounding)
        ensures
            r == self@.compounding,
    {
        self.compounding
    }

    pub fn frequency(&self) -> (r: Frequency)
        ensures
            r == self@.frequency,
    {
        self.frequency
    }
}

/// A request for the exchange rate `first_ccy`/`second_ccy` at `date`.
#[derive(Debug, Clone, Copy, PartialEq, Eq, Structural)]
pub struct ExchangeRateRequest {
    pub first_ccy: Currency,
    pub second_ccy: Currency,
    pub date: Date,
}

impl ExchangeRateRequest {
    pub fn new(first_ccy: Currency, second_ccy: Currency, date: Date) -> (r: ExchangeRateRequest)
        ensures
            r == (ExchangeRateRequest { first_ccy, second_ccy, date }),
    {
        ExchangeRateRequest { first_ccy, second_ccy, date }
    }

    pub fn first_currency(&self) -> (r: Currency)
        ensures
            r == self.first_ccy,
    {
        self.first_ccy
    }

    pub fn second_currency(&self) -> (r: Currency)
        ensures
            r == self.second_ccy,
    {
        self.second_ccy
    }

    pub fn date(&self) -> (r: Date)
        ensures
            r == self.date,
    {
        self.date
    }
}

/// A request for the price of equity `equity_id` at `date`.
#[derive(Debug, Clone, PartialEq)]
pub struct EquityRequest {
    equity_id: String,
    date: Date,
}

impl View for EquityRequest {
    type V = EquityRequestView;

    closed spec fn view(&self) -> EquityRequestView {
        EquityRequestView { equity_id: self.equity_id@, date: self.date }
    }
}

impl EquityRequest {
    pub fn new(equity_id: String, date: Date) -> (r: EquityRequest)
        ensures
            r@ == (EquityRequestView { equity_id: equity_id@, date }),
    {
        EquityRequest { equity_id, date }
    }

    /// A copy with the same content.
    pub fn copy(&self) -> (r: EquityRequest)
        ensures
            r@ == self@,
    {
        EquityRequest { equity_id: self.equity_id.clone(), date: self.date }
    }

    pub fn equity_id(&self) -> (r: &String)
        ensures
            r@ == self@.equity_id,
    {
        &self.equity_id
    }

    pub fn date(&self) -> (r: Date)
        ensures
            r == self@.date,
    {
        self.date
    }
}

pub open spec fn dfs_view(v: Seq<DiscountFactorRequest>) -> Seq<DfRequestView> {
    v.map_values(|r: DiscountFactorRequest| r@)
}

pub open spec fn fwds_view(v: Seq<ForwardRateRequest>) -> Seq<FwdRequestView> {
    v.map_values(|r: ForwardRateRequest| r@)
}

pub open spec fn equities_view(v: Seq<EquityRequest>) -> Seq<EquityRequestView> {
    v.map_values(|r: EquityRequest| r@)
}

/// The market data one event of a script needs, each list in the order in which the
/// script's nodes asked for it: a node's request index is its position here.
#[derive(Debug, Clone, PartialEq)]
pub struct SimulationDataRequest {
    dfs: Vec<DiscountFactorRequest>,
    fwds: Vec<ForwardRateRequest>,
    fxs: Vec<ExchangeRateRequest>,
    equities: Vec<EquityRequest>,
}

impl View for SimulationDataRequest {
    type V = RequestView;

    closed spec fn view(&self) -> RequestView {
        RequestView {
            dfs: dfs_view(self.dfs@),
            fwds: fwds_view(self.fwds@),
            fxs: self.fxs@,
            equities: equities_view(self.equities@),
        }
    }
}

/// The request of an event before any node asked for data.
pub open spec fn empty_request() -> RequestView {
    RequestView { dfs: seq![], fwds: seq![], fxs: seq![], equities: seq![] }
}

impl SimulationDataRequest {
    pub fn new() -> (r: SimulationDataRequest)
        ensures
            r@ == empty_request(),
    {
        let r = SimulationDataRequest {
            dfs: Vec::new(),
            fwds: Vec::new(),
            fxs: Vec::new(),
            equities: Vec::new(),
        };
        assert(r@.dfs =~= seq![]);
        assert(r@.fwds =~= seq![]);
        assert(r@.equities =~= seq![]);
        r
    }

    /// An empty request whose lists reserve room for the given numbers of entries.
    pub fn with_capacity(
        dfs_cap: usize,
        fwds_cap: usize,
        fxs_cap: usize,
        equities_cap: usize,
    ) -> (r: SimulationDataRequest)
        ensures
            r@ == empty_request(),
    {
        let r = SimulationDataRequest {
            dfs: Vec::with_capacity(dfs_cap),
            fwds: Vec::with_capacity(fwds_cap),
            fxs: Vec::with_capacity(fxs_cap),
            equities: Vec::with_capacity(equities_cap),
        };
        assert(r@.dfs =~= seq![]);
        assert(r@.fwds =~= seq![]);
        assert(r@.equities =~= seq![]);
        r
    }

    /// A copy with the same content.
    pub fn copy(&self) -> (r: SimulationDataRequest)
        ensures
            r@ == self@,
    {
        let mut dfs: Vec<DiscountFactorRequest> = Vec::new();
        let mut i: usize = 0;
        while i < self.dfs.len()
            invariant
                i <= self.dfs@.len(),
                dfs@.len() == i,
                forall|j: int| 0 <= j < i ==> #[trigger] dfs@[j]@ == self.dfs@[j]@,
            decreases self.dfs@.len() - i,
        {
            dfs.push(self.dfs[i].copy());
            i = i + 1;
        }
        let mut fwds: Vec<ForwardRateRequest> = Vec::new();
        let mut i: usize = 0;
        while i < self.fwds.len()
            invariant
                i <= self.fwds@.len(),
                fwds@.len() == i,
                forall|j: int| 0 <= j < i ==> #[trigger] fwds@[j]@ == self.fwds@[j]@,
            decreases self.fwds@.len() - i,
        {
            fwds.push(self.fwds[i].copy());
            i = i + 1;
        }
        let mut fxs: Vec<ExchangeRateRequest> = Vec::new();
        let mut i: usize = 0;
        while i < self.fxs.len()
            invariant
                i <= self.fxs@.len(),
                fxs@ =~= self.fxs@.take(i as int),
            decreases self.fxs@.len() - i,
        {
            fxs.push(self.fxs[i]);
            i = i + 1;
        }
        let mut equities: Vec<EquityRequest> = Vec::new();
        let mut i: usize = 0;
        while i < self.equities.len()
            invariant
                i <= self.equities@.len(),
                equities@.len() == i,
                forall|j: int| 0 <= j < i ==> #[trigger] equities@[j]@ == self.equities@[j]@,
            decreases self.equities@.len() - i,
        {
            equities.push(self.equities[i].copy());
            i = i + 1;
        }
        let r = SimulationDataRequest { dfs, fwds, fxs, equities };
        assert(r@.dfs =~= self@.dfs);
        assert(r@.fwds =~= self@.fwds);
        assert(r@.fxs =~= self@.fxs);
        assert(r@.equities =~= self@.equities);
        r
    }

    pub fn push_df(&mut self, df: DiscountFactorRequest)
        ensures
            final(self)@ == (RequestView { dfs: old(self)@.dfs.push(df@), ..old(self)@ }),
    {
        self.dfs.push(df);
        assert(self@.dfs =~= old(self)@.dfs.push(df@));
    }

    pub fn push_fwd(&mut self, fwd: ForwardRateRequest)
        ensures
            final(self)@ == (RequestView { fwds: old(self)@.fwds.push(fwd@), ..old(self)@ }),
    {
        self.fwds.push(fwd);
        assert(self@.fwds =~= old(self)@.fwds.push(fwd@));
    }

    pub fn push_fx(&mut self, fx: ExchangeRateRequest)
        ensures
            final(self)@ == (RequestView { fxs: old(self)@.fxs.push(fx), ..old(self)@ }),
    {
        self.fxs.push(fx);
    }

    pub fn push_equity(&mut self, equity: EquityRequest)
        ensures
            final(self)@ == (RequestView {
                equities: old(self)@.equities.push(equity@),
                ..old(self)@
            }),
    {
        self.equities.push(equity);
        assert(self@.equities =~= old(self)@.equities.push(equity@));
    }

    pub fn dfs(&self) -> (r: &Vec<DiscountFactorRequest>)
        ensures
            dfs_view(r@) == self@.dfs,
    {
        &self.dfs
    }

    pub fn fwds(&self) -> (r: &Vec<ForwardRateRequest>)
        ensures
            fwds_view(r@) == self@.fwds,
    {
        &self.fwds
    }

    pub fn fxs(&self) -> (r: &Vec<ExchangeRateRequest>)
        ensures
            r@ == self@.fxs,
    {
        &self.fxs
    }

    pub fn equities(&self) -> (r: &Vec<EquityRequest>)
        ensures
            equities_view(r@) == self@.equities,
    {
        &self.equities
    }
}

} // verus!
