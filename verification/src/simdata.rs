use vstd::prelude::*;

use crate::error::{ErrorKind, ScriptingError};

verus! {

/// The simulated market data of one event of one scenario: the numeraire and the values
/// asked for by the event's request, each list in the request's order. `N` is the number
/// type of the simulation.
#[derive(Debug, Clone, PartialEq)]
pub struct SimulationData<N> {
    numerarie: N,
    dfs: Vec<N>,
    fwds: Vec<N>,
    fxs: Vec<N>,
    equities: Vec<N>,
}

/// One scenario: the simulated data of each event, in event order.
pub type Scenario<N> = Vec<SimulationData<N>>;

/// The entry `index` of a list, or the not-found error when the list is shorter.
pub open spec fn entry_at<N>(s: Seq<N>, index: usize) -> Result<N, ErrorKind> {
    if index < s.len() {
        Ok(s[index as int])
    } else {
        Err(ErrorKind::NotFound)
    }
}

fn entry<N: Copy>(v: &Vec<N>, index: usize, what: &str) -> (r: Result<N, ScriptingError>)
    ensures
        match entry_at(v@, index) {
            Ok(x) => r == Ok::<N, ScriptingError>(x),
            Err(k) => r matches Err(e) && e.kind() == k,
        },
{
    if index < v.len() {
        Ok(v[index])
    } else {
        Err(ScriptingError::NotFoundError(what.to_owned()))
    }
}

impl<N: Copy> SimulationData<N> {
    pub closed spec fn spec_numerarie(&self) -> N {
        self.numerarie
    }

    pub closed spec fn spec_dfs(&self) -> Seq<N> {
        self.dfs@
    }

    pub closed spec fn spec_fwds(&self) -> Seq<N> {
        self.fwds@
    }

    pub closed spec fn spec_fxs(&self) -> Seq<N> {
        self.fxs@
    }

    pub closed spec fn spec_equities(&self) -> Seq<N> {
        self.equities@
    }

    pub fn new(numerarie: N, dfs: Vec<N>, fwds: Vec<N>, fxs: Vec<N>, equities: Vec<N>) -> (r: SimulationData<N>)
        ensures
            r.spec_numerarie() == numerarie,
            r.spec_dfs() == dfs@,
            r.spec_fwds() == fwds@,
            r.spec_fxs() == fxs@,
            r.spec_equities() == equities@,
    {
        SimulationData { numerarie, dfs, fwds, fxs, equities }
    }

    pub fn numerarie(&self) -> (r: N)
        ensures
            r == self.spec_numerarie(),
    {
        self.numerarie
    }

    pub fn dfs(&self) -> (r: &Vec<N>)
        ensures
            r@ == self.spec_dfs(),
    {
        &self.dfs
    }

    pub fn fwds(&self) -> (r: &Vec<N>)
        ensures
            r@ == self.spec_fwds(),
    {
        &self.fwds
    }

    pub fn fxs(&self) -> (r: &Vec<N>)
        ensures
            r@ == self.spec_fxs(),
    {
        &self.fxs
    }

    pub fn equities(&self) -> (r: &Vec<N>)
        ensures
            r@ == self.spec_equities(),
    {
        &self.equities
    }

    /// The discount factor asked for by request entry `index`.
    pub fn get_df(&self, index: usize) -> (r: Result<N, ScriptingError>)
        ensures
            match entry_at(self.spec_dfs(), index) {
                Ok(x) => r == Ok::<N, ScriptingError>(x),
                Err(k) => r matches Err(e) && e.kind() == k,
            },
    {
        entry(&self.dfs, index, "df not found at the requested index")
    }

    /// The forward rate asked for by request entry `index`.
    pub fn get_fwd(&self, index: usize) -> (r: Result<N, ScriptingError>)
        ensures
            match entry_at(self.spec_fwds(), index) {
                Ok(x) => r == Ok::<N, ScriptingError>(x),
                Err(k) => r matches Err(e) && e.kind() == k,
            },
    {
        entry(&self.fwds, index, "fwd not found at the requested index")
    }

    /// The exchange rate asked for by request entry `index`.
    pub fn get_fx(&self, index: usize) -> (r: Result<N, ScriptingError>)
        ensures
            match entry_at(self.spec_fxs(), index) {
                Ok(x) => r == Ok::<N, ScriptingError>(x),
                Err(k) => r matches Err(e) && e.kind() == k,
            },
    {
        entry(&self.fxs, index, "fx not found at the requested index")
    }

    /// The equity price asked for by request entry `index`.
    pub fn get_equity(&self, index: usize) -> (r: Result<N, ScriptingError>)
        ensures
            match entry_at(self.spec_equities(), index) {
                Ok(x) => r == Ok::<N, ScriptingError>(x),
                Err(k) => r matches Err(e) && e.kind() == k,
            },
    {
        entry(&self.equities, index, "equity not found at the requested index")
    }
}

} // verus!
