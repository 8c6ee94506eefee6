use vstd::prelude::*;

use crate::date::Date;
use crate::node::Node;

verus! {

/// A script statement block that happens at one date.
#[derive(Debug, PartialEq)]
pub struct Event {
    pub event_date: Date,
    pub expr: Node,
}

impl Event {
    pub fn new(event_date: Date, expr: Node) -> (e: Event)
        ensures
            e.event_date == event_date,
            e.expr == expr,
    {
        Event { event_date, expr }
    }

    pub fn event_date(&self) -> (r: Date)
        ensures
            r == self.event_date,
    {
        self.event_date
    }

    pub fn expr(&self) -> (r: &Node)
        ensures
            *r == self.expr,
    {
        &self.expr
    }
}

/// The events of a script, in date order of the script.
#[derive(Debug, PartialEq)]
pub struct EventStream {
    pub events: Vec<Event>,
}

impl EventStream {
    pub fn new() -> (s: EventStream)
        ensures
            s.events@.len() == 0,
    {
        EventStream { events: Vec::new() }
    }

    pub fn with_events(self, events: Vec<Event>) -> (s: EventStream)
        ensures
            s.events == events,
    {
        EventStream { events }
    }

    pub fn events(&self) -> (r: &Vec<Event>)
        ensures
            r == self.events,
    {
        &self.events
    }

    /// The dates of the events, in order.
    pub fn event_dates(&self) -> (r: Vec<Date>)
        ensures
            r@.len() == self.events@.len(),
            forall|i: int| 0 <= i < r@.len() ==> r@[i] == #[trigger] self.events@[i].event_date,
    {
        let mut r: Vec<Date> = Vec::new();
        let mut i: usize = 0;
        while i < self.events.len()
            invariant
                i <= self.events@.len(),
                r@.len() == i,
                forall|j: int| 0 <= j < i ==> r@[j] == #[trigger] self.events@[j].event_date,
            decreases self.events@.len() - i,
        {
            r.push(self.events[i].event_date);
            i = i + 1;
        }
        r
    }
}

} // verus!
