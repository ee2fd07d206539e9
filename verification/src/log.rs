//! The event stream of one trace: an ordered, finite sequence of decoded
//! events, addressable by position.

use vstd::prelude::*;

use crate::event::{Event, EventV};
use crate::parser;

verus! {

/// A decoded trace. Lines that did not decode are not represented here;
/// [`parser::parse_errors`] reports them.
pub struct Log {
    events: Vec<Event>,
}

impl View for Log {
    type V = Seq<EventV>;

    closed spec fn view(&self) -> Seq<EventV> {
        self.events.deep_view()
    }
}

impl Log {
    /// Decode a whole trace. Decoding never fails as a whole: lines that
    /// do not decode are skipped.
    pub fn from_str(string: &str) -> (r: Log)
        ensures
            r@ == parser::parse_trace(string@),
    {
        Log { events: parser::parse(string) }
    }

    /// Wrap an already decoded stream of events.
    pub fn from_events(events: Vec<Event>) -> (r: Log)
        ensures
            r@ == events.deep_view(),
    {
        Log { events }
    }

    /// The events of this trace, in order.
    pub fn events(&self) -> (r: &Vec<Event>)
        ensures
            r.deep_view() == self@,
    {
        &self.events
    }
}

} // verus!
