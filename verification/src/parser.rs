//! Decoding a whole trace: every line becomes an event, and lines that do
//! not decode are skipped and reported with their line number.

use vstd::prelude::*;

use crate::event::{Event, EventV, ParseError, ParseErrorV, parse_event};
use crate::text;

verus! {

/// The events of the lines that decode, in line order.
pub open spec fn events_of_lines(lines: Seq<Seq<char>>) -> Seq<EventV>
    decreases lines.len(),
{
    if lines.len() == 0 {
        Seq::empty()
    } else {
        let rest = events_of_lines(lines.drop_last());
        match parse_event(lines.last()) {
            Ok(e) => rest.push(e),
            Err(_) => rest,
        }
    }
}

/// The failures of the lines that do not decode, each with its one-based
/// line number, in line order.
pub open spec fn errors_of_lines(lines: Seq<Seq<char>>) -> Seq<(int, ParseErrorV)>
    decreases lines.len(),
{
    if lines.len() == 0 {
        Seq::empty()
    } else {
        let rest = errors_of_lines(lines.drop_last());
        match parse_event(lines.last()) {
            Ok(_) => rest,
            Err(e) => rest.push((lines.len() as int, e)),
        }
    }
}

/// The events a whole trace decodes to.
pub open spec fn parse_trace(s: Seq<char>) -> Seq<EventV> {
    events_of_lines(text::split_lines(s))
}

/// The decoding failures of a whole trace.
pub open spec fn parse_trace_errors(s: Seq<char>) -> Seq<(int, ParseErrorV)> {
    errors_of_lines(text::split_lines(s))
}

/// Decode a trace into its events, skipping lines that do not decode.
pub fn parse(log: &str) -> (r: Vec<Event>)
    ensures
        r.deep_view() == parse_trace(log@),
{
    let lines = text::split_lines_str(log);
    let ghost lns = lines.deep_view();
    let mut r: Vec<Event> = Vec::new();
    let mut i: usize = 0;
    proof {
        assert(lns.take(0) =~= Seq::<Seq<char>>::empty());
        assert(r.deep_view() =~= events_of_lines(lns.take(0)));
    }
    while i < lines.len()
        invariant
            i <= lines.len(),
            lns == lines.deep_view(),
            lns == text::split_lines(log@),
            r.deep_view() == events_of_lines(lns.take(i as int)),
        decreases lines.len() - i,
    {
        proof {
            assert(lines.deep_view()[i as int] == lines@[i as int]@);
            assert(lns.take(i + 1).drop_last() =~= lns.take(i as int));
            assert(lns.take(i + 1).last() == lns[i as int]);
        }
        match Event::from_str(lines[i]) {
            Ok(event) => {
                r.push(event);
            },
            Err(_) => {},
        }
        i += 1;
    }
    proof {
        assert(lns.take(lns.len() as int) =~= lns);
    }
    r
}

/// Report the decoding failures of a trace, each with its one-based line
/// number and the column and reason of the failure.
pub fn parse_errors(log: &str) -> (r: Vec<(usize, ParseError)>)
    ensures
        r@.len() == parse_trace_errors(log@).len(),
        forall|j: int|
            0 <= j < r@.len() ==> (#[trigger] r@[j]).0 as int == parse_trace_errors(log@)[j].0
                && r@[j].1@ == parse_trace_errors(log@)[j].1,
{
    let lines = text::split_lines_str(log);
    let ghost lns = lines.deep_view();
    let mut r: Vec<(usize, ParseError)> = Vec::new();
    let mut i: usize = 0;
    proof {
        assert(lns.take(0) =~= Seq::<Seq<char>>::empty());
    }
    while i < lines.len()
        invariant
            i <= lines.len(),
            lns == lines.deep_view(),
            lns == text::split_lines(log@),
            r@.len() == errors_of_lines(lns.take(i as int)).len(),
            forall|j: int|
                0 <= j < r@.len() ==> (#[trigger] r@[j]).0 as int == errors_of_lines(
                    lns.take(i as int),
                )[j].0 && r@[j].1@ == errors_of_lines(lns.take(i as int))[j].1,
        decreases lines.len() - i,
    {
        proof {
            assert(lines.deep_view()[i as int] == lines@[i as int]@);
            assert(lns.take(i + 1).drop_last() =~= lns.take(i as int));
            assert(lns.take(i + 1).last() == lns[i as int]);
            assert(lns.take(i + 1).len() == i + 1);
        }
        match Event::from_str(lines[i]) {
            Ok(_) => {},
            Err(err) => {
                r.push((i + 1, err));
            },
        }
        i += 1;
    }
    proof {
        assert(lns.take(lns.len() as int) =~= lns);
    }
    r
}

} // verus!
