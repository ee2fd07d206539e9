//! Predicates over events, composable into filtered views of a trace.

use vstd::prelude::*;

use crate::event::{Event, EventV, is_damaging_kind, is_healing_kind, is_hostile_kind};

verus! {

/// A predicate over one event: a pure function of the event's content,
/// with no view of the event's position. Implement it to compose derived
/// views of a trace.
pub trait Filter {
    /// The predicate this filter decides.
    spec fn spec_check(&self, e: EventV) -> bool;

    /// Whether an event passes this filter: `true` to include it, `false`
    /// to exclude it.
    fn check(&self, event: &Event) -> (r: bool)
        ensures
            r == self.spec_check(event@),
    ;
}

/// Passes events whose kind is hostile.
pub struct HostileFilter;

impl Filter for HostileFilter {
    open spec fn spec_check(&self, e: EventV) -> bool {
        is_hostile_kind(e.typ)
    }

    fn check(&self, event: &Event) -> (r: bool)
        ensures
            r == self.spec_check(event@),
    {
        event.is_hostile()
    }
}

/// Passes events whose kind carries damage.
pub struct DamagingFilter;

impl Filter for DamagingFilter {
    open spec fn spec_check(&self, e: EventV) -> bool {
        is_damaging_kind(e.typ)
    }

    fn check(&self, event: &Event) -> (r: bool)
        ensures
            r == self.spec_check(event@),
    {
        event.typ().damaging()
    }
}

/// Passes events whose kind carries healing.
pub struct HealingFilter;

impl Filter for HealingFilter {
    open spec fn spec_check(&self, e: EventV) -> bool {
        is_healing_kind(e.typ)
    }

    fn check(&self, event: &Event) -> (r: bool)
        ensures
            r == self.spec_check(event@),
    {
        event.typ().healing()
    }
}

} // verus!
