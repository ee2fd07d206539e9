//! Extraction: pure folds over a stream of events, grouped by a
//! caller-supplied source unit, into per-unit aggregate numbers.

use vstd::prelude::*;

use crate::event::{Event, EventV, is_damaging_kind, is_healing_kind};
use crate::unit::{Unit, UnitV};

verus! {

/// The amount an event carries, or zero when it carries none.
pub open spec fn amount_of(e: EventV) -> int {
    match e.amount {
        Some(a) => a as int,
        None => 0,
    }
}

/// What `e` contributes to the damage total of `u`.
pub open spec fn event_damage(u: UnitV, e: EventV) -> int {
    if e.source == Some(u) && is_damaging_kind(e.typ) {
        amount_of(e)
    } else {
        0
    }
}

/// What `e` contributes to the healing total of `u`.
pub open spec fn event_healing(u: UnitV, e: EventV) -> int {
    if e.source == Some(u) && is_healing_kind(e.typ) {
        amount_of(e)
    } else {
        0
    }
}

/// Total damage dealt by `u` over a sequence of events.
pub open spec fn damage_of(u: UnitV, events: Seq<EventV>) -> int
    decreases events.len(),
{
    if events.len() == 0 {
        0
    } else {
        damage_of(u, events.drop_last()) + event_damage(u, events.last())
    }
}

/// Total healing done by `u` over a sequence of events.
pub open spec fn healing_of(u: UnitV, events: Seq<EventV>) -> int
    decreases events.len(),
{
    if events.len() == 0 {
        0
    } else {
        healing_of(u, events.drop_last()) + event_healing(u, events.last())
    }
}

/// Every event whose source is `u` and whose kind carries damage has an
/// amount: the decoder owes that much. Extraction requires it.
pub open spec fn damage_amounts_present(u: UnitV, events: Seq<EventV>) -> bool {
    forall|i: int|
        0 <= i < events.len() && (#[trigger] events[i]).source == Some(u) && is_damaging_kind(
            events[i].typ,
        ) ==> events[i].amount is Some
}

/// The healing counterpart of [`damage_amounts_present`].
pub open spec fn healing_amounts_present(u: UnitV, events: Seq<EventV>) -> bool {
    forall|i: int|
        0 <= i < events.len() && (#[trigger] events[i]).source == Some(u) && is_healing_kind(
            events[i].typ,
        ) ==> events[i].amount is Some
}

/// Damage totals never shrink as the stream grows.
proof fn lemma_damage_prefix_bound(u: UnitV, events: Seq<EventV>, i: int)
    requires
        0 <= i <= events.len(),
    ensures
        damage_of(u, events.take(i)) <= damage_of(u, events),
    decreases events.len() - i,
{
    if i < events.len() {
        assert(events.take(i + 1).drop_last() =~= events.take(i));
        assert(events.take(i + 1).last() == events[i]);
        lemma_damage_prefix_bound(u, events, i + 1);
    } else {
        assert(events.take(i) =~= events);
    }
}

proof fn lemma_healing_prefix_bound(u: UnitV, events: Seq<EventV>, i: int)
    requires
        0 <= i <= events.len(),
    ensures
        healing_of(u, events.take(i)) <= healing_of(u, events),
    decreases events.len() - i,
{
    if i < events.len() {
        assert(events.take(i + 1).drop_last() =~= events.take(i));
        assert(events.take(i + 1).last() == events[i]);
        lemma_healing_prefix_bound(u, events, i + 1);
    } else {
        assert(events.take(i) =~= events);
    }
}

/// Extraction is additive: the total over a stream split into two parts is
/// the sum of the totals over the parts.
pub proof fn lemma_damage_additive(u: UnitV, a: Seq<EventV>, b: Seq<EventV>)
    ensures
        damage_of(u, a + b) == damage_of(u, a) + damage_of(u, b),
    decreases b.len(),
{
    if b.len() == 0 {
        assert(a + b =~= a);
    } else {
        assert((a + b).drop_last() =~= a + b.drop_last());
        assert((a + b).last() == b.last());
        lemma_damage_additive(u, a, b.drop_last());
    }
}

/// The healing counterpart of [`lemma_damage_additive`].
pub proof fn lemma_healing_additive(u: UnitV, a: Seq<EventV>, b: Seq<EventV>)
    ensures
        healing_of(u, a + b) == healing_of(u, a) + healing_of(u, b),
    decreases b.len(),
{
    if b.len() == 0 {
        assert(a + b =~= a);
    } else {
        assert((a + b).drop_last() =~= a + b.drop_last());
        assert((a + b).last() == b.last());
        lemma_healing_additive(u, a, b.drop_last());
    }
}

/// Sum the damage dealt by `src` over `events`: the amounts of the events
/// whose source is `src` and whose kind carries damage. The decoder owes
/// an amount on every such event, and the total must fit the counter.
pub fn damage_dealt(src: &Unit, events: &Vec<Event>) -> (r: u64)
    requires
        damage_amounts_present(src@, events.deep_view()),
        damage_of(src@, events.deep_view()) <= u64::MAX,
    ensures
        r as int == damage_of(src@, events.deep_view()),
{
    let ghost evs = events.deep_view();
    let mut damage: u64 = 0;
    let mut i: usize = 0;
    proof {
        assert(evs.take(0) =~= Seq::<EventV>::empty());
    }
    while i < events.len()
        invariant
            i <= events.len(),
            evs == events.deep_view(),
            damage_amounts_present(src@, evs),
            damage_of(src@, evs) <= u64::MAX,
            damage as int == damage_of(src@, evs.take(i as int)),
        decreases events.len() - i,
    {
        proof {
            assert(events.deep_view()[i as int] == events@[i as int]@);
            assert(evs.take(i + 1).drop_last() =~= evs.take(i as int));
            assert(evs.take(i + 1).last() == evs[i as int]);
            lemma_damage_prefix_bound(src@, evs, i + 1);
        }
        let e = &events[i];
        let is_src = match e.source() {
            Some(s) => s == *src,
            None => false,
        };
        if is_src && e.typ().damaging() {
            match e.amount() {
                Some(a) => {
                    damage = damage + a;
                },
                None => {
                    proof {
                        assert(false);
                    }
                },
            }
        }
        i += 1;
    }
    proof {
        assert(evs.take(events@.len() as int) =~= evs);
    }
    damage
}

/// Sum the healing done by `src` over `events`, as [`damage_dealt`] sums
/// damage.
pub fn healing_done(src: &Unit, events: &Vec<Event>) -> (r: u64)
    requires
        healing_amounts_present(src@, events.deep_view()),
        healing_of(src@, events.deep_view()) <= u64::MAX,
    ensures
        r as int == healing_of(src@, events.deep_view()),
{
    let ghost evs = events.deep_view();
    let mut healing: u64 = 0;
    let mut i: usize = 0;
    proof {
        assert(evs.take(0) =~= Seq::<EventV>::empty());
    }
    while i < events.len()
        invariant
            i <= events.len(),
            evs == events.deep_view(),
            healing_amounts_present(src@, evs),
            healing_of(src@, evs) <= u64::MAX,
            healing as int == healing_of(src@, evs.take(i as int)),
        decreases events.len() - i,
    {
        proof {
            assert(events.deep_view()[i as int] == events@[i as int]@);
            assert(evs.take(i + 1).drop_last() =~= evs.take(i as int));
            assert(evs.take(i + 1).last() == evs[i as int]);
            lemma_healing_prefix_bound(src@, evs, i + 1);
        }
        let e = &events[i];
        let is_src = match e.source() {
            Some(s) => s == *src,
            None => false,
        };
        if is_src && e.typ().healing() {
            match e.amount() {
                Some(a) => {
                    healing = healing + a;
                },
                None => {
                    proof {
                        assert(false);
                    }
                },
            }
        }
        i += 1;
    }
    proof {
        assert(evs.take(events@.len() as int) =~= evs);
    }
    healing
}

} // verus!
