//! Encounter segmentation: partitioning a trace into maximal contiguous
//! spans of genuine engagement between players and hostiles.
//!
//! The algorithm merges per-unit life windows. A unit's window opens at the
//! first hostile event that engages it against the opposing side and closes
//! at the last event it takes part in; overlapping windows merge into one
//! encounter span.

use vstd::prelude::*;

use crate::event::{Event, EventV, is_hostile_kind};
use crate::unit::{Unit, UnitV, is_player_id};

verus! {

/// True when `u` takes part in `e`, as its source or its target.
pub open spec fn appears_in(u: UnitV, e: EventV) -> bool {
    e.source == Some(u) || e.target == Some(u)
}

/// The unit a hostile event newly establishes as engaged, if any: the
/// non-player party of a hostile exchange whose other party is a player.
/// Events without both parties, and hostile events inside one side, engage
/// nobody.
pub open spec fn engaged_unit(e: EventV) -> Option<UnitV> {
    if is_hostile_kind(e.typ) && e.source is Some && e.target is Some {
        let s = e.source->0;
        let t = e.target->0;
        if is_player_id(s.id) && !is_player_id(t.id) {
            Some(t)
        } else if is_player_id(t.id) && !is_player_id(s.id) {
            Some(s)
        } else {
            None
        }
    } else {
        None
    }
}

pub open spec fn windows_contain(ws: Seq<(UnitV, int)>, u: UnitV) -> bool {
    exists|j: int| 0 <= j < ws.len() && ws[j].0 == u
}

/// Opening pass over the first `n` events: every engaged unit with the
/// index of the first hostile event that engaged it, in order of first
/// engagement.
pub open spec fn window_opens(events: Seq<EventV>, n: int) -> Seq<(UnitV, int)>
    decreases n,
{
    if n <= 0 {
        Seq::empty()
    } else {
        let prev = window_opens(events, n - 1);
        match engaged_unit(events[n - 1]) {
            Some(u) => if windows_contain(prev, u) {
                prev
            } else {
                prev.push((u, n - 1))
            },
            None => prev,
        }
    }
}

/// Index of the last event before `n` in which `u` takes part, or `0` when
/// there is none.
pub open spec fn last_appearance(u: UnitV, events: Seq<EventV>, n: int) -> int
    decreases n,
{
    if n <= 0 {
        0
    } else if appears_in(u, events[n - 1]) {
        n - 1
    } else {
        last_appearance(u, events, n - 1)
    }
}

/// The life windows of a trace: for every engaged unit, the index of its
/// first engagement and the index of its last appearance. Windows stand in
/// order of first engagement, which is ascending start order: one event
/// engages at most one new unit.
pub open spec fn life_windows(events: Seq<EventV>) -> Seq<(int, int)> {
    window_opens(events, events.len() as int).map_values(
        |w: (UnitV, int)| (w.1, last_appearance(w.0, events, events.len() as int)),
    )
}

/// Window order: by start index, ties by end index.
pub open spec fn window_le(a: (int, int), b: (int, int)) -> bool {
    a.0 < b.0 || (a.0 == b.0 && a.1 <= b.1)
}

/// Merge pass: `w` merges into the running span `cur` when it starts while
/// `cur` is still live (inclusively), extending it; otherwise `cur` is
/// finalized and `w` begins a new span.
pub open spec fn merge_runs(ws: Seq<(int, int)>, cur: (int, int)) -> Seq<(int, int)>
    decreases ws.len(),
{
    if ws.len() == 0 {
        seq![cur]
    } else if ws[0].0 <= cur.1 {
        merge_runs(
            ws.skip(1),
            (
                cur.0,
                if ws[0].1 > cur.1 {
                    ws[0].1
                } else {
                    cur.1
                },
            ),
        )
    } else {
        seq![cur] + merge_runs(ws.skip(1), ws[0])
    }
}

/// The spans that merging a window list yields: none for an empty list,
/// else the merge pass seeded with the first window.
pub open spec fn runs_of_windows(ws: Seq<(int, int)>) -> Seq<(int, int)> {
    if ws.len() == 0 {
        Seq::empty()
    } else {
        merge_runs(ws.skip(1), ws[0])
    }
}

/// The encounter spans of a trace: index ranges into it, inclusive at both
/// ends.
pub open spec fn encounter_runs(events: Seq<EventV>) -> Seq<(int, int)> {
    runs_of_windows(life_windows(events))
}

/// A window list as mathematical pairs.
pub open spec fn pair_view(p: (usize, usize)) -> (int, int) {
    (p.0 as int, p.1 as int)
}

pub open spec fn pairs_view(s: Seq<(usize, usize)>) -> Seq<(int, int)> {
    s.map_values(|p: (usize, usize)| pair_view(p))
}

/// The window order as a relation value, for stating sortedness.
pub open spec fn window_order() -> spec_fn((int, int), (int, int)) -> bool {
    |a: (int, int), b: (int, int)| window_le(a, b)
}

pub proof fn lemma_last_appearance_props(u: UnitV, events: Seq<EventV>, n: int)
    requires
        0 <= n <= events.len(),
    ensures
        0 <= last_appearance(u, events, n),
        n > 0 ==> last_appearance(u, events, n) < n,
        n == 0 ==> last_appearance(u, events, n) == 0,
        forall|i: int|
            0 <= i < n && appears_in(u, #[trigger] events[i]) ==> last_appearance(u, events, n)
                >= i,
    decreases n,
{
    if n > 0 && !appears_in(u, events[n - 1]) {
        lemma_last_appearance_props(u, events, n - 1);
    }
}

pub proof fn lemma_window_opens_props(events: Seq<EventV>, n: int)
    requires
        0 <= n <= events.len(),
    ensures
        forall|j: int|
            0 <= j < window_opens(events, n).len() ==> 0 <= (#[trigger] window_opens(events, n)[j]).1
                < n,
        forall|j: int|
            0 <= j < window_opens(events, n).len() ==> appears_in(
                (#[trigger] window_opens(events, n)[j]).0,
                events[window_opens(events, n)[j].1],
            ),
        forall|j: int, k: int|
            0 <= j < k < window_opens(events, n).len() ==> (#[trigger] window_opens(
                events,
                n,
            )[j]).1 < (#[trigger] window_opens(events, n)[k]).1,
    decreases n,
{
    if n > 0 {
        lemma_window_opens_props(events, n - 1);
        let prev = window_opens(events, n - 1);
        let cur = window_opens(events, n);
        match engaged_unit(events[n - 1]) {
            Some(u) => {
                if !windows_contain(prev, u) {
                    assert(cur == prev.push((u, n - 1)));
                    assert(appears_in(u, events[n - 1]));
                    assert(forall|j: int| 0 <= j < prev.len() ==> cur[j] == prev[j]);
                    assert(cur[prev.len() as int] == (u, n - 1));
                }
            },
            None => {},
        }
    }
}

/// The life windows of a trace stand in window order (their start indices
/// strictly ascend), and every window lies inside the trace with its start
/// at or before its end.
pub proof fn lemma_life_windows_props(events: Seq<EventV>)
    ensures
        vstd::relations::sorted_by(life_windows(events), window_order()),
        forall|j: int|
            0 <= j < life_windows(events).len() ==> 0 <= (#[trigger] life_windows(events)[j]).0
                <= life_windows(events)[j].1 < events.len(),
{
    let n = events.len() as int;
    let opens = window_opens(events, n);
    let lw = life_windows(events);
    lemma_window_opens_props(events, n);
    assert forall|j: int| 0 <= j < lw.len() implies 0 <= (#[trigger] lw[j]).0 <= lw[j].1
        < events.len() by {
        assert(lw[j] == (opens[j].1, last_appearance(opens[j].0, events, n)));
        lemma_last_appearance_props(opens[j].0, events, n);
        assert(appears_in(opens[j].0, events[opens[j].1]));
    }
    assert forall|j: int, k: int| 0 <= j < k < lw.len() implies window_order()(lw[j], lw[k]) by {
        assert(lw[j] == (opens[j].1, last_appearance(opens[j].0, events, n)));
        assert(lw[k] == (opens[k].1, last_appearance(opens[k].0, events, n)));
        assert(opens[j].1 < opens[k].1);
    }
}

/// Merged spans keep their seed's start, stay inside the given bound, and
/// are pairwise disjoint and ordered: each span ends strictly before the
/// next begins.
pub proof fn lemma_merge_runs_props(ws: Seq<(int, int)>, cur: (int, int), hi: int)
    requires
        vstd::relations::sorted_by(ws, window_order()),
        forall|j: int| 0 <= j < ws.len() ==> 0 <= (#[trigger] ws[j]).0 <= ws[j].1 < hi,
        0 <= cur.0 <= cur.1 < hi,
    ensures
        merge_runs(ws, cur).len() >= 1,
        merge_runs(ws, cur)[0].0 == cur.0,
        forall|j: int|
            0 <= j < merge_runs(ws, cur).len() ==> 0 <= (#[trigger] merge_runs(ws, cur)[j]).0
                <= merge_runs(ws, cur)[j].1 < hi,
        forall|j: int|
            0 <= j < merge_runs(ws, cur).len() - 1 ==> (#[trigger] merge_runs(ws, cur)[j]).1
                < merge_runs(ws, cur)[j + 1].0,
    decreases ws.len(),
{
    if ws.len() > 0 {
        let rest = ws.skip(1);
        assert forall|j: int, k: int|
            0 <= j < k < rest.len() implies window_order()(rest[j], rest[k]) by {
            assert(rest[j] == ws[j + 1]);
            assert(rest[k] == ws[k + 1]);
        }
        assert(forall|j: int| 0 <= j < rest.len() ==> rest[j] == ws[j + 1]);
        if ws[0].0 <= cur.1 {
            let ext = (
                cur.0,
                if ws[0].1 > cur.1 {
                    ws[0].1
                } else {
                    cur.1
                },
            );
            lemma_merge_runs_props(rest, ext, hi);
        } else {
            lemma_merge_runs_props(rest, ws[0], hi);
            let tail = merge_runs(rest, ws[0]);
            let whole = seq![cur] + tail;
            assert(whole[0] == cur);
            assert(forall|j: int| 1 <= j < whole.len() ==> whole[j] == tail[j - 1]);
            assert(whole[1] == tail[0]);
            assert(cur.1 < tail[0].0);
            assert forall|j: int| 0 <= j < whole.len() - 1 implies (#[trigger] whole[j]).1
                < whole[j + 1].0 by {
                if j >= 1 {
                    assert(whole[j] == tail[j - 1]);
                    assert(whole[j + 1] == tail[j]);
                }
            }
        }
    }
}

/// Adjacent encounter spans are disjoint and ordered, and every span lies
/// inside the trace with its start at or before its end.
pub proof fn lemma_encounter_runs_disjoint(events: Seq<EventV>)
    ensures
        forall|j: int|
            0 <= j < encounter_runs(events).len() - 1 ==> (#[trigger] encounter_runs(
                events,
            )[j]).1 < encounter_runs(events)[j + 1].0,
        forall|j: int|
            0 <= j < encounter_runs(events).len() ==> 0 <= (#[trigger] encounter_runs(
                events,
            )[j]).0 <= encounter_runs(events)[j].1 < events.len(),
{
    lemma_life_windows_props(events);
    let lw = life_windows(events);
    if lw.len() > 0 {
        let rest = lw.skip(1);
        assert forall|j: int, k: int|
            0 <= j < k < rest.len() implies window_order()(rest[j], rest[k]) by {
            assert(rest[j] == lw[j + 1]);
            assert(rest[k] == lw[k + 1]);
        }
        assert(forall|j: int| 0 <= j < rest.len() ==> rest[j] == lw[j + 1]);
        lemma_merge_runs_props(rest, lw[0], events.len() as int);
    }
}

/// Merge a list of windows, standing in window order, into maximal spans:
/// a window beginning while the running span is still live (inclusively)
/// extends it; one beginning later starts a new span.
pub fn merge_windows(windows: Vec<(usize, usize)>) -> (r: Vec<(usize, usize)>)
    ensures
        pairs_view(r@) == runs_of_windows(pairs_view(windows@)),
{
    let ghost wsv = pairs_view(windows@);
    if windows.len() == 0 {
        let r: Vec<(usize, usize)> = Vec::new();
        proof {
            assert(pairs_view(r@) =~= runs_of_windows(wsv));
        }
        return r;
    }
    let mut result: Vec<(usize, usize)> = Vec::new();
    let mut cur: (usize, usize) = windows[0];
    let mut i: usize = 1;
    proof {
        assert(wsv[0] == pair_view(windows@[0]));
        assert(pairs_view(result@) =~= Seq::<(int, int)>::empty());
        assert(pairs_view(result@) + merge_runs(wsv.skip(1), pair_view(cur)) =~= merge_runs(
            wsv.skip(1),
            wsv[0],
        ));
    }
    while i < windows.len()
        invariant
            1 <= i <= windows@.len(),
            wsv == pairs_view(windows@),
            wsv.len() == windows@.len(),
            pairs_view(result@) + merge_runs(wsv.skip(i as int), pair_view(cur)) =~= merge_runs(
                wsv.skip(1),
                wsv[0],
            ),
        decreases windows@.len() - i,
    {
        let w = windows[i];
        proof {
            assert(wsv.skip(i as int)[0] == wsv[i as int]);
            assert(wsv[i as int] == pair_view(windows@[i as int]));
            assert(wsv.skip(i as int).skip(1) =~= wsv.skip(i + 1));
        }
        if w.0 <= cur.1 {
            if w.1 > cur.1 {
                cur = (cur.0, w.1);
            }
        } else {
            let ghost before = pairs_view(result@);
            let ghost old_cur = pair_view(cur);
            result.push(cur);
            proof {
                assert(pairs_view(result@) =~= before.push(old_cur));
                assert(before.push(old_cur) + merge_runs(wsv.skip(i + 1), pair_view(windows@[i as int]))
                    =~= before + (seq![old_cur] + merge_runs(
                    wsv.skip(i + 1),
                    pair_view(windows@[i as int]),
                )));
            }
            cur = w;
        }
        i += 1;
    }
    proof {
        assert(wsv.skip(windows@.len() as int) =~= Seq::<(int, int)>::empty());
    }
    let ghost before = pairs_view(result@);
    let ghost old_cur = pair_view(cur);
    result.push(cur);
    proof {
        assert(pairs_view(result@) =~= before.push(old_cur));
        assert(before.push(old_cur) =~= before + seq![old_cur]);
        assert(pairs_view(result@) =~= runs_of_windows(wsv));
    }
    result
}

/// The units taking part in the first `n` events, in order of first
/// appearance, the source of an event before its target.
pub open spec fn involved_units(events: Seq<EventV>, n: int) -> Seq<UnitV>
    decreases n,
{
    if n <= 0 {
        Seq::empty()
    } else {
        let prev = involved_units(events, n - 1);
        let e = events[n - 1];
        let with_src = match e.source {
            Some(u) => if prev.contains(u) {
                prev
            } else {
                prev.push(u)
            },
            None => prev,
        };
        match e.target {
            Some(u) => if with_src.contains(u) {
                with_src
            } else {
                with_src.push(u)
            },
            None => with_src,
        }
    }
}

/// The mathematical value of an [`Encounter`]: its slice of the trace and
/// the units involved in it.
#[verifier::ext_equal]
pub struct EncounterV {
    pub events: Seq<EventV>,
    pub involved: Seq<UnitV>,
}

/// The encounter a span yields: the inclusive slice of the trace and the
/// units involved in it.
pub open spec fn encounter_of_span(events: Seq<EventV>, span: (int, int)) -> EncounterV {
    let slice = events.subrange(span.0, span.1 + 1);
    EncounterV { events: slice, involved: involved_units(slice, slice.len() as int) }
}

/// The full segmentation of a trace into encounters.
pub open spec fn segmentation(events: Seq<EventV>) -> Seq<EncounterV> {
    encounter_runs(events).map_values(|span: (int, int)| encounter_of_span(events, span))
}

/// An Encounter: one maximal contiguous span of events during which
/// players and hostiles were mutually engaged, together with the set of
/// units involved in it. Immutable once built.
pub struct Encounter {
    events: Vec<Event>,
    involved: Vec<Unit>,
}

impl View for Encounter {
    type V = EncounterV;

    closed spec fn view(&self) -> EncounterV {
        EncounterV { events: self.events.deep_view(), involved: self.involved.deep_view() }
    }
}

impl DeepView for Encounter {
    type V = EncounterV;

    open spec fn deep_view(&self) -> EncounterV {
        self.view()
    }
}

proof fn lemma_seq_push_contains(s: Seq<UnitV>, x: UnitV, y: UnitV)
    ensures
        s.push(x).contains(y) <==> s.contains(y) || x == y,
{
    if s.contains(y) {
        let k = choose|k: int| 0 <= k < s.len() && s[k] == y;
        assert(s.push(x)[k] == y);
    }
    assert(s.push(x)[s.len() as int] == x);
    if s.push(x).contains(y) {
        let k = choose|k: int| 0 <= k < s.push(x).len() && s.push(x)[k] == y;
        if k < s.len() {
            assert(s[k] == y);
        }
    }
}

/// Every unit a sequence of events names is involved in it, and no other:
/// membership in `involved_units` is exactly appearance as a source or a
/// target.
pub proof fn lemma_involved_characterization(events: Seq<EventV>, n: int)
    requires
        0 <= n <= events.len(),
    ensures
        forall|u: UnitV|
            involved_units(events, n).contains(u) <==> exists|i: int|
                0 <= i < n && appears_in(u, #[trigger] events[i]),
    decreases n,
{
    if n > 0 {
        lemma_involved_characterization(events, n - 1);
        let prev = involved_units(events, n - 1);
        let cur = involved_units(events, n);
        let e = events[n - 1];
        let with_src = match e.source {
            Some(u) => if prev.contains(u) {
                prev
            } else {
                prev.push(u)
            },
            None => prev,
        };
        assert forall|u: UnitV| #![auto] with_src.contains(u) <==> prev.contains(u) || e.source
            == Some(u) by {
            match e.source {
                Some(v) => {
                    lemma_seq_push_contains(prev, v, u);
                },
                None => {},
            }
        }
        assert forall|u: UnitV| #![auto] cur.contains(u) <==> with_src.contains(u) || e.target
            == Some(u) by {
            match e.target {
                Some(v) => {
                    lemma_seq_push_contains(with_src, v, u);
                },
                None => {},
            }
        }
        assert forall|u: UnitV| cur.contains(u) implies exists|i: int|
            0 <= i < n && appears_in(u, #[trigger] events[i]) by {
            if prev.contains(u) {
                let i = choose|i: int| 0 <= i < n - 1 && appears_in(u, #[trigger] events[i]);
                assert(appears_in(u, events[i]));
            } else {
                assert(appears_in(u, events[n - 1]));
            }
        }
        assert forall|u: UnitV| (exists|i: int| 0 <= i < n && appears_in(u, #[trigger] events[i]))
            implies cur.contains(u) by {
            let i = choose|i: int| 0 <= i < n && appears_in(u, #[trigger] events[i]);
            if i < n - 1 {
                assert(prev.contains(u));
            } else {
                assert(appears_in(u, events[n - 1]));
            }
        }
    }
}

/// Find a unit in a vector by value.
fn vec_contains_unit(v: &Vec<Unit>, u: &Unit) -> (r: bool)
    ensures
        r == v.deep_view().contains(u@),
{
    let mut i: usize = 0;
    while i < v.len()
        invariant
            i <= v.len(),
            forall|j: int| 0 <= j < i ==> v.deep_view()[j] != u@,
        decreases v.len() - i,
    {
        if v[i] == *u {
            proof {
                assert(v.deep_view()[i as int] == u@);
            }
            return true;
        }
        i += 1;
    }
    proof {
        assert(!v.deep_view().contains(u@));
    }
    false
}

/// True when `u` is the source or the target of `e`.
fn event_involves(e: &Event, u: &Unit) -> (r: bool)
    ensures
        r == appears_in(u@, e@),
{
    let from_source = match e.source() {
        Some(s) => s == *u,
        None => false,
    };
    if from_source {
        return true;
    }
    match e.target() {
        Some(t) => t == *u,
        None => false,
    }
}

/// Find a unit among the opened windows.
fn window_list_contains(wins: &Vec<(Unit, usize)>, u: &Unit, ws: Ghost<Seq<(UnitV, int)>>) -> (r:
    bool)
    requires
        wins@.len() == ws@.len(),
        forall|j: int| 0 <= j < ws@.len() ==> (#[trigger] wins@[j]).0@ == ws@[j].0,
    ensures
        r == windows_contain(ws@, u@),
{
    let mut i: usize = 0;
    while i < wins.len()
        invariant
            i <= wins.len(),
            wins@.len() == ws@.len(),
            forall|j: int| 0 <= j < ws@.len() ==> (#[trigger] wins@[j]).0@ == ws@[j].0,
            forall|j: int| 0 <= j < i ==> ws@[j].0 != u@,
        decreases wins.len() - i,
    {
        if wins[i].0 == *u {
            proof {
                assert(ws@[i as int].0 == u@);
            }
            return true;
        }
        i += 1;
    }
    false
}

impl Encounter {
    /// Split a trace into all the encounters contained within it, as
    /// [`segmentation`] describes: merge the life windows of every engaged
    /// unit and slice the trace along the merged spans. A trace without a
    /// hostile engagement yields no encounters.
    pub fn all_encounters(events: Vec<Event>) -> (r: Vec<Encounter>)
        ensures
            r.deep_view() == segmentation(events.deep_view()),
    {
        let ghost evs = events.deep_view();
        let n = events.len();

        // Opening pass: find every unit's first hostile engagement.
        let mut wins: Vec<(Unit, usize)> = Vec::new();
        let mut i: usize = 0;
        while i < n
            invariant
                i <= n,
                n == events.len(),
                evs == events.deep_view(),
                wins@.len() == window_opens(evs, i as int).len(),
                forall|j: int|
                    0 <= j < wins@.len() ==> (#[trigger] wins@[j]).0@ == window_opens(
                        evs,
                        i as int,
                    )[j].0 && wins@[j].1 as int == window_opens(evs, i as int)[j].1,
            decreases n - i,
        {
            let ghost opens = window_opens(evs, i as int);
            proof {
                assert(events.deep_view()[i as int] == events@[i as int]@);
            }
            let e = &events[i];
            if e.is_hostile() {
                match (e.source(), e.target()) {
                    (Some(src), Some(tgt)) => {
                        proof {
                            assert(evs[i as int].source == Some(src@));
                            assert(evs[i as int].target == Some(tgt@));
                        }
                        if src.is_player() && !tgt.is_player() {
                            proof {
                                assert(engaged_unit(evs[i as int]) == Some(tgt@));
                            }
                            if !window_list_contains(&wins, &tgt, Ghost(opens)) {
                                wins.push((tgt, i));
                            }
                        } else if tgt.is_player() && !src.is_player() {
                            proof {
                                assert(engaged_unit(evs[i as int]) == Some(src@));
                            }
                            if !window_list_contains(&wins, &src, Ghost(opens)) {
                                wins.push((src, i));
                            }
                        } else {
                            proof {
                                assert(engaged_unit(evs[i as int]) is None);
                            }
                        }
                    },
                    _ => {
                        proof {
                            assert(engaged_unit(evs[i as int]) is None);
                        }
                    },
                }
            } else {
                proof {
                    assert(engaged_unit(evs[i as int]) is None);
                }
            }
            i += 1;
        }
        let ghost opens = window_opens(evs, n as int);

        // Closing pass: each window ends at its unit's last appearance.
        let mut pairs: Vec<(usize, usize)> = Vec::new();
        let mut k: usize = 0;
        while k < wins.len()
            invariant
                k <= wins.len(),
                n == events.len(),
                evs == events.deep_view(),
                opens == window_opens(evs, n as int),
                wins@.len() == opens.len(),
                forall|j: int|
                    0 <= j < wins@.len() ==> (#[trigger] wins@[j]).0@ == opens[j].0 && wins@[j].1
                        as int == opens[j].1,
                pairs@.len() == k,
                forall|j: int|
                    0 <= j < k ==> pair_view(#[trigger] pairs@[j]) == life_windows(evs)[j],
            decreases wins.len() - k,
        {
            let u = wins[k].0.clone();
            let start = wins[k].1;
            let mut last: usize = 0;
            let mut i2: usize = 0;
            while i2 < n
                invariant
                    i2 <= n,
                    n == events.len(),
                    evs == events.deep_view(),
                    last as int == last_appearance(u@, evs, i2 as int),
                    i2 > 0 ==> last < i2,
                decreases n - i2,
            {
                proof {
                    assert(events.deep_view()[i2 as int] == events@[i2 as int]@);
                }
                if event_involves(&events[i2], &u) {
                    last = i2;
                }
                i2 += 1;
            }
            pairs.push((start, last));
            proof {
                assert(life_windows(evs)[k as int] == (
                    opens[k as int].1,
                    last_appearance(opens[k as int].0, evs, evs.len() as int),
                ));
                assert(u@ == opens[k as int].0);
                assert(pair_view(pairs@[k as int]) == life_windows(evs)[k as int]);
            }
            k += 1;
        }
        proof {
            assert(pairs_view(pairs@) =~= life_windows(evs));
        }

        // Merge overlapping windows and slice the trace along the spans.
        let runs = merge_windows(pairs);
        let ghost spans = encounter_runs(evs);
        proof {
            lemma_encounter_runs_disjoint(evs);
            assert(pairs_view(runs@) == spans);
        }
        let mut result: Vec<Encounter> = Vec::new();
        let mut k2: usize = 0;
        while k2 < runs.len()
            invariant
                k2 <= runs.len(),
                evs == events.deep_view(),
                pairs_view(runs@) == spans,
                spans == encounter_runs(evs),
                runs@.len() == spans.len(),
                forall|j: int|
                    0 <= j < spans.len() ==> 0 <= (#[trigger] spans[j]).0 <= spans[j].1
                        < evs.len(),
                result.deep_view().len() == k2,
                forall|j: int|
                    0 <= j < k2 ==> result.deep_view()[j] == encounter_of_span(
                        evs,
                        #[trigger] spans[j],
                    ),
            decreases runs.len() - k2,
        {
            let s = runs[k2].0;
            let e = runs[k2].1;
            proof {
                assert(pair_view(runs@[k2 as int]) == spans[k2 as int]);
            }
            let mut slice: Vec<Event> = Vec::new();
            let mut i3: usize = s;
            proof {
                assert(slice.deep_view() =~= evs.subrange(s as int, s as int));
            }
            while i3 <= e
                invariant
                    s <= i3 <= e + 1,
                    e < events.len(),
                    evs == events.deep_view(),
                    slice.deep_view() == evs.subrange(s as int, i3 as int),
                decreases e + 1 - i3,
            {
                proof {
                    assert(events.deep_view()[i3 as int] == events@[i3 as int]@);
                }
                let ghost before = slice.deep_view();
                let ev = events[i3].clone();
                slice.push(ev);
                proof {
                    assert(slice.deep_view() =~= before.push(evs[i3 as int]));
                    assert(slice.deep_view() =~= evs.subrange(s as int, i3 + 1));
                }
                i3 += 1;
            }
            let enc = Encounter::from_events(slice);
            let ghost before = result.deep_view();
            result.push(enc);
            proof {
                assert(result.deep_view() =~= before.push(enc@));
                assert(result.deep_view()[k2 as int] == encounter_of_span(evs, spans[k2 as int]));
            }
            k2 += 1;
        }
        proof {
            assert(result.deep_view() =~= segmentation(evs));
        }
        result
    }

    /// Build an encounter owning the given slice of events; its involved
    /// set is every unit that appears in the slice as source or target, and
    /// no other.
    pub fn from_events(events: Vec<Event>) -> (r: Encounter)
        ensures
            r@.events == events.deep_view(),
            r@.involved == involved_units(events.deep_view(), events.deep_view().len() as int),
            forall|u: UnitV|
                r@.involved.contains(u) <==> exists|i: int|
                    0 <= i < events.deep_view().len() && appears_in(
                        u,
                        #[trigger] events.deep_view()[i],
                    ),
    {
        let ghost evs = events.deep_view();
        let mut involved: Vec<Unit> = Vec::new();
        let mut i: usize = 0;
        proof {
            assert(involved.deep_view() =~= involved_units(evs, 0));
        }
        while i < events.len()
            invariant
                i <= events.len(),
                evs == events.deep_view(),
                involved.deep_view() == involved_units(evs, i as int),
            decreases events.len() - i,
        {
            let ghost prev = involved.deep_view();
            let ghost e_v = evs[i as int];
            proof {
                assert(events.deep_view()[i as int] == events@[i as int]@);
            }
            let e = &events[i];
            match e.source() {
                Some(u) => {
                    if !vec_contains_unit(&involved, &u) {
                        let ghost before = involved.deep_view();
                        involved.push(u);
                        proof {
                            assert(involved.deep_view() =~= before.push(u@));
                        }
                    }
                },
                None => {},
            }
            proof {
                assert(involved.deep_view() == (match e_v.source {
                    Some(u) => if prev.contains(u) {
                        prev
                    } else {
                        prev.push(u)
                    },
                    None => prev,
                }));
            }
            let ghost with_src = involved.deep_view();
            match e.target() {
                Some(u) => {
                    if !vec_contains_unit(&involved, &u) {
                        let ghost before = involved.deep_view();
                        involved.push(u);
                        proof {
                            assert(involved.deep_view() =~= before.push(u@));
                        }
                    }
                },
                None => {},
            }
            proof {
                assert(involved.deep_view() == (match e_v.target {
                    Some(u) => if with_src.contains(u) {
                        with_src
                    } else {
                        with_src.push(u)
                    },
                    None => with_src,
                }));
                assert(involved.deep_view() == involved_units(evs, i + 1));
            }
            i += 1;
        }
        proof {
            lemma_involved_characterization(evs, evs.len() as int);
        }
        Encounter { events, involved }
    }

    /// The units involved in this encounter.
    pub fn involved(&self) -> (r: &Vec<Unit>)
        ensures
            r.deep_view() == self@.involved,
    {
        &self.involved
    }

    /// The events of this encounter, in trace order.
    pub fn events(&self) -> (r: &Vec<Event>)
        ensures
            r.deep_view() == self@.events,
    {
        &self.events
    }
}

} // verus!
