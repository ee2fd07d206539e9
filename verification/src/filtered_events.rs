//! Filtered views: a derived subset of a fixed event stream, held as one
//! inclusion bit per position and narrowed or widened by composing
//! predicates, without copying or reordering the events.

use vstd::prelude::*;

use crate::event::EventV;
use crate::filter::Filter;
use crate::log::Log;
use bitvec::vec::BitVec;

verus! {

/// A bit-per-position inclusion mask, backed by bitvec's `BitVec`. The
/// backing store is opaque to the verifier; the wrappers below carry its
/// contract over [`mask_bits`].
#[verifier::external_body]
pub struct Mask {
    bits: BitVec,
}

/// The bits a mask holds, one per event position, in position order.
pub uninterp spec fn mask_bits(m: Mask) -> Seq<bool>;

/// Relies on bitvec's `BitVec::repeat`: a vector of `len` copies of `bit`.
#[verifier::external_body]
fn mask_repeat(bit: bool, len: usize) -> (r: Mask)
    ensures
        mask_bits(r) == Seq::new(len as nat, |i: int| bit),
{
    Mask { bits: BitVec::repeat(bit, len) }
}

/// Relies on bitvec's `BitSlice::len`, reached through `BitVec`'s deref.
#[verifier::external_body]
fn mask_len(m: &Mask) -> (r: usize)
    ensures
        r == mask_bits(*m).len(),
{
    m.bits.len()
}

/// Relies on bitvec's `Index<usize>` for `BitSlice`, which looks one bit
/// up and panics only when the index is out of range.
#[verifier::external_body]
fn mask_get(m: &Mask, i: usize) -> (r: bool)
    requires
        i < mask_bits(*m).len(),
    ensures
        r == mask_bits(*m)[i as int],
{
    m.bits[i]
}

/// Relies on bitvec's `BitSlice::set`, which writes one bit and panics
/// only when the index is out of range.
#[verifier::external_body]
fn mask_set(m: &mut Mask, i: usize, v: bool)
    requires
        i < mask_bits(*old(m)).len(),
    ensures
        mask_bits(*final(m)) == mask_bits(*old(m)).update(i as int, v),
{
    m.bits.set(i, v);
}

/// The mask that narrowing by `p` leaves: a position stays included only
/// when it was included and its event passes `p`.
pub open spec fn and_mask(
    mask: Seq<bool>,
    events: Seq<EventV>,
    p: spec_fn(EventV) -> bool,
) -> Seq<bool> {
    Seq::new(mask.len(), |i: int| mask[i] && p(events[i]))
}

/// The mask that widening by `p` leaves: a position becomes included when
/// it was included or its event passes `p`.
pub open spec fn or_mask(
    mask: Seq<bool>,
    events: Seq<EventV>,
    p: spec_fn(EventV) -> bool,
) -> Seq<bool> {
    Seq::new(mask.len(), |i: int| mask[i] || p(events[i]))
}

/// Narrowing twice equals narrowing once by the conjunction: `and` by `f`
/// and then by `g` leaves the same mask as one `and` by a predicate that
/// holds exactly when both do.
pub proof fn lemma_and_mask_composes(
    mask: Seq<bool>,
    events: Seq<EventV>,
    f: spec_fn(EventV) -> bool,
    g: spec_fn(EventV) -> bool,
)
    ensures
        and_mask(and_mask(mask, events, f), events, g) =~= and_mask(
            mask,
            events,
            (|e: EventV| f(e) && g(e)),
        ),
{
}

/// Widening twice equals widening once by the disjunction: `or` by `f` and
/// then by `g` leaves the same mask as one `or` by a predicate that holds
/// exactly when either does.
pub proof fn lemma_or_mask_composes(
    mask: Seq<bool>,
    events: Seq<EventV>,
    f: spec_fn(EventV) -> bool,
    g: spec_fn(EventV) -> bool,
)
    ensures
        or_mask(or_mask(mask, events, f), events, g) =~= or_mask(
            mask,
            events,
            (|e: EventV| f(e) || g(e)),
        ),
{
}

/// A derived subset of a fixed event stream: a borrowed stream and one
/// inclusion bit per position. The stream must outlive the view.
pub struct FilteredEvents<'a> {
    log: &'a Log,
    bits: Mask,
}

impl<'a> FilteredEvents<'a> {
    /// The events of the underlying stream.
    pub closed spec fn stream(&self) -> Seq<EventV> {
        self.log@
    }

    /// The inclusion mask: one bit per event position.
    pub closed spec fn mask(&self) -> Seq<bool> {
        mask_bits(self.bits)
    }

    /// The mask has one bit for each event, at all times.
    pub open spec fn wf(&self) -> bool {
        self.mask().len() == self.stream().len()
    }

    /// Wrap a stream with an initial mask that includes every position,
    /// or none: one bit per event of the stream.
    pub fn new(log: &'a Log, all_included: bool) -> (r: Self)
        ensures
            r.stream() == log@,
            r.mask() == Seq::new(log@.len(), |i: int| all_included),
            r.wf(),
    {
        let events = log.events();
        let bits = mask_repeat(all_included, events.len());
        FilteredEvents { log, bits }
    }

    /// Narrow the view: clear the bit of every included position whose
    /// event fails the predicate. Positions already excluded are never
    /// evaluated: the cheap bit check precedes the predicate call.
    pub fn and<F: Filter>(self, by: &F) -> (r: Self)
        requires
            self.wf(),
        ensures
            r.wf(),
            r.stream() == self.stream(),
            r.mask() == and_mask(self.mask(), self.stream(), (|e: EventV| by.spec_check(e))),
    {
        let ghost orig = self.mask();
        let ghost evs = self.stream();
        let ghost p = (|e: EventV| by.spec_check(e));
        let mut this = self;
        let n = mask_len(&this.bits);
        let mut i: usize = 0;
        while i < n
            invariant
                i <= n,
                this.wf(),
                this.stream() == evs,
                n == this.mask().len(),
                orig.len() == n,
                p == (|e: EventV| by.spec_check(e)),
                forall|j: int| 0 <= j < i ==> this.mask()[j] == (orig[j] && p(evs[j])),
                forall|j: int| i <= j < n ==> this.mask()[j] == orig[j],
            decreases n - i,
        {
            let ghost entry = this.mask();
            proof {
                assert(forall|j: int| 0 <= j < i ==> this.mask()[j] == (orig[j] && p(evs[j])));
                assert(forall|j: int| 0 <= j < i ==> entry[j] == (orig[j] && p(evs[j])));
            }
            if mask_get(&this.bits, i) {
                let events = this.log.events();
                proof {
                    assert(events.deep_view()[i as int] == events@[i as int]@);
                    assert(evs[i as int] == events@[i as int]@);
                }
                if !by.check(&events[i]) {
                    mask_set(&mut this.bits, i, false);
                }
            }
            proof {
                assert(forall|j: int| 0 <= j < n && j != i ==> this.mask()[j] == entry[j]);
                assert(this.mask()[i as int] == (orig[i as int] && p(evs[i as int])));
            }
            i += 1;
        }
        proof {
            let target = and_mask(orig, evs, (|e: EventV| by.spec_check(e)));
            assert(target.len() == n);
            assert forall|j: int| 0 <= j < n implies this.mask()[j] == target[j] by {
                assert(this.mask()[j] == (orig[j] && p(evs[j])));
                assert(target[j] == (orig[j] && by.spec_check(evs[j])));
            }
            assert(this.mask() =~= target);
        }
        this
    }

    /// Widen the view: set the bit of every excluded position whose event
    /// passes the predicate. Positions already included are never
    /// re-evaluated.
    pub fn or<F: Filter>(self, by: &F) -> (r: Self)
        requires
            self.wf(),
        ensures
            r.wf(),
            r.stream() == self.stream(),
            r.mask() == or_mask(self.mask(), self.stream(), (|e: EventV| by.spec_check(e))),
    {
        let ghost orig = self.mask();
        let ghost evs = self.stream();
        let ghost p = (|e: EventV| by.spec_check(e));
        let mut this = self;
        let n = mask_len(&this.bits);
        let mut i: usize = 0;
        while i < n
            invariant
                i <= n,
                this.wf(),
                this.stream() == evs,
                n == this.mask().len(),
                orig.len() == n,
                p == (|e: EventV| by.spec_check(e)),
                forall|j: int| 0 <= j < i ==> this.mask()[j] == (orig[j] || p(evs[j])),
                forall|j: int| i <= j < n ==> this.mask()[j] == orig[j],
            decreases n - i,
        {
            let ghost entry = this.mask();
            proof {
                assert(forall|j: int| 0 <= j < i ==> this.mask()[j] == (orig[j] || p(evs[j])));
                assert(forall|j: int| 0 <= j < i ==> entry[j] == (orig[j] || p(evs[j])));
            }
            if !mask_get(&this.bits, i) {
                let events = this.log.events();
                proof {
                    assert(events.deep_view()[i as int] == events@[i as int]@);
                    assert(evs[i as int] == events@[i as int]@);
                }
                if by.check(&events[i]) {
                    mask_set(&mut this.bits, i, true);
                }
            }
            proof {
                assert(forall|j: int| 0 <= j < n && j != i ==> this.mask()[j] == entry[j]);
                assert(this.mask()[i as int] == (orig[i as int] || p(evs[i as int])));
            }
            i += 1;
        }
        proof {
            assert forall|j: int| 0 <= j < n implies this.mask()[j] == (orig[j] || by.spec_check(
                evs[j],
            )) by {
                assert(this.mask()[j] == (orig[j] || p(evs[j])));
            }
            assert(this.mask() =~= or_mask(orig, evs, (|e: EventV| by.spec_check(e))));
        }
        this
    }

    /// The positions the view currently includes, in order.
    pub fn included_positions(&self) -> (r: Vec<usize>)
        requires
            self.wf(),
        ensures
            r@.map_values(|x: usize| x as int) == included_of(self.mask()),
    {
        let n = mask_len(&self.bits);
        let mut r: Vec<usize> = Vec::new();
        let mut i: usize = 0;
        proof {
            assert(self.mask().take(0) =~= Seq::<bool>::empty());
            assert(r@.map_values(|x: usize| x as int) =~= included_of(self.mask().take(0)));
        }
        while i < n
            invariant
                i <= n,
                n == self.mask().len(),
                r@.map_values(|x: usize| x as int) == included_of(self.mask().take(i as int)),
            decreases n - i,
        {
            proof {
                assert(self.mask().take(i + 1).drop_last() =~= self.mask().take(i as int));
                assert(self.mask().take(i + 1).last() == self.mask()[i as int]);
            }
            let ghost before = r@;
            if mask_get(&self.bits, i) {
                r.push(i);
                proof {
                    assert(r@.map_values(|x: usize| x as int) =~= before.map_values(
                        |x: usize| x as int,
                    ).push(i as int));
                }
            }
            i += 1;
        }
        proof {
            assert(self.mask().take(n as int) =~= self.mask());
        }
        r
    }
}

/// The included positions a mask selects, in ascending order.
pub open spec fn included_of(mask: Seq<bool>) -> Seq<int>
    decreases mask.len(),
{
    if mask.len() == 0 {
        Seq::empty()
    } else {
        let rest = included_of(mask.drop_last());
        if mask.last() {
            rest.push(mask.len() - 1)
        } else {
            rest
        }
    }
}

impl Log {
    /// Start from the fully included view and narrow it by `by`.
    pub fn and<'a, F: Filter>(&'a self, by: &F) -> (r: FilteredEvents<'a>)
        ensures
            r.wf(),
            r.stream() == self@,
            r.mask() == and_mask(
                Seq::new(self@.len(), |i: int| true),
                self@,
                (|e: EventV| by.spec_check(e)),
            ),
    {
        let filtered = FilteredEvents::new(self, true);
        filtered.and(by)
    }

    /// Start from the fully excluded view and widen it by `by`.
    pub fn or<'a, F: Filter>(&'a self, by: &F) -> (r: FilteredEvents<'a>)
        ensures
            r.wf(),
            r.stream() == self@,
            r.mask() == or_mask(
                Seq::new(self@.len(), |i: int| false),
                self@,
                (|e: EventV| by.spec_check(e)),
            ),
    {
        let filtered = FilteredEvents::new(self, false);
        filtered.or(by)
    }
}

} // verus!
