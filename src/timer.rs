//! The event store: registration, expiration sweep and peek.
use vstd::prelude::*;
use vstd::multiset::Multiset;
use crate::heap::{
    Event, all_callable, callable, heap_ordered, lemma_root_below_all, sift_down, sift_up,
};
use vstd::pervasive::VecAdditionalExecFns;

verus! {

broadcast use vstd::seq_lib::group_to_multiset_ensures;

/// The events of `m` whose deadline has been reached at time `now`.
pub open spec fn due<C>(m: Multiset<Event<C>>, now: u64) -> Multiset<Event<C>> {
    m.filter(|e: Event<C>| e.deadline <= now)
}

/// The events of `m` whose deadline lies after time `now`.
pub open spec fn not_due<C>(m: Multiset<Event<C>>, now: u64) -> Multiset<Event<C>> {
    m.filter(|e: Event<C>| e.deadline > now)
}

/// `d` is the smallest deadline among the events of `m`.
pub open spec fn is_min_deadline<C>(m: Multiset<Event<C>>, d: u64) -> bool {
    &&& exists|e: Event<C>| m.contains(e) && e.deadline == d
    &&& forall|e: Event<C>| m.contains(e) ==> d <= e.deadline
}

/// The deadlines along `s` never decrease.
pub open spec fn sorted_by_deadline<C>(s: Seq<Event<C>>) -> bool {
    forall|i: int, j: int| 0 <= i <= j < s.len() ==> s[i].deadline <= s[j].deadline
}

/// Each callback along `s` has been invoked with the argument `now`.
pub open spec fn invoked_with<C: FnOnce(u64)>(s: Seq<Event<C>>, now: u64) -> bool {
    forall|i: int| 0 <= i < s.len() ==> call_ensures(#[trigger] s[i].callback, (now,), ())
}

/// Splitting `m` into events no later than `now` and events after it
/// gives the due and the not-due parts of `m`.
proof fn lemma_partition_at<C>(m: Multiset<Event<C>>, a: Multiset<Event<C>>, b: Multiset<Event<C>>, now: u64)
    requires
        a.add(b) == m,
        forall|e: Event<C>| a.contains(e) ==> e.deadline <= now,
        forall|e: Event<C>| b.contains(e) ==> e.deadline > now,
    ensures
        a == due(m, now),
        b == not_due(m, now),
{
    broadcast use vstd::multiset::group_multiset_axioms;
    assert forall|e: Event<C>| #[trigger] a.count(e) == due(m, now).count(e) by {
        if e.deadline <= now {
            assert(!b.contains(e));
        } else {
            assert(!a.contains(e));
        }
    }
    assert forall|e: Event<C>| #[trigger] b.count(e) == not_due(m, now).count(e) by {
        if e.deadline <= now {
            assert(!b.contains(e));
        } else {
            assert(!a.contains(e));
        }
    }
    assert(a =~= due(m, now));
    assert(b =~= not_due(m, now));
}

/// Moving one pending event to the end of the fired sequence keeps the
/// two together equal to what the store held at the start.
proof fn lemma_take_one<C>(m: Multiset<Event<C>>, fired: Seq<Event<C>>, pending: Multiset<Event<C>>, e: Event<C>)
    requires
        fired.to_multiset().add(pending) == m,
        pending.contains(e),
    ensures
        fired.push(e).to_multiset().add(pending.remove(e)) == m,
        forall|x: Event<C>| #[trigger] pending.remove(e).contains(x) ==> pending.contains(x),
{
    broadcast use vstd::multiset::group_multiset_axioms;
    assert(fired.push(e).to_multiset() == fired.to_multiset().insert(e));
    assert(fired.push(e).to_multiset().add(pending.remove(e)) =~= m);
}

/// A store of pending events, each fired once its deadline has passed.
///
/// The store is not synchronised: callers that share it between execution
/// contexts must serialise access themselves.
pub struct Timer<C> {
    events: Vec<Event<C>>,
}

impl<C: FnOnce(u64)> View for Timer<C> {
    type V = Multiset<Event<C>>;

    /// The pending events, without order.
    closed spec fn view(&self) -> Multiset<Event<C>> {
        self.events@.to_multiset()
    }
}

impl<C: FnOnce(u64)> Timer<C> {
    /// The heap is ordered by deadline and every callback may run at any time.
    pub closed spec fn wf(&self) -> bool {
        heap_ordered(self.events@) && all_callable(self.events@)
    }

    /// An empty store.
    pub fn new() -> (r: Self)
        ensures
            r.wf(),
            r@ == Multiset::<Event<C>>::empty(),
    {
        let r = Timer { events: Vec::new() };
        assert(r.events@.to_multiset() =~= Multiset::<Event<C>>::empty());
        r
    }

    /// Registers `callback` to be invoked once `deadline` has passed.
    ///
    /// A deadline already in the past is accepted: it fires on the next sweep.
    pub fn add(&mut self, deadline: u64, callback: C)
        requires
            old(self).wf(),
            callable(callback),
        ensures
            final(self).wf(),
            final(self)@ == old(self)@.insert(Event { deadline, callback }),
    {
        self.events.push(Event { deadline, callback });
        let k = self.events.len() - 1;
        assert(all_callable(self.events@));
        sift_up(&mut self.events, k);
    }

    /// The earliest pending deadline, or `None` when nothing is pending.
    pub fn next(&self) -> (r: Option<u64>)
        requires
            self.wf(),
        ensures
            match r {
                None => self@.len() == 0,
                Some(d) => is_min_deadline(self@, d),
            },
    {
        if self.events.len() == 0 {
            None
        } else {
            proof {
                lemma_root_below_all(self.events@);
            }
            Some(self.events[0].deadline)
        }
    }

    /// Fires every event whose deadline is at most `now`.
    ///
    /// Each due event is removed from the store and then its callback is
    /// invoked with `now`, earliest deadline first; events with equal
    /// deadlines fire in no particular order. The result lists the fired
    /// events in the order in which they fired.
    pub fn expire(&mut self, now: u64) -> (fired: Ghost<Seq<Event<C>>>)
        requires
            old(self).wf(),
        ensures
            final(self).wf(),
            final(self)@ == not_due(old(self)@, now),
            fired@.to_multiset() == due(old(self)@, now),
            sorted_by_deadline(fired@),
            invoked_with(fired@, now),
    {
        let ghost mut fired: Seq<Event<C>> = Seq::empty();
        loop
            invariant
                self.wf(),
                fired.to_multiset().add(self@) == old(self)@,
                forall|i: int| 0 <= i < fired.len() ==> #[trigger] fired[i].deadline <= now,
                sorted_by_deadline(fired),
                fired.len() > 0 ==> forall|e: Event<C>|
                    #[trigger] self@.contains(e) ==> fired.last().deadline <= e.deadline,
                invoked_with(fired, now),
            ensures
                self.wf(),
                fired.to_multiset().add(self@) == old(self)@,
                forall|i: int| 0 <= i < fired.len() ==> #[trigger] fired[i].deadline <= now,
                sorted_by_deadline(fired),
                invoked_with(fired, now),
                forall|e: Event<C>| self@.contains(e) ==> e.deadline > now,
            decreases self@.len(),
        {
            if self.events.len() == 0 {
                break;
            }
            proof {
                lemma_root_below_all(self.events@);
            }
            if self.events[0].deadline > now {
                break;
            }
            let ghost before = self@;
            let event = self.pop_min();
            proof {
                lemma_take_one(old(self)@, fired, before, event);
                fired = fired.push(event);
            }
            let Event { deadline: _, callback } = event;
            callback(now);
        }
        proof {
            lemma_partition_at(old(self)@, fired.to_multiset(), self@, now);
        }
        Ghost(fired)
    }

    /// Removes and returns an event with the earliest deadline.
    fn pop_min(&mut self) -> (r: Event<C>)
        requires
            old(self).wf(),
            old(self)@.len() > 0,
        ensures
            final(self).wf(),
            old(self)@.contains(r),
            final(self)@ == old(self)@.remove(r),
            callable(r.callback),
            forall|e: Event<C>| old(self)@.contains(e) ==> r.deadline <= e.deadline,
    {
        broadcast use vstd::seq_lib::to_multiset_update;
        broadcast use vstd::multiset::group_multiset_properties;
        let ghost s = self.events@;
        proof {
            lemma_root_below_all(s);
        }
        let mut top = self.events.pop().unwrap();
        assert(s =~= self.events@.push(top));
        if self.events.len() > 0 {
            self.events.set_and_swap(0, &mut top);
            assert(self.events@.to_multiset() =~= s.to_multiset().remove(s[0]));
            sift_down(&mut self.events, 0);
        } else {
            assert(self.events@.to_multiset() =~= s.to_multiset().remove(s[0]));
        }
        top
    }
}

impl<C: FnOnce(u64)> Default for Timer<C> {
    /// An empty store.
    fn default() -> (r: Self)
        ensures
            r.wf(),
            r@ == Multiset::<Event<C>>::empty(),
    {
        Self::new()
    }
}

} // verus!
