//! Properties of the expiration sweep, stated over the multiset of pending
//! events that `Timer`'s contracts speak of.
use vstd::prelude::*;
use vstd::multiset::Multiset;
use crate::heap::Event;
use crate::timer::{due, not_due, sorted_by_deadline};

verus! {

/// A sweep at a time no earlier than every pending deadline fires every
/// event and leaves none behind; of two fired events with distinct
/// deadlines, the earlier deadline fires first.
pub proof fn lemma_sweep_past_all<C>(m: Multiset<Event<C>>, fired: Seq<Event<C>>, now: u64)
    requires
        forall|e: Event<C>| m.contains(e) ==> e.deadline <= now,
        fired.to_multiset() == due(m, now),
        sorted_by_deadline(fired),
    ensures
        fired.to_multiset() == m,
        not_due(m, now) == Multiset::<Event<C>>::empty(),
        forall|i: int, j: int|
            0 <= i < fired.len() && 0 <= j < fired.len() && #[trigger] fired[i].deadline
                < #[trigger] fired[j].deadline ==> i < j,
{
    broadcast use vstd::multiset::group_multiset_axioms;
    assert forall|e: Event<C>| #[trigger] due(m, now).count(e) == m.count(e) by {
        if e.deadline > now {
            assert(!m.contains(e));
        }
    }
    assert(due(m, now) =~= m);
    assert forall|e: Event<C>| #[trigger] not_due(m, now).count(e) == 0 by {
        if e.deadline > now {
            assert(!m.contains(e));
        }
    }
    assert(not_due(m, now) =~= Multiset::<Event<C>>::empty());
}

/// An event with deadline `d` does not fire in a sweep at `now1 < d`, stays
/// pending, and fires in a later sweep at `now2 >= d`.
pub proof fn lemma_threshold<C>(m: Multiset<Event<C>>, e: Event<C>, now1: u64, now2: u64)
    requires
        m.contains(e),
        now1 < e.deadline <= now2,
    ensures
        !due(m, now1).contains(e),
        not_due(m, now1).contains(e),
        due(not_due(m, now1), now2).contains(e),
{
    broadcast use vstd::multiset::group_multiset_axioms;
}

/// Over two sweeps at `now1 <= now2`, what the two fire together is exactly
/// what one sweep at `now2` would fire, each event once: the second sweep
/// fires only events that were not yet due at `now1`, and both leave the
/// same events pending.
pub proof fn lemma_fires_once<C>(m: Multiset<Event<C>>, now1: u64, now2: u64)
    requires
        now1 <= now2,
    ensures
        due(m, now1).add(due(not_due(m, now1), now2)) == due(m, now2),
        forall|e: Event<C>| #[trigger] due(not_due(m, now1), now2).contains(e) ==> now1 < e.deadline,
        not_due(not_due(m, now1), now2) == not_due(m, now2),
{
    broadcast use vstd::multiset::group_multiset_axioms;
    assert(due(m, now1).add(due(not_due(m, now1), now2)) =~= due(m, now2));
    assert(not_due(not_due(m, now1), now2) =~= not_due(m, now2));
}

/// Two events registered with the same deadline are both fired by a sweep
/// that reaches it.
pub proof fn lemma_equal_deadlines<C>(m: Multiset<Event<C>>, a: Event<C>, b: Event<C>, now: u64)
    requires
        a.deadline == b.deadline,
        a.deadline <= now,
    ensures
        due(m.insert(a).insert(b), now) == due(m, now).insert(a).insert(b),
{
    broadcast use vstd::multiset::group_multiset_axioms;
    broadcast use vstd::multiset::group_multiset_properties;
    assert(due(m.insert(a).insert(b), now) =~= due(m, now).insert(a).insert(b));
}

} // verus!
