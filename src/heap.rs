//! Binary min-heap operations on a vector of events, ordered by deadline.
use vstd::prelude::*;
use vstd::pervasive::VecAdditionalExecFns;

verus! {

broadcast use vstd::seq_lib::group_to_multiset_ensures;

/// A pending event: a deadline and the callback to invoke once it has passed.
pub struct Event<C> {
    pub deadline: u64,
    pub callback: C,
}

/// The callback may be invoked at any time.
pub open spec fn callable<C: FnOnce(u64)>(c: C) -> bool {
    forall|t: u64| call_requires(c, (t,))
}

/// Every callback in `s` may be invoked at any time.
pub open spec fn all_callable<C: FnOnce(u64)>(s: Seq<Event<C>>) -> bool {
    forall|i: int| 0 <= i < s.len() ==> callable(#[trigger] s[i].callback)
}

/// Index of the parent of slot `i` in the implicit binary tree.
pub open spec fn parent(i: int) -> int {
    (i - 1) / 2
}

/// No event has a smaller deadline than its parent.
pub open spec fn heap_ordered<C>(s: Seq<Event<C>>) -> bool {
    forall|i: int| 0 < i < s.len() ==> s[parent(i)].deadline <= #[trigger] s[i].deadline
}

/// Heap order holds for every parent other than `k`, and the parent of `k`
/// is no later than the children of `k`: the state while `k` sinks.
pub open spec fn heap_below<C>(s: Seq<Event<C>>, k: int) -> bool {
    &&& forall|i: int| 0 < i < s.len() && parent(i) != k ==> s[parent(i)].deadline <= #[trigger] s[i].deadline
    &&& k > 0 ==> forall|c: int| 0 < c < s.len() && parent(c) == k ==> s[parent(k)].deadline <= #[trigger] s[c].deadline
}

/// Heap order holds for every slot other than `k`, and the parent of `k`
/// is no later than the children of `k`: the state while `k` rises.
pub open spec fn heap_above<C>(s: Seq<Event<C>>, k: int) -> bool {
    &&& forall|i: int| 0 < i < s.len() && i != k ==> s[parent(i)].deadline <= #[trigger] s[i].deadline
    &&& k > 0 ==> forall|c: int| 0 < c < s.len() && parent(c) == k ==> s[parent(k)].deadline <= #[trigger] s[c].deadline
}

/// In a heap-ordered sequence the first event has the smallest deadline.
proof fn lemma_root_is_min<C>(s: Seq<Event<C>>, i: int)
    requires
        heap_ordered(s),
        0 <= i < s.len(),
    ensures
        s[0].deadline <= s[i].deadline,
    decreases i,
{
    if i > 0 {
        lemma_root_is_min(s, parent(i));
    }
}

/// The first event of a heap-ordered sequence is no later than any event it holds.
pub(crate) proof fn lemma_root_below_all<C>(s: Seq<Event<C>>)
    requires
        heap_ordered(s),
        s.len() > 0,
    ensures
        s.to_multiset().contains(s[0]),
        forall|e: Event<C>| s.to_multiset().contains(e) ==> s[0].deadline <= e.deadline,
{
    assert(s.contains(s[0]));
    assert forall|e: Event<C>| s.to_multiset().contains(e) implies s[0].deadline <= e.deadline by {
        assert(s.contains(e));
        let i = choose|i: int| 0 <= i < s.len() && s[i] == e;
        lemma_root_is_min(s, i);
    }
}

proof fn lemma_swap_multiset<C>(s: Seq<Event<C>>, i: int, j: int)
    requires
        0 <= i < s.len(),
        0 <= j < s.len(),
    ensures
        s.update(i, s[j]).update(j, s[i]).to_multiset() == s.to_multiset(),
{
    broadcast use vstd::seq_lib::to_multiset_update;
    broadcast use vstd::multiset::group_multiset_properties;
    let s1 = s.update(i, s[j]);
    assert(s1.to_multiset() == s.to_multiset().insert(s[j]).remove(s[i]));
    assert(s1.update(j, s[i]).to_multiset() == s1.to_multiset().insert(s[i]).remove(s1[j]));
    if i == j {
        assert(s1.update(j, s[i]) =~= s);
    } else {
        assert(s1[j] == s[j]);
        assert(s.to_multiset().insert(s[j]).remove(s[i]).insert(s[i]).remove(s[j]) =~= s.to_multiset());
    }
}

/// Exchanges the events in slots `k` and `last`, where `last` is the final slot.
fn swap_with_last<C>(v: &mut Vec<Event<C>>, k: usize)
    requires
        k < old(v).len(),
    ensures
        final(v)@ == old(v)@.update(k as int, old(v)@[old(v)@.len() - 1]).update(
            old(v)@.len() - 1,
            old(v)@[k as int],
        ),
{
    let ghost s = v@;
    let mut x = v.pop().unwrap();
    if k < v.len() {
        v.set_and_swap(k, &mut x);
    }
    v.push(x);
    proof {
        if k as int == s.len() - 1 {
            assert(v@ =~= s);
            assert(s.update(k as int, s[s.len() - 1]).update(s.len() - 1, s[k as int]) =~= s);
        } else {
            assert(v@ =~= s.update(k as int, s[s.len() - 1]).update(s.len() - 1, s[k as int]));
        }
    }
}

/// Exchanges the events in slots `i` and `j`.
fn swap_slots<C>(v: &mut Vec<Event<C>>, i: usize, j: usize)
    requires
        i < old(v).len(),
        j < old(v).len(),
    ensures
        final(v)@ == old(v)@.update(i as int, old(v)@[j as int]).update(j as int, old(v)@[i as int]),
{
    let ghost s = v@;
    let last = v.len() - 1;
    if i == j {
        assert(s.update(i as int, s[j as int]).update(j as int, s[i as int]) =~= s);
    } else if j == last {
        swap_with_last(v, i);
    } else if i == last {
        swap_with_last(v, j);
        assert(v@ =~= s.update(i as int, s[j as int]).update(j as int, s[i as int]));
    } else {
        swap_with_last(v, i);
        swap_with_last(v, j);
        swap_with_last(v, i);
        assert(v@ =~= s.update(i as int, s[j as int]).update(j as int, s[i as int]));
    }
}

/// Moves the event in slot `k` towards the root until heap order holds.
pub(crate) fn sift_up<C: FnOnce(u64)>(v: &mut Vec<Event<C>>, k: usize)
    requires
        k < old(v).len(),
        heap_above(old(v)@, k as int),
    ensures
        heap_ordered(final(v)@),
        final(v)@.to_multiset() == old(v)@.to_multiset(),
        all_callable(old(v)@) ==> all_callable(final(v)@),
{
    let mut k = k;
    while k > 0
        invariant
            k < v.len(),
            v@.len() == old(v)@.len(),
            heap_above(v@, k as int),
            v@.to_multiset() == old(v)@.to_multiset(),
            all_callable(old(v)@) ==> all_callable(v@),
        decreases k,
    {
        let p = (k - 1) / 2;
        if v[p].deadline <= v[k].deadline {
            assert(heap_ordered(v@));
            return;
        }
        let ghost s = v@;
        swap_slots(v, p, k);
        proof {
            lemma_swap_multiset(s, p as int, k as int);
            assert(heap_above(v@, p as int));
        }
        k = p;
    }
    assert(heap_ordered(v@));
}

/// Moves the event in slot `k` away from the root until heap order holds.
pub(crate) fn sift_down<C: FnOnce(u64)>(v: &mut Vec<Event<C>>, k: usize)
    requires
        k < old(v).len(),
        heap_below(old(v)@, k as int),
    ensures
        heap_ordered(final(v)@),
        final(v)@.to_multiset() == old(v)@.to_multiset(),
        all_callable(old(v)@) ==> all_callable(final(v)@),
{
    let n = v.len();
    let mut k = k;
    while k < n / 2
        invariant
            n == v.len(),
            k < n,
            v@.len() == old(v)@.len(),
            heap_below(v@, k as int),
            v@.to_multiset() == old(v)@.to_multiset(),
            all_callable(old(v)@) ==> all_callable(v@),
        decreases n - k,
    {
        let left = 2 * k + 1;
        let right = left + 1;
        let m = if right < n && v[right].deadline < v[left].deadline {
            right
        } else {
            left
        };
        if v[k].deadline <= v[m].deadline {
            assert(heap_ordered(v@));
            return;
        }
        let ghost s = v@;
        swap_slots(v, k, m);
        proof {
            lemma_swap_multiset(s, k as int, m as int);
            assert(heap_below(v@, m as int));
        }
        k = m;
    }
    assert(heap_ordered(v@));
}

} // verus!
