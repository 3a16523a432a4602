//! The work that threads sharing a mutex-protected counter or vector do
//! inside the lock, and the ordering of what the collecting threads
//! recorded.

use vstd::prelude::*;

verus! {

broadcast use vstd::seq_lib::group_to_multiset_ensures;

/// Non-decreasing order.
pub open spec fn ascending(s: Seq<usize>) -> bool {
    forall|i: int, j: int| 0 <= i < j < s.len() ==> s[i] <= s[j]
}

/// The ids `0, 1, ..., n - 1` in order.
pub open spec fn id_range(n: nat) -> Seq<usize> {
    Seq::new(n, |i: int| i as usize)
}

/// One step of a counting thread while it holds the lock: add one.
pub fn increment(counter: &mut usize)
    requires
        *old(counter) < usize::MAX,
    ensures
        *final(counter) == *old(counter) + 1,
{
    *counter = *counter + 1;
}

/// Put `x` into an ascending vector at its place.
fn insert_sorted(v: &mut Vec<usize>, x: usize)
    requires
        ascending(old(v)@),
        old(v)@.len() < usize::MAX,
    ensures
        ascending(final(v)@),
        final(v)@.len() == old(v)@.len() + 1,
        final(v)@.to_multiset() == old(v)@.to_multiset().insert(x),
{
    let mut i: usize = v.len();
    while i > 0 && v[i - 1] > x
        invariant
            i <= v@.len(),
            v@ == old(v)@,
            forall|j: int| i <= j < v@.len() ==> v@[j] > x,
        decreases i,
    {
        i = i - 1;
    }
    let ghost before = v@;
    v.insert(i, x);
    proof {
        before.insert_ensures(i as int, x);
        assert forall|a: int, b: int| 0 <= a < b < v@.len() implies v@[a] <= v@[b] by {
            if b < i {
            } else if b == i {
                assert(v@[a] == before[a]);
                assert(before[a] <= before[i - 1]);
            } else if a < i {
                assert(v@[b] == before[b - 1]);
                assert(v@[a] == before[a]);
                assert(before[a] <= before[i - 1]);
            } else if a == i {
                assert(v@[b] == before[b - 1]);
            } else {
                assert(v@[b] == before[b - 1]);
                assert(v@[a] == before[a - 1]);
            }
        }
    }
}

/// The recorded ids in ascending order: the same ids, each as often as it
/// was recorded.
pub fn sorted_ids(ids: Vec<usize>) -> (r: Vec<usize>)
    ensures
        ascending(r@),
        r@.to_multiset() == ids@.to_multiset(),
{
    let mut r: Vec<usize> = Vec::new();
    let mut i: usize = 0;
    while i < ids.len()
        invariant
            i <= ids@.len(),
            r@.len() == i,
            ascending(r@),
            r@.to_multiset() == ids@.take(i as int).to_multiset(),
        decreases ids@.len() - i,
    {
        assert(ids@.take(i + 1) == ids@.take(i as int).push(ids@[i as int]));
        insert_sorted(&mut r, ids[i]);
        i = i + 1;
    }
    assert(ids@.take(ids@.len() as int) == ids@);
    r
}

/// Whatever order the collecting threads recorded their ids in, putting
/// them in ascending order gives `0, 1, ..., n - 1`.
pub proof fn law_collected_ids_sort_to_range(ids: Seq<usize>, r: Seq<usize>, n: usize)
    requires
        ids.to_multiset() == id_range(n as nat).to_multiset(),
        ascending(r),
        r.to_multiset() == ids.to_multiset(),
    ensures
        r == id_range(n as nat),
{
    let leq = |a: usize, b: usize| a <= b;
    let range = id_range(n as nat);
    assert(vstd::relations::sorted_by(r, leq));
    assert forall|i: int, j: int| 0 <= i < j < range.len() implies #[trigger] leq(
        range[i],
        range[j],
    ) by {
        assert(range[i] == i);
        assert(range[j] == j);
    }
    assert(vstd::relations::sorted_by(range, leq));
    assert(vstd::relations::total_ordering(leq));
    vstd::seq_lib::lemma_sorted_unique(r, range, leq);
}

} // verus!
