use vstd::prelude::*;

use crate::system::{released, released_times, retained, retained_times};

verus! {

/// Cloning a live handle adds exactly one unit to its allocation's count,
/// and releasing the clone gives back the counts from before the clone.
pub proof fn lemma_clone_then_release(m: Map<u64, nat>, r: u64)
    requires
        m.contains_key(r),
        m[r] >= 1,
    ensures
        retained(m, r).contains_key(r),
        retained(m, r)[r] == m[r] + 1,
        released(retained(m, r), r) == m,
{
    assert(released(retained(m, r), r) =~= m);
}

/// After `n` retains of a live reference its count has grown by `n`.
pub proof fn lemma_retained_times_count(m: Map<u64, nat>, r: u64, n: nat)
    requires
        m.contains_key(r),
        m[r] >= 1,
    ensures
        retained_times(m, r, n).contains_key(r),
        retained_times(m, r, n)[r] == m[r] + n,
    decreases n,
{
    if n > 0 {
        lemma_retained_times_count(m, r, (n - 1) as nat);
    }
}

/// Releasing `k` of `n` clones leaves the counts as after `n - k` clones.
pub proof fn lemma_release_some_clones(m: Map<u64, nat>, r: u64, n: nat, k: nat)
    requires
        m.contains_key(r),
        m[r] >= 1,
        k <= n,
    ensures
        released_times(retained_times(m, r, n), r, k) == retained_times(m, r, (n - k) as nat),
    decreases k,
{
    if k > 0 {
        lemma_release_some_clones(m, r, n, (k - 1) as nat);
        let rest = retained_times(m, r, (n - k) as nat);
        lemma_retained_times_count(m, r, (n - k) as nat);
        assert(retained_times(m, r, (n - (k - 1)) as nat) == retained(rest, r));
        lemma_clone_then_release(rest, r);
    }
}

/// Given `n` clones of a handle that was the only owner of its allocation,
/// releasing any `n` of the `n + 1` owners leaves the counts as before the
/// clones: the allocation is still live, with a count of one, held by the
/// survivor.
pub proof fn lemma_clones_released_leave_one(m: Map<u64, nat>, r: u64, n: nat)
    requires
        m.contains_key(r),
        m[r] == 1,
    ensures
        retained_times(m, r, n)[r] == n + 1,
        released_times(retained_times(m, r, n), r, n) == m,
        released_times(retained_times(m, r, n), r, n).contains_key(r),
        released_times(retained_times(m, r, n), r, n)[r] == 1,
{
    lemma_retained_times_count(m, r, n);
    lemma_release_some_clones(m, r, n, n);
}

} // verus!
