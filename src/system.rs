use vstd::prelude::*;

verus! {

/// Reference counts after one retain of `r`.
pub open spec fn retained(m: Map<u64, nat>, r: u64) -> Map<u64, nat> {
    m.insert(r, m[r] + 1)
}

/// Reference counts after one release of `r`: the last release removes the
/// allocation.
pub open spec fn released(m: Map<u64, nat>, r: u64) -> Map<u64, nat> {
    if m[r] <= 1 {
        m.remove(r)
    } else {
        m.insert(r, (m[r] - 1) as nat)
    }
}

/// Reference counts after one retain of each reference of `s`, in order.
pub open spec fn retained_all(m: Map<u64, nat>, s: Seq<u64>) -> Map<u64, nat>
    decreases s.len(),
{
    if s.len() == 0 {
        m
    } else {
        retained(retained_all(m, s.drop_last()), s.last())
    }
}

/// Reference counts after `n` retains of `r`.
pub open spec fn retained_times(m: Map<u64, nat>, r: u64, n: nat) -> Map<u64, nat>
    decreases n,
{
    if n == 0 {
        m
    } else {
        retained(retained_times(m, r, (n - 1) as nat), r)
    }
}

/// Reference counts after `n` releases of `r`.
pub open spec fn released_times(m: Map<u64, nat>, r: u64, n: nat) -> Map<u64, nat>
    decreases n,
{
    if n == 0 {
        m
    } else {
        released(released_times(m, r, (n - 1) as nat), r)
    }
}

/// A table of live allocations: null is never live, every live allocation
/// has a count of at least one, and every count fits in a `u64`.
pub open spec fn counts_ok(m: Map<u64, nat>) -> bool {
    &&& !m.contains_key(0)
    &&& forall|k: u64| #[trigger] m.contains_key(k) ==> 1 <= m[k] <= u64::MAX
}

/// `r` is live in `m` and may be retained once more.
pub open spec fn can_retain(m: Map<u64, nat>, r: u64) -> bool {
    m.contains_key(r) && m[r] < u64::MAX
}

/// `r` is a fresh allocation of `after` with a count of one, and nothing
/// else changed.
pub open spec fn allocated(before: Map<u64, nat>, after: Map<u64, nat>, r: u64) -> bool {
    &&& r != 0
    &&& !before.contains_key(r)
    &&& after == before.insert(r, 1)
}

/// Every element of `s` is a non-null live reference of `m`.
pub open spec fn elements_live(m: Map<u64, nat>, s: Seq<u64>) -> bool {
    forall|i: int| 0 <= i < s.len() ==> #[trigger] s[i] != 0 && m.contains_key(s[i])
}

/// Each non-null element of `s` is live in `m`; null elements are allowed.
pub open spec fn live_or_null(m: Map<u64, nat>, s: Seq<u64>) -> bool {
    forall|i: int| 0 <= i < s.len() && #[trigger] s[i] != 0 ==> m.contains_key(s[i])
}

/// Each non-null element of `s` can take one unit per element of `s`.
pub open spec fn retain_room(m: Map<u64, nat>, s: Seq<u64>) -> bool {
    forall|i: int| 0 <= i < s.len() && #[trigger] s[i] != 0 ==> m[s[i]] + s.len() <= u64::MAX
}

/// The two parts of a sequence of live references hold live references.
pub proof fn lemma_elements_live_parts(m: Map<u64, nat>, s: Seq<u64>, j: int)
    requires
        elements_live(m, s),
        0 <= j <= s.len(),
    ensures
        elements_live(m, s.take(j)),
        elements_live(m, s.skip(j)),
{
    assert forall|i: int| 0 <= i < s.take(j).len() implies #[trigger] s.take(j)[i] != 0
        && m.contains_key(s.take(j)[i]) by {
        assert(s.take(j)[i] == s[i]);
    }
    assert forall|i: int| 0 <= i < s.skip(j).len() implies #[trigger] s.skip(j)[i] != 0
        && m.contains_key(s.skip(j)[i]) by {
        assert(s.skip(j)[i] == s[j + i]);
    }
}

/// Retains of live references add no allocation and lower no count.
pub proof fn lemma_retained_all_grows(m: Map<u64, nat>, s: Seq<u64>)
    requires
        elements_live(m, s),
    ensures
        retained_all(m, s).dom() == m.dom(),
        forall|k: u64| #[trigger] m.contains_key(k) ==> retained_all(m, s)[k] >= m[k],
    decreases s.len(),
{
    if s.len() > 0 {
        let t = s.drop_last();
        assert forall|i: int| 0 <= i < t.len() implies #[trigger] t[i] != 0 && m.contains_key(t[i]) by {
            assert(t[i] == s[i]);
        }
        lemma_retained_all_grows(m, t);
        assert(s[s.len() - 1] != 0);
        assert(retained_all(m, s).dom() =~= m.dom());
    }
}

/// Retaining the elements of `s` is retaining those of a prefix, then the rest.
pub proof fn lemma_retained_all_split(m: Map<u64, nat>, s: Seq<u64>, j: int)
    requires
        0 <= j <= s.len(),
    ensures
        retained_all(m, s) == retained_all(retained_all(m, s.take(j)), s.skip(j)),
    decreases s.len(),
{
    if j == s.len() {
        assert(s.take(j) =~= s);
        assert(s.skip(j) =~= Seq::<u64>::empty());
    } else {
        let t = s.drop_last();
        lemma_retained_all_split(m, t, j);
        assert(t.take(j) =~= s.take(j));
        assert(s.skip(j).drop_last() =~= t.skip(j));
        assert(s.skip(j).last() == s.last());
    }
}

/// Each element of `s` is live after the retains, with at least one more unit
/// than before.
pub proof fn lemma_retained_all_each(m: Map<u64, nat>, s: Seq<u64>)
    requires
        elements_live(m, s),
    ensures
        forall|i: int|
            0 <= i < s.len() ==> retained_all(m, s).contains_key(#[trigger] s[i])
                && retained_all(m, s)[s[i]] >= m[s[i]] + 1,
{
    assert forall|i: int| 0 <= i < s.len() implies retained_all(m, s).contains_key(#[trigger] s[i])
        && retained_all(m, s)[s[i]] >= m[s[i]] + 1 by {
        let head = s.take(i + 1);
        let rest = s.skip(i + 1);
        lemma_retained_all_split(m, s, i + 1);
        assert(head.drop_last() =~= s.take(i));
        assert(head.last() == s[i]);
        lemma_elements_live_parts(m, s, i);
        lemma_retained_all_grows(m, s.take(i));
        lemma_elements_live_parts(m, s, i + 1);
        lemma_retained_all_grows(m, head);
        let after = retained_all(m, head);
        assert(elements_live(after, rest));
        lemma_retained_all_grows(after, rest);
    }
}

/// Retains of other references leave an entry for `k` as it was.
pub proof fn lemma_retained_all_insert(m: Map<u64, nat>, s: Seq<u64>, k: u64, c: nat)
    requires
        forall|i: int| 0 <= i < s.len() ==> #[trigger] s[i] != k,
    ensures
        retained_all(m.insert(k, c), s) == retained_all(m, s).insert(k, c),
    decreases s.len(),
{
    if s.len() > 0 {
        let t = s.drop_last();
        assert forall|i: int| 0 <= i < t.len() implies #[trigger] t[i] != k by {
            assert(t[i] == s[i]);
        }
        lemma_retained_all_insert(m, t, k, c);
        assert(s[s.len() - 1] != k);
        assert(retained_all(m.insert(k, c), s) =~= retained_all(m, s).insert(k, c));
    }
}

/// No count grows by more than the number of retains.
pub proof fn lemma_retained_all_bound(m: Map<u64, nat>, s: Seq<u64>)
    requires
        elements_live(m, s),
    ensures
        forall|k: u64| #[trigger] m.contains_key(k) ==> retained_all(m, s)[k] <= m[k] + s.len(),
    decreases s.len(),
{
    if s.len() > 0 {
        let t = s.drop_last();
        assert forall|i: int| 0 <= i < t.len() implies #[trigger] t[i] != 0 && m.contains_key(t[i]) by {
            assert(t[i] == s[i]);
        }
        lemma_retained_all_bound(m, t);
        lemma_retained_all_grows(m, t);
        assert(s[s.len() - 1] != 0);
    }
}

/// An external object system whose allocations are counted by an explicit
/// retain / release protocol, with the few queries that this library makes
/// of it.
///
/// `counts` maps each live reference to its retain count; `arrays` gives the
/// elements of each array that the system has handed out; `trust_queries`
/// tallies the permission queries made so far. The other spec functions say
/// what the next factory call, permission query or process lookup will give.
pub trait ObjectSystem {
    spec fn counts(&self) -> Map<u64, nat>;

    spec fn arrays(&self) -> Map<u64, Seq<u64>>;

    spec fn trust_queries(&self) -> nat;

    /// Whether the options factory gives null now.
    spec fn options_fails(&self) -> bool;

    /// The answer that the permission query gives now.
    spec fn trusted(&self) -> bool;

    /// Whether the string factory gives null now.
    spec fn string_fails(&self) -> bool;

    /// Whether `r` is a string object.
    spec fn is_text(&self, r: u64) -> bool;

    /// The text of the string object `r`.
    spec fn text_of(&self, r: u64) -> Seq<char>;

    /// What the process lookup gives for `text` now: `None` for a null
    /// array, else the array's elements, where null ones may occur.
    spec fn lookup(&self, text: Seq<char>) -> Option<Seq<u64>>;

    /// The system's own consistency; every operation keeps it.
    spec fn inv(&self) -> bool;

    proof fn lemma_inv_counts(&self)
        requires
            self.inv(),
        ensures
            counts_ok(self.counts()),
    ;

    /// Adds one unit to the count of a live reference.
    fn retain(&mut self, r: u64)
        requires
            old(self).inv(),
            can_retain(old(self).counts(), r),
        ensures
            final(self).inv(),
            final(self).counts() == retained(old(self).counts(), r),
            final(self).arrays() == old(self).arrays(),
            final(self).trust_queries() == old(self).trust_queries(),
    ;

    /// Takes one unit from the count of a live reference; the last one frees it.
    fn release(&mut self, r: u64)
        requires
            old(self).inv(),
            old(self).counts().contains_key(r),
        ensures
            final(self).inv(),
            final(self).counts() == released(old(self).counts(), r),
            final(self).arrays() == old(self).arrays(),
            final(self).trust_queries() == old(self).trust_queries(),
    ;

    /// The current count of a live reference.
    fn retain_count(&self, r: u64) -> (c: u64)
        requires
            self.inv(),
            self.counts().contains_key(r),
        ensures
            c as nat == self.counts()[r],
    ;

    /// Builds the options collection of a permission query; null on failure.
    fn create_options(&mut self) -> (r: u64)
        requires
            old(self).inv(),
        ensures
            final(self).inv(),
            r == 0 <==> old(self).options_fails(),
            r == 0 ==> final(self).counts() == old(self).counts(),
            r != 0 ==> allocated(old(self).counts(), final(self).counts(), r),
            final(self).arrays() == old(self).arrays(),
            final(self).trust_queries() == old(self).trust_queries(),
            final(self).trusted() == old(self).trusted(),
    ;

    /// Asks whether this process is trusted, under the given options.
    fn is_trusted(&mut self, options: u64) -> (b: bool)
        requires
            old(self).inv(),
            old(self).counts().contains_key(options),
        ensures
            final(self).inv(),
            b == old(self).trusted(),
            final(self).counts() == old(self).counts(),
            final(self).arrays() == old(self).arrays(),
            final(self).trust_queries() == old(self).trust_queries() + 1,
    ;

    /// Makes a string object holding `text`; null on failure. Making it
    /// changes no lookup.
    fn create_string(&mut self, text: &str) -> (r: u64)
        requires
            old(self).inv(),
        ensures
            final(self).inv(),
            r == 0 <==> old(self).string_fails(),
            r == 0 ==> final(self).counts() == old(self).counts(),
            r != 0 ==> allocated(old(self).counts(), final(self).counts(), r),
            r != 0 ==> final(self).is_text(r),
            r != 0 ==> final(self).text_of(r) == text@,
            r != 0 ==> forall|t: Seq<char>| #[trigger] final(self).lookup(t) == old(self).lookup(t),
            final(self).arrays() == old(self).arrays(),
            final(self).trust_queries() == old(self).trust_queries(),
    ;

    /// Looks up the running processes whose identifier is the text of the
    /// string `id`, as a fresh array owned by the caller; null on failure.
    /// The array holds null or live references other than `id`, each of
    /// which can take one more unit per element.
    fn running_apps(&mut self, id: u64) -> (r: u64)
        requires
            old(self).inv(),
            old(self).counts().contains_key(id),
            old(self).is_text(id),
        ensures
            final(self).inv(),
            r == 0 <==> old(self).lookup(old(self).text_of(id)) is None,
            r == 0 ==> final(self).counts() == old(self).counts(),
            r == 0 ==> final(self).arrays() == old(self).arrays(),
            r != 0 ==> allocated(old(self).counts(), final(self).counts(), r),
            r != 0 ==> final(self).arrays() == old(self).arrays().insert(
                r,
                old(self).lookup(old(self).text_of(id))->Some_0,
            ),
            old(self).lookup(old(self).text_of(id)) matches Some(s) ==> {
                &&& live_or_null(old(self).counts(), s)
                &&& retain_room(old(self).counts(), s)
                &&& forall|i: int| 0 <= i < s.len() ==> #[trigger] s[i] != id
            },
            final(self).trust_queries() == old(self).trust_queries(),
    ;

    /// The number of elements of a live array.
    fn array_len(&self, a: u64) -> (n: usize)
        requires
            self.inv(),
            self.counts().contains_key(a),
            self.arrays().contains_key(a),
        ensures
            n == self.arrays()[a].len(),
    ;

    /// The element at `i` of a live array, still owned by the array; it may
    /// be null.
    fn array_get(&self, a: u64, i: usize) -> (e: u64)
        requires
            self.inv(),
            self.counts().contains_key(a),
            self.arrays().contains_key(a),
            i < self.arrays()[a].len(),
        ensures
            e == self.arrays()[a][i as int],
    ;
}

} // verus!
