use vstd::prelude::*;

use crate::system::{
    allocated, counts_ok, live_or_null, released, retain_room, retained, ObjectSystem,
};

verus! {

/// The live allocations of a table of counts: reference `k` is slot `k - 1`,
/// and a slot whose count fell to zero is freed.
pub open spec fn live_counts(c: Seq<u64>) -> Map<u64, nat> {
    Map::new(|k: u64| 1 <= k <= c.len() && c[k - 1] > 0, |k: u64| c[k - 1] as nat)
}

/// The arrays of a table: the slots marked as arrays, with their elements.
pub open spec fn array_slots(is_array: Seq<bool>, elements: Seq<Vec<u64>>) -> Map<u64, Seq<u64>> {
    Map::new(|k: u64| 1 <= k <= is_array.len() && is_array[k - 1], |k: u64| elements[k - 1]@)
}

/// The live processes among the first `k` slots whose identifier is `text`,
/// in slot order.
pub open spec fn app_matches(
    c: Seq<u64>,
    texts: Seq<String>,
    is_app: Seq<bool>,
    text: Seq<char>,
    k: int,
) -> Seq<u64>
    decreases k,
{
    if k <= 0 {
        Seq::empty()
    } else {
        let prev = app_matches(c, texts, is_app, text, k - 1);
        if is_app[k - 1] && c[k - 1] > 0 && texts[k - 1]@ == text {
            prev.push(k as u64)
        } else {
            prev
        }
    }
}

/// Each reference of `s` can take one more unit per element of `s`.
pub open spec fn room_for(c: Seq<u64>, s: Seq<u64>) -> bool {
    forall|i: int| 0 <= i < s.len() ==> c[(#[trigger] s[i]) - 1] + s.len() <= u64::MAX
}

proof fn lemma_app_matches_facts(
    c: Seq<u64>,
    texts: Seq<String>,
    is_app: Seq<bool>,
    text: Seq<char>,
    k: int,
)
    requires
        0 <= k <= c.len(),
        c.len() <= u64::MAX,
        texts.len() == c.len(),
        is_app.len() == c.len(),
    ensures
        app_matches(c, texts, is_app, text, k).len() <= k,
        forall|i: int|
            0 <= i < app_matches(c, texts, is_app, text, k).len() ==> {
                let e = #[trigger] app_matches(c, texts, is_app, text, k)[i];
                &&& 1 <= e <= k
                &&& c[e - 1] > 0
                &&& is_app[e - 1]
            },
    decreases k,
{
    if k > 0 {
        lemma_app_matches_facts(c, texts, is_app, text, k - 1);
        let prev = app_matches(c, texts, is_app, text, k - 1);
        let cur = app_matches(c, texts, is_app, text, k);
        assert forall|i: int| 0 <= i < cur.len() implies {
            let e = #[trigger] cur[i];
            &&& 1 <= e <= k
            &&& c[e - 1] > 0
            &&& is_app[e - 1]
        } by {
            if i < prev.len() {
                assert(cur[i] == prev[i]);
            }
        }
    }
}

proof fn lemma_app_matches_push(
    c: Seq<u64>,
    texts: Seq<String>,
    is_app: Seq<bool>,
    text: Seq<char>,
    k: int,
    x: u64,
    y: String,
)
    requires
        0 <= k <= c.len(),
        texts.len() == c.len(),
        is_app.len() == c.len(),
    ensures
        app_matches(c.push(x), texts.push(y), is_app.push(false), text, k) == app_matches(
            c,
            texts,
            is_app,
            text,
            k,
        ),
    decreases k,
{
    if k > 0 {
        lemma_app_matches_push(c, texts, is_app, text, k - 1, x, y);
    }
}

proof fn lemma_live_counts(c: Seq<u64>, r: u64)
    ensures
        live_counts(c).contains_key(r) == (1 <= r <= c.len() && c[r - 1] > 0),
        live_counts(c).contains_key(r) ==> live_counts(c)[r] == c[r - 1] as nat,
{
}

proof fn lemma_array_slots(is_array: Seq<bool>, elements: Seq<Vec<u64>>, a: u64)
    ensures
        array_slots(is_array, elements).contains_key(a) == (1 <= a <= is_array.len()
            && is_array[a - 1]),
        array_slots(is_array, elements).contains_key(a) ==> array_slots(is_array, elements)[a]
            == elements[a - 1]@,
{
}

/// An object system held in memory, with the same retain / release protocol
/// as an external one.
///
/// It holds plain objects, strings, processes (objects with an identifier)
/// and arrays. Its permission query answers with a fixed value, and its
/// options factory can be set to fail, so that callers can be exercised on
/// every path.
pub struct ObjectTable {
    counts: Vec<u64>,
    texts: Vec<String>,
    elements: Vec<Vec<u64>>,
    is_app: Vec<bool>,
    is_array: Vec<bool>,
    trusted: bool,
    options_fail: bool,
    string_fail: bool,
    lookup_fail: bool,
    queries: u64,
    query_total: Ghost<nat>,
}

impl ObjectTable {
    /// How many allocations the table has made so far.
    pub closed spec fn slots_used(&self) -> nat {
        self.counts@.len()
    }

    /// An empty table whose permission query answers `trusted`.
    pub fn new(trusted: bool) -> (t: Self)
        ensures
            t.inv(),
            t.counts() == Map::<u64, nat>::empty(),
            t.arrays() == Map::<u64, Seq<u64>>::empty(),
            t.trust_queries() == 0,
            t.trusted() == trusted,
            t.slots_used() == 0,
            !t.options_fails(),
            !t.string_fails(),
            forall|x: Seq<char>| #[trigger] t.lookup(x) == Some(Seq::<u64>::empty()),
    {
        let t = ObjectTable {
            counts: Vec::new(),
            texts: Vec::new(),
            elements: Vec::new(),
            is_app: Vec::new(),
            is_array: Vec::new(),
            trusted,
            options_fail: false,
            string_fail: false,
            lookup_fail: false,
            queries: 0,
            query_total: Ghost(0),
        };
        assert(t.counts() =~= Map::<u64, nat>::empty());
        assert(t.arrays() =~= Map::<u64, Seq<u64>>::empty());
        t
    }

    /// Makes the options factory give null (`true`) or work (`false`).
    pub fn set_options_failure(&mut self, fail: bool)
        requires
            old(self).inv(),
        ensures
            final(self).inv(),
            final(self).options_fails() == (fail || old(self).slots_used() >= u64::MAX - 1),
            final(self).counts() == old(self).counts(),
            final(self).arrays() == old(self).arrays(),
            final(self).trust_queries() == old(self).trust_queries(),
            final(self).trusted() == old(self).trusted(),
            final(self).slots_used() == old(self).slots_used(),
    {
        self.options_fail = fail;
    }

    /// Makes the string factory give null (`true`) or work (`false`).
    pub fn set_string_failure(&mut self, fail: bool)
        requires
            old(self).inv(),
        ensures
            final(self).inv(),
            final(self).string_fails() == (fail || old(self).slots_used() >= u64::MAX - 2),
            forall|x: Seq<char>| #[trigger] final(self).lookup(x) == old(self).lookup(x),
            final(self).counts() == old(self).counts(),
            final(self).arrays() == old(self).arrays(),
            final(self).trust_queries() == old(self).trust_queries(),
            final(self).trusted() == old(self).trusted(),
            final(self).slots_used() == old(self).slots_used(),
    {
        self.string_fail = fail;
    }

    /// Makes the process lookup give null (`true`) or work (`false`).
    pub fn set_lookup_failure(&mut self, fail: bool)
        requires
            old(self).inv(),
        ensures
            final(self).inv(),
            fail ==> forall|x: Seq<char>| #[trigger] final(self).lookup(x) is None,
            final(self).string_fails() == old(self).string_fails(),
            final(self).counts() == old(self).counts(),
            final(self).arrays() == old(self).arrays(),
            final(self).trust_queries() == old(self).trust_queries(),
            final(self).trusted() == old(self).trusted(),
            final(self).slots_used() == old(self).slots_used(),
    {
        self.lookup_fail = fail;
    }

    /// How many permission queries were made, saturating at `u64::MAX`.
    pub fn trust_query_calls(&self) -> (n: u64)
        requires
            self.inv(),
        ensures
            n as nat == if self.trust_queries() <= u64::MAX {
                self.trust_queries()
            } else {
                u64::MAX as nat
            },
    {
        self.queries
    }

    /// Whether `r` is a live allocation.
    pub fn is_live(&self, r: u64) -> (b: bool)
        requires
            self.inv(),
        ensures
            b == self.counts().contains_key(r),
    {
        r >= 1 && r <= self.counts.len() as u64 && self.counts[self.slot(r)] > 0
    }

    /// Adds a process with the given identifier; the table keeps the one
    /// unit it is made with. Null exactly when the table is full.
    pub fn add_process(&mut self, identifier: &str) -> (r: u64)
        requires
            old(self).inv(),
        ensures
            final(self).inv(),
            r == 0 <==> old(self).slots_used() >= u64::MAX - 1,
            r == 0 ==> final(self).counts() == old(self).counts(),
            r != 0 ==> allocated(old(self).counts(), final(self).counts(), r),
            r != 0 ==> final(self).slots_used() == old(self).slots_used() + 1,
            final(self).arrays() == old(self).arrays(),
            final(self).trust_queries() == old(self).trust_queries(),
    {
        self.allocate(identifier.to_owned(), Vec::new(), true, false)
    }

    /// Adds a plain object with a count of one, owned by the caller. Null
    /// exactly when the table is full.
    pub fn add_object(&mut self) -> (r: u64)
        requires
            old(self).inv(),
        ensures
            final(self).inv(),
            r == 0 <==> old(self).slots_used() >= u64::MAX - 1,
            r == 0 ==> final(self).counts() == old(self).counts(),
            r != 0 ==> allocated(old(self).counts(), final(self).counts(), r),
            r != 0 ==> final(self).slots_used() == old(self).slots_used() + 1,
            final(self).arrays() == old(self).arrays(),
            final(self).trust_queries() == old(self).trust_queries(),
    {
        self.allocate(String::new(), Vec::new(), false, false)
    }

    /// The slot of reference `r`.
    fn slot(&self, r: u64) -> (i: usize)
        requires
            1 <= r <= self.counts@.len(),
        ensures
            i == r - 1,
    {
        let n = self.counts.len();
        assert(r - 1 < n);
        (r - 1) as usize
    }

    fn allocate(&mut self, text: String, items: Vec<u64>, app: bool, array: bool) -> (r: u64)
        requires
            old(self).inv(),
        ensures
            final(self).inv(),
            r == 0 <==> old(self).counts@.len() >= u64::MAX - 1,
            r == 0 ==> *final(self) == *old(self),
            r != 0 ==> r == old(self).counts@.len() + 1,
            r != 0 ==> final(self).counts@ == old(self).counts@.push(1),
            r != 0 ==> final(self).texts@ == old(self).texts@.push(text),
            r != 0 ==> final(self).is_app@ == old(self).is_app@.push(app),
            r != 0 ==> final(self).is_array@ == old(self).is_array@.push(array),
            r != 0 ==> final(self).elements@ == old(self).elements@.push(items),
            r != 0 ==> allocated(old(self).counts(), final(self).counts(), r),
            r != 0 && array ==> final(self).arrays() == old(self).arrays().insert(r, items@),
            r != 0 && !array ==> final(self).arrays() == old(self).arrays(),
            final(self).queries == old(self).queries,
            final(self).query_total == old(self).query_total,
            final(self).trusted == old(self).trusted,
            final(self).options_fail == old(self).options_fail,
            final(self).string_fail == old(self).string_fail,
            final(self).lookup_fail == old(self).lookup_fail,
    {
        let n = self.counts.len();
        if n as u64 >= u64::MAX - 1 {
            return 0;
        }
        self.counts.push(1);
        self.texts.push(text);
        self.elements.push(items);
        self.is_app.push(app);
        self.is_array.push(array);
        let r = (n as u64) + 1;
        proof {
            lemma_live_counts(old(self).counts@, r);
            assert(self.counts() =~= old(self).counts().insert(r, 1));
            if array {
                assert(self.arrays() =~= old(self).arrays().insert(r, items@));
            } else {
                assert(self.arrays() =~= old(self).arrays());
            }
        }
        r
    }

    /// The live processes whose identifier is the text of `id`, in slot
    /// order; `None` when one of them could not take one more unit per match.
    fn matching_apps(&self, id: u64) -> (r: Option<Vec<u64>>)
        requires
            self.inv(),
            1 <= id <= self.counts@.len(),
        ensures
            ({
                let s = app_matches(
                    self.counts@,
                    self.texts@,
                    self.is_app@,
                    self.texts@[id - 1]@,
                    self.counts@.len() as int,
                );
                &&& r is Some <==> room_for(self.counts@, s)
                &&& r matches Some(v) ==> v@ == s
            }),
    {
        let n = self.counts.len();
        let j = self.slot(id);
        let ghost text = self.texts@[id - 1]@;
        let mut items: Vec<u64> = Vec::new();
        let mut k: usize = 0;
        while k < n
            invariant
                self.inv(),
                n == self.counts@.len(),
                j == id - 1,
                j < n,
                0 <= k <= n,
                text == self.texts@[j as int]@,
                items@ == app_matches(self.counts@, self.texts@, self.is_app@, text, k as int),
            decreases n - k,
        {
            if self.is_app[k] && self.counts[k] > 0 && self.texts[k].eq(&self.texts[j]) {
                items.push((k + 1) as u64);
            }
            k = k + 1;
        }
        proof {
            lemma_app_matches_facts(self.counts@, self.texts@, self.is_app@, text, n as int);
        }
        let m = items.len();
        let mut i: usize = 0;
        while i < m
            invariant
                self.inv(),
                n == self.counts@.len(),
                m == items.len(),
                0 <= i <= m,
                text == self.texts@[id - 1]@,
                items@ == app_matches(self.counts@, self.texts@, self.is_app@, text, n as int),
                forall|t: int| 0 <= t < items.len() ==> 1 <= #[trigger] items@[t] <= n,
                forall|t: int| 0 <= t < i ==> self.counts@[(#[trigger] items@[t]) - 1] + m <= u64::MAX,
            decreases m - i,
        {
            let c = self.counts[self.slot(items[i])];
            if c > u64::MAX - m as u64 {
                assert(self.counts@[(items@[i as int]) - 1] + items@.len() > u64::MAX);
                assert(!room_for(self.counts@, items@));
                return None;
            }
            i = i + 1;
        }
        Some(items)
    }
}

impl ObjectSystem for ObjectTable {
    closed spec fn counts(&self) -> Map<u64, nat> {
        live_counts(self.counts@)
    }

    closed spec fn arrays(&self) -> Map<u64, Seq<u64>> {
        array_slots(self.is_array@, self.elements@)
    }

    closed spec fn trust_queries(&self) -> nat {
        self.query_total@
    }

    closed spec fn options_fails(&self) -> bool {
        self.options_fail || self.counts@.len() >= u64::MAX - 1
    }

    closed spec fn trusted(&self) -> bool {
        self.trusted
    }

    /// A string always leaves room for the array of one lookup.
    closed spec fn string_fails(&self) -> bool {
        self.string_fail || self.counts@.len() >= u64::MAX - 2
    }

    closed spec fn is_text(&self, r: u64) -> bool {
        1 <= r <= self.counts@.len() && !self.is_app@[r - 1]
    }

    closed spec fn text_of(&self, r: u64) -> Seq<char> {
        self.texts@[r - 1]@
    }

    closed spec fn lookup(&self, text: Seq<char>) -> Option<Seq<u64>> {
        let s = app_matches(
            self.counts@,
            self.texts@,
            self.is_app@,
            text,
            self.counts@.len() as int,
        );
        if self.lookup_fail || self.counts@.len() >= u64::MAX - 1 || !room_for(self.counts@, s) {
            None
        } else {
            Some(s)
        }
    }

    closed spec fn inv(&self) -> bool {
        &&& self.texts@.len() == self.counts@.len()
        &&& self.elements@.len() == self.counts@.len()
        &&& self.is_app@.len() == self.counts@.len()
        &&& self.is_array@.len() == self.counts@.len()
        &&& self.counts@.len() < u64::MAX
        &&& self.queries as nat == if self.query_total@ <= u64::MAX {
            self.query_total@
        } else {
            u64::MAX as nat
        }
    }

    proof fn lemma_inv_counts(&self) {
        assert forall|k: u64| #[trigger] self.counts().contains_key(k) implies 1 <= self.counts()[k]
            <= u64::MAX by {
            lemma_live_counts(self.counts@, k);
        }
        lemma_live_counts(self.counts@, 0);
    }

    fn retain(&mut self, r: u64) {
        proof {
            lemma_live_counts(self.counts@, r);
        }
        let i = self.slot(r);
        let c = self.counts[i];
        self.counts.set(i, c + 1);
        assert(self.counts() =~= retained(old(self).counts(), r));
        assert(self.arrays() =~= old(self).arrays());
    }

    fn release(&mut self, r: u64) {
        proof {
            lemma_live_counts(self.counts@, r);
        }
        let i = self.slot(r);
        let c = self.counts[i];
        self.counts.set(i, c - 1);
        assert(self.counts() =~= released(old(self).counts(), r));
        assert(self.arrays() =~= old(self).arrays());
    }

    fn retain_count(&self, r: u64) -> (c: u64) {
        proof {
            lemma_live_counts(self.counts@, r);
        }
        self.counts[self.slot(r)]
    }

    fn create_options(&mut self) -> (r: u64) {
        if self.options_fail {
            return 0;
        }
        self.allocate(String::new(), Vec::new(), false, false)
    }

    fn is_trusted(&mut self, options: u64) -> (b: bool) {
        self.queries = self.queries.saturating_add(1);
        self.query_total = Ghost(self.query_total@ + 1);
        self.trusted
    }

    fn create_string(&mut self, text: &str) -> (r: u64) {
        if self.string_fail || self.counts.len() as u64 >= u64::MAX - 2 {
            return 0;
        }
        let owned = text.to_owned();
        let r = self.allocate(owned, Vec::new(), false, false);
        proof {
            let c = old(self).counts@;
            let ts = old(self).texts@;
            let a = old(self).is_app@;
            assert forall|t: Seq<char>| #[trigger] self.lookup(t) == old(self).lookup(t) by {
                lemma_app_matches_push(c, ts, a, t, c.len() as int, 1, owned);
                lemma_app_matches_facts(c, ts, a, t, c.len() as int);
                let s0 = app_matches(c, ts, a, t, c.len() as int);
                assert(app_matches(self.counts@, self.texts@, self.is_app@, t, c.len() as int + 1) == s0);
                assert(room_for(self.counts@, s0) == room_for(c, s0)) by {
                    assert forall|i: int| 0 <= i < s0.len() implies self.counts@[(#[trigger] s0[i]) - 1]
                        == c[s0[i] - 1] by {}
                }
            }
        }
        r
    }

    fn running_apps(&mut self, id: u64) -> (r: u64) {
        if self.lookup_fail || self.counts.len() as u64 >= u64::MAX - 1 {
            return 0;
        }
        proof {
            lemma_live_counts(self.counts@, id);
        }
        let items = match self.matching_apps(id) {
            Some(v) => v,
            None => {
                return 0;
            },
        };
        let ghost s = items@;
        let ghost m = self.counts();
        proof {
            lemma_app_matches_facts(self.counts@, self.texts@, self.is_app@, self.texts@[id - 1]@, self.counts@.len() as int);
            assert forall|i: int| 0 <= i < s.len() && #[trigger] s[i] != 0 implies m.contains_key(s[i])
                && m[s[i]] + s.len() <= u64::MAX by {
                lemma_live_counts(self.counts@, s[i]);
            }
            assert forall|i: int| 0 <= i < s.len() implies #[trigger] s[i] != id by {}
        }
        self.allocate(String::new(), items, false, true)
    }

    fn array_len(&self, a: u64) -> (n: usize) {
        proof {
            lemma_live_counts(self.counts@, a);
            lemma_array_slots(self.is_array@, self.elements@, a);
        }
        self.elements[self.slot(a)].len()
    }

    fn array_get(&self, a: u64, i: usize) -> (e: u64) {
        proof {
            lemma_live_counts(self.counts@, a);
            lemma_array_slots(self.is_array@, self.elements@, a);
        }
        self.elements[self.slot(a)][i]
    }
}

} // verus!
