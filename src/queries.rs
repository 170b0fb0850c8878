use vstd::prelude::*;

use crate::acquire::ManageWithRc;
use crate::error::WiseError;
use crate::handle::{Dictionary, Object, Rc};
use crate::laws::lemma_clone_then_release;
use crate::system::{
    counts_ok, elements_live, lemma_elements_live_parts, lemma_retained_all_bound,
    lemma_retained_all_each, lemma_retained_all_grows, lemma_retained_all_insert, live_or_null,
    released, retain_room, retained_all, ObjectSystem,
};

verus! {

/// Asks the permission query under `options`, the result of the options
/// factory, which the caller owns one count of. A null `options` fails with
/// `CouldNotCreateCFObject` and asks nothing; otherwise the answer is
/// returned and the collection is released once it is in.
pub fn permission_with_options<R: ObjectSystem>(rt: &mut R, options: u64) -> (r: Result<bool, WiseError>)
    requires
        old(rt).inv(),
        options != 0 ==> old(rt).counts().contains_key(options),
    ensures
        final(rt).inv(),
        options == 0 ==> r matches Err(WiseError::CouldNotCreateCFObject),
        options != 0 ==> r == Ok::<bool, WiseError>(old(rt).trusted()),
        options == 0 ==> final(rt).counts() == old(rt).counts(),
        options == 0 ==> final(rt).trust_queries() == old(rt).trust_queries(),
        options != 0 ==> final(rt).counts() == released(old(rt).counts(), options),
        options != 0 ==> final(rt).trust_queries() == old(rt).trust_queries() + 1,
        final(rt).arrays() == old(rt).arrays(),
{
    let handle: Rc<Dictionary> = match Rc::new_const(options) {
        Some(h) => h,
        None => {
            return Err(WiseError::CouldNotCreateCFObject);
        },
    };
    let trusted = rt.is_trusted(handle.get());
    handle.release(rt);
    Ok(trusted)
}

/// Whether this process holds the accessibility permission.
///
/// Builds the options collection, asks the query once with it, returns the
/// answer, and releases the collection: the counts of the system come out as
/// they went in. Fails with `CouldNotCreateCFObject`, without asking, when
/// the factory gives null. A `false` answer is `Ok(false)`, not an error.
pub fn has_accessibility_permissions<R: ObjectSystem>(rt: &mut R) -> (r: Result<bool, WiseError>)
    requires
        old(rt).inv(),
    ensures
        final(rt).inv(),
        old(rt).options_fails() ==> r matches Err(WiseError::CouldNotCreateCFObject),
        !old(rt).options_fails() ==> r == Ok::<bool, WiseError>(old(rt).trusted()),
        final(rt).counts() == old(rt).counts(),
        final(rt).arrays() == old(rt).arrays(),
        old(rt).options_fails() ==> final(rt).trust_queries() == old(rt).trust_queries(),
        !old(rt).options_fails() ==> final(rt).trust_queries() == old(rt).trust_queries() + 1,
{
    let options = rt.create_options();
    let ghost made = rt.counts();
    let r = permission_with_options(rt, options);
    proof {
        if options != 0 {
            assert(released(made, options) =~= old(rt).counts());
        }
    }
    r
}

/// Releases every handle of `v`, last first, undoing the retains that made
/// them on top of `base`.
fn release_all<R: ObjectSystem>(rt: &mut R, v: Vec<Rc<Object>>, Ghost(base): Ghost<Map<u64, nat>>)
    requires
        old(rt).inv(),
        counts_ok(base),
        elements_live(base, Seq::new(v.len() as nat, |j: int| v[j]@)),
        old(rt).counts() == retained_all(base, Seq::new(v.len() as nat, |j: int| v[j]@)),
    ensures
        final(rt).inv(),
        final(rt).counts() == base,
        final(rt).arrays() == old(rt).arrays(),
        final(rt).trust_queries() == old(rt).trust_queries(),
{
    let mut v = v;
    while v.len() > 0
        invariant
            rt.inv(),
            counts_ok(base),
            elements_live(base, Seq::new(v.len() as nat, |j: int| v[j]@)),
            rt.counts() == retained_all(base, Seq::new(v.len() as nat, |j: int| v[j]@)),
            rt.arrays() == old(rt).arrays(),
            rt.trust_queries() == old(rt).trust_queries(),
        decreases v.len(),
    {
        let ghost views = Seq::new(v.len() as nat, |j: int| v[j]@);
        let h = v.pop().unwrap();
        proof {
            let rest = Seq::new(v.len() as nat, |j: int| v[j]@);
            assert(views.drop_last() =~= rest);
            assert(views.take(views.len() - 1) =~= rest);
            lemma_elements_live_parts(base, views, views.len() - 1);
            lemma_retained_all_grows(base, rest);
            lemma_clone_then_release(retained_all(base, rest), h@);
        }
        h.release(rt);
    }
    proof {
        assert(Seq::new(v.len() as nat, |j: int| v[j]@) =~= Seq::<u64>::empty());
    }
}

/// Takes one independent handle on each element of `array`, in order.
///
/// Each handle is made by a retain, so it stays valid after the array itself
/// is released. A null element fails with `UnexpectedNull`, and the handles
/// made before it are released: the counts are then as they were.
pub fn retain_elements<R: ObjectSystem>(rt: &mut R, array: u64) -> (r: Result<Vec<Rc<Object>>, WiseError>)
    requires
        old(rt).inv(),
        old(rt).counts().contains_key(array),
        old(rt).arrays().contains_key(array),
        live_or_null(old(rt).counts(), old(rt).arrays()[array]),
        retain_room(old(rt).counts(), old(rt).arrays()[array]),
    ensures
        final(rt).inv(),
        r is Err <==> old(rt).arrays()[array].contains(0),
        r is Err ==> r matches Err(WiseError::UnexpectedNull),
        r is Err ==> final(rt).counts() == old(rt).counts(),
        r matches Ok(v) ==> v.len() == old(rt).arrays()[array].len(),
        r matches Ok(v) ==> forall|i: int|
            0 <= i < v.len() ==> (#[trigger] v[i])@ == old(rt).arrays()[array][i],
        r is Ok ==> final(rt).counts() == retained_all(old(rt).counts(), old(rt).arrays()[array]),
        final(rt).arrays() == old(rt).arrays(),
        final(rt).trust_queries() == old(rt).trust_queries(),
{
    let ghost base = rt.counts();
    let ghost items = rt.arrays()[array];
    proof {
        rt.lemma_inv_counts();
    }
    let n = rt.array_len(array);
    let mut v: Vec<Rc<Object>> = Vec::new();
    let mut i: usize = 0;
    while i < n
        invariant
            rt.inv(),
            0 <= i <= n,
            n == items.len(),
            items == rt.arrays()[array],
            rt.arrays() == old(rt).arrays(),
            rt.trust_queries() == old(rt).trust_queries(),
            base == old(rt).counts(),
            counts_ok(base),
            base.contains_key(array),
            rt.counts().contains_key(array),
            rt.arrays().contains_key(array),
            live_or_null(base, items),
            retain_room(base, items),
            forall|j: int| 0 <= j < i ==> #[trigger] items[j] != 0,
            rt.counts() == retained_all(base, items.take(i as int)),
            v.len() == i,
            forall|j: int| 0 <= j < i ==> (#[trigger] v[j])@ == items[j],
        decreases n - i,
    {
        let e = rt.array_get(array, i);
        let ghost done = items.take(i as int);
        proof {
            assert(elements_live(base, done)) by {
                assert forall|j: int| 0 <= j < done.len() implies #[trigger] done[j] != 0
                    && base.contains_key(done[j]) by {
                    assert(done[j] == items[j]);
                }
            }
            lemma_retained_all_grows(base, done);
        }
        if e == 0 {
            proof {
                assert(Seq::new(v.len() as nat, |j: int| v[j]@) =~= done);
            }
            release_all(rt, v, Ghost(base));
            return Err(WiseError::UnexpectedNull);
        }
        proof {
            lemma_retained_all_bound(base, done);
        }
        let h: Rc<Object> = e.acquire_shared(rt).unwrap();
        proof {
            assert(items.take(i as int + 1).drop_last() =~= done);
        }
        v.push(h);
        i = i + 1;
    }
    proof {
        assert(items.take(n as int) =~= items);
        assert(!items.contains(0));
    }
    Ok(v)
}

/// The running processes whose identifier is `bundle_id`, one handle each.
///
/// Makes a string holding `bundle_id` and looks it up once. The string and
/// the array made along the way are released before the return, whatever
/// the outcome. A null string fails with `CouldNotCreateCFObject`, a null
/// array or a null element with `UnexpectedNull`; a failure leaves the counts
/// as they were. Otherwise each element of the array, which may be none,
/// gets a handle with a unit of its own, so every handle stays valid after
/// the array is gone.
pub fn running_apps_with_bundle_id<R: ObjectSystem>(rt: &mut R, bundle_id: &str) -> (r: Result<
    Vec<Rc<Object>>,
    WiseError,
>)
    requires
        old(rt).inv(),
    ensures
        final(rt).inv(),
        final(rt).trust_queries() == old(rt).trust_queries(),
        old(rt).string_fails() <==> (r matches Err(WiseError::CouldNotCreateCFObject)),
        !old(rt).string_fails() && old(rt).lookup(bundle_id@) is None ==> (r matches Err(
            WiseError::UnexpectedNull,
        )),
        !old(rt).string_fails() ==> (old(rt).lookup(bundle_id@) matches Some(items) ==> {
            &&& items.contains(0) ==> (r matches Err(WiseError::UnexpectedNull))
            &&& !items.contains(0) ==> r is Ok
        }),
        r is Err ==> final(rt).counts() == old(rt).counts(),
        r matches Ok(v) ==> {
            let items = old(rt).lookup(bundle_id@)->Some_0;
            &&& old(rt).lookup(bundle_id@) is Some
            &&& v.len() == items.len()
            &&& forall|i: int| 0 <= i < v.len() ==> (#[trigger] v[i])@ == items[i]
            &&& forall|i: int| 0 <= i < v.len() ==> old(rt).counts().contains_key((#[trigger] v[i])@)
            &&& forall|i: int| 0 <= i < v.len() ==> final(rt).counts().contains_key((#[trigger] v[i])@)
            &&& final(rt).counts() == retained_all(old(rt).counts(), items)
        },
{
    let s = rt.create_string(bundle_id);
    let text: Rc<Object> = match s.acquire_owned() {
        Some(h) => h,
        None => {
            return Err(WiseError::CouldNotCreateCFObject);
        },
    };
    let ghost c0 = old(rt).counts();
    let ghost c1 = rt.counts();
    let ghost found = rt.lookup(rt.text_of(s));
    assert(found == old(rt).lookup(bundle_id@));
    let a = rt.running_apps(text.get());
    let array: Rc<Object> = match a.acquire_owned() {
        Some(h) => h,
        None => {
            text.release(rt);
            proof {
                assert(rt.counts() =~= c0);
            }
            return Err(WiseError::UnexpectedNull);
        },
    };
    let ghost items = found->Some_0;
    let ghost c2 = rt.counts();
    proof {
        assert forall|i: int| 0 <= i < items.len() && #[trigger] items[i] != 0 implies c2.contains_key(
            items[i],
        ) && c2[items[i]] == c1[items[i]] && items[i] != a by {}
    }
    let r = retain_elements(rt, array.get());
    match r {
        Err(e) => {
            array.release(rt);
            text.release(rt);
            proof {
                assert(rt.counts() =~= c0);
            }
            Err(e)
        },
        Ok(v) => {
            proof {
                assert(elements_live(c0, items)) by {
                    assert forall|i: int| 0 <= i < items.len() implies #[trigger] items[i] != 0
                        && c0.contains_key(items[i]) by {
                        if items[i] == 0 {
                            assert(items.contains(0));
                        }
                        assert(items[i] != s);
                    }
                }
                assert forall|i: int| 0 <= i < items.len() implies #[trigger] items[i] != s by {}
                assert forall|i: int| 0 <= i < items.len() implies #[trigger] items[i] != a by {
                    assert(c0.contains_key(items[i]));
                }
                lemma_retained_all_insert(c0, items, s, 1);
                lemma_retained_all_insert(c0.insert(s, 1), items, a, 1);
                lemma_retained_all_grows(c0, items);
                lemma_retained_all_each(c0, items);
            }
            array.release(rt);
            text.release(rt);
            proof {
                assert(rt.counts() =~= retained_all(c0, items));
            }
            Ok(v)
        },
    }
}

} // verus!
