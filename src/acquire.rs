use vstd::prelude::*;

use crate::handle::{Rc, Retainable};
use crate::system::{can_retain, retained, ObjectSystem};

verus! {

/// The two ways of turning a raw reference into an [`Rc`].
///
/// `acquire_owned` is for a reference the caller already owns one count of,
/// such as the fresh result of a constructor: it retains nothing.
/// `acquire_shared` is for a reference that another owner holds, such as an
/// element of a collection: it retains once, so that the new handle outlives
/// that owner. Using the first on a borrowed reference would release it
/// twice; using the second on a fresh one would leak it.
pub trait ManageWithRc: Sized {
    /// The raw reference that `self` carries.
    spec fn raw(&self) -> u64;

    fn acquire_owned<T: Retainable>(self) -> (r: Option<Rc<T>>)
        ensures
            self.raw() == 0 <==> r is None,
            r matches Some(h) ==> h@ == self.raw(),
    ;

    fn acquire_shared<T: Retainable, R: ObjectSystem>(&self, rt: &mut R) -> (r: Option<Rc<T>>)
        requires
            old(rt).inv(),
            self.raw() != 0 ==> can_retain(old(rt).counts(), self.raw()),
        ensures
            final(rt).inv(),
            self.raw() == 0 <==> r is None,
            r matches Some(h) ==> h@ == self.raw(),
            self.raw() == 0 ==> final(rt).counts() == old(rt).counts(),
            self.raw() != 0 ==> final(rt).counts() == retained(old(rt).counts(), self.raw()),
            final(rt).arrays() == old(rt).arrays(),
            final(rt).trust_queries() == old(rt).trust_queries(),
    ;
}

impl ManageWithRc for u64 {
    open spec fn raw(&self) -> u64 {
        *self
    }

    fn acquire_owned<T: Retainable>(self) -> (r: Option<Rc<T>>) {
        Rc::new_mut(self)
    }

    fn acquire_shared<T: Retainable, R: ObjectSystem>(&self, rt: &mut R) -> (r: Option<Rc<T>>) {
        let r = Rc::new_mut(*self);
        if r.is_some() {
            rt.retain(*self);
        }
        r
    }
}

} // verus!
