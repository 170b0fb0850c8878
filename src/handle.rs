use std::marker::PhantomData;
use vstd::prelude::*;

use crate::system::{can_retain, released, retained, ObjectSystem};

verus! {

/// Pointee types whose allocations are counted by the external system.
/// Only these can stand behind an [`Rc`].
pub trait Retainable {

}

/// Any object of the external system.
pub struct Object;

/// A key / value collection of the external system.
pub struct Dictionary;

impl Retainable for Object {

}

impl Retainable for Dictionary {

}

/// One owner of an externally counted allocation.
///
/// Each `Rc` stands for one unit of the allocation's external count: it is
/// made either from a reference the caller already owns, or by a retain, and
/// gives its unit back with [`Rc::release`]. The reference is never null.
pub struct Rc<T: Retainable> {
    ptr: u64,
    mutable: bool,
    marker: PhantomData<T>,
}

impl<T: Retainable> View for Rc<T> {
    type V = u64;

    closed spec fn view(&self) -> u64 {
        self.ptr
    }
}

impl<T: Retainable> Rc<T> {
    #[verifier::type_invariant]
    closed spec fn non_null(&self) -> bool {
        self.ptr != 0
    }

    /// Whether the handle was made for a mutable pointee; advisory only.
    pub closed spec fn spec_is_mut(&self) -> bool {
        self.mutable
    }

    /// Wraps a reference whose count the caller owns, with no retain.
    /// Returns `None` when `pointer` is null.
    pub fn new_mut(pointer: u64) -> (r: Option<Self>)
        ensures
            pointer == 0 <==> r is None,
            r matches Some(h) ==> h@ == pointer && h.spec_is_mut(),
    {
        if pointer == 0 {
            None
        } else {
            Some(Rc { ptr: pointer, mutable: true, marker: PhantomData })
        }
    }

    /// Wraps a reference whose count the caller owns, for read-only use,
    /// with no retain. Returns `None` when `pointer` is null.
    pub fn new_const(pointer: u64) -> (r: Option<Self>)
        ensures
            pointer == 0 <==> r is None,
            r matches Some(h) ==> h@ == pointer && !h.spec_is_mut(),
    {
        if pointer == 0 {
            None
        } else {
            Some(Rc { ptr: pointer, mutable: false, marker: PhantomData })
        }
    }

    /// The underlying reference, for handing to the external system. It is
    /// valid only while this handle, or another owner of it, is alive.
    pub fn get(&self) -> (r: u64)
        ensures
            r == self@,
            r != 0,
    {
        proof {
            use_type_invariant(self);
        }
        self.ptr
    }

    /// Whether the handle was made for a mutable pointee.
    pub fn is_mut(&self) -> (b: bool)
        ensures
            b == self.spec_is_mut(),
    {
        self.mutable
    }

    /// The current external count of the allocation; changes nothing.
    pub fn strong_count<R: ObjectSystem>(&self, rt: &R) -> (c: u64)
        requires
            rt.inv(),
            rt.counts().contains_key(self@),
        ensures
            c as nat == rt.counts()[self@],
            c >= 1,
    {
        proof {
            rt.lemma_inv_counts();
        }
        rt.retain_count(self.ptr)
    }

    /// A new, independent owner of the same allocation: one retain.
    pub fn clone_in<R: ObjectSystem>(&self, rt: &mut R) -> (r: Self)
        requires
            old(rt).inv(),
            can_retain(old(rt).counts(), self@),
        ensures
            final(rt).inv(),
            r@ == self@,
            r.spec_is_mut() == self.spec_is_mut(),
            final(rt).counts() == retained(old(rt).counts(), self@),
            final(rt).arrays() == old(rt).arrays(),
            final(rt).trust_queries() == old(rt).trust_queries(),
    {
        proof {
            use_type_invariant(self);
        }
        rt.retain(self.ptr);
        Rc { ptr: self.ptr, mutable: self.mutable, marker: PhantomData }
    }

    /// Gives this owner's unit back: one release. The last release frees the
    /// allocation.
    pub fn release<R: ObjectSystem>(self, rt: &mut R)
        requires
            old(rt).inv(),
            old(rt).counts().contains_key(self@),
        ensures
            final(rt).inv(),
            final(rt).counts() == released(old(rt).counts(), self@),
            final(rt).arrays() == old(rt).arrays(),
            final(rt).trust_queries() == old(rt).trust_queries(),
    {
        rt.release(self.ptr);
    }
}

} // verus!
