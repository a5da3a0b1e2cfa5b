//! Identity handles and the canonical per-kind store.
//!
//! A [`Handle`] refers to an object by a stable identifier; two handles are
//! compared solely by identifier, never by the content of the objects they
//! refer to. A [`Store`] owns the objects of one kind and hands out handles;
//! once inserted, an object is immutable and keeps its identity for the
//! lifetime of the store.

use vstd::prelude::*;

verus! {

/// A shared, cloneable reference to an object of kind `T`, identified by a
/// stable identifier assigned by the [`Store`] that owns the object.
#[derive(Debug)]
pub struct Handle<T> {
    id: u64,
    kind: core::marker::PhantomData<T>,
}

impl<T> Handle<T> {
    /// The stable identifier of the referenced object.
    pub closed spec fn spec_id(&self) -> u64 {
        self.id
    }

    /// Return the stable identifier of the referenced object.
    pub fn id(&self) -> (r: u64)
        ensures
            r == self.spec_id(),
    {
        self.id
    }
}

impl<T> Clone for Handle<T> {
    fn clone(&self) -> (r: Self)
        ensures
            r == *self,
    {
        Handle { id: self.id, kind: self.kind }
    }
}

impl<T> Copy for Handle<T> {}

impl<T> PartialEq for Handle<T> {
    fn eq(&self, other: &Self) -> (r: bool) {
        self.id == other.id
    }
}

impl<T> vstd::std_specs::cmp::PartialEqSpecImpl for Handle<T> {
    open spec fn obeys_eq_spec() -> bool {
        true
    }

    open spec fn eq_spec(&self, other: &Self) -> bool {
        self.spec_id() == other.spec_id()
    }
}

/// A canonical store for objects of kind `T`: it owns every inserted object
/// and issues a [`Handle`] with a fresh identity for each insertion, so that
/// there is at most one canonical object per distinct identity within the
/// store's lifetime.
pub struct Store<T> {
    objects: Vec<T>,
}

impl<T> View for Store<T> {
    type V = Seq<T>;

    closed spec fn view(&self) -> Seq<T> {
        self.objects@
    }
}

impl<T> Store<T> {
    /// Create an empty store.
    pub fn new() -> (r: Self)
        ensures
            r@ == Seq::<T>::empty(),
    {
        Store { objects: Vec::new() }
    }

    /// The number of objects the store owns.
    pub fn len(&self) -> (r: usize)
        ensures
            r == self@.len(),
    {
        self.objects.len()
    }

    /// Insert an object, taking ownership of it, and return a handle with a
    /// fresh identity. The object is immutable from this point on.
    pub fn insert(&mut self, object: T) -> (h: Handle<T>)
        ensures
            final(self)@ == old(self)@.push(object),
            h.spec_id() == old(self)@.len(),
    {
        let id = self.objects.len() as u64;
        self.objects.push(object);
        Handle { id, kind: core::marker::PhantomData }
    }

    /// Borrow the object a handle refers to.
    pub fn get(&self, h: &Handle<T>) -> (r: &T)
        requires
            h.spec_id() < self@.len(),
        ensures
            *r == self@[h.spec_id() as int],
    {
        let n = self.objects.len();
        proof {
            assert(h.spec_id() < n);
        }
        &self.objects[h.id() as usize]
    }
}

} // verus!
