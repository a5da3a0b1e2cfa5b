//! An ordered set of objects.
//!
//! This is the container used by every object that references multiple
//! objects of the same kind. It holds no two handles with the same identity,
//! and it maintains the insertion order of its elements, which encodes loop
//! winding order. Indexing is circular where closed loops are modelled.

use vstd::prelude::*;
use itertools::Itertools;
use crate::storage::Handle;

verus! {

/// Whether no two handles of the sequence share an identity.
pub open spec fn distinct_ids<T>(s: Seq<Handle<T>>) -> bool {
    forall|i: int, j: int| 0 <= i < j < s.len() ==> s[i].spec_id() != s[j].spec_id()
}

/// Whether some handle of the sequence has the identity `id`.
pub open spec fn contains_id<T>(s: Seq<Handle<T>>, id: u64) -> bool {
    exists|i: int| 0 <= i < s.len() && s[i].spec_id() == id
}

/// The first position whose handle has the identity `id`; meaningful only
/// when such a handle is present.
pub open spec fn first_index_of_id<T>(s: Seq<Handle<T>>, id: u64) -> int
    decreases s.len(),
{
    if s.len() == 0 {
        0
    } else if s[0].spec_id() == id {
        0
    } else {
        1 + first_index_of_id(s.subrange(1, s.len() as int), id)
    }
}

/// The sequence with the first handle of identity `id` excised and `repl`
/// spliced in at its position; meaningful only when `id` is present.
pub open spec fn spliced<T>(s: Seq<Handle<T>>, id: u64, repl: Seq<Handle<T>>) -> Seq<Handle<T>> {
    let i = first_index_of_id(s, id);
    s.subrange(0, i) + repl + s.subrange(i + 1, s.len() as int)
}

/// When `id` is present, `first_index_of_id` names a valid position, that
/// position carries `id`, and no earlier position does.
pub proof fn lemma_first_index_of_id<T>(s: Seq<Handle<T>>, id: u64)
    requires
        contains_id(s, id),
    ensures
        0 <= first_index_of_id(s, id) < s.len(),
        s[first_index_of_id(s, id)].spec_id() == id,
        forall|j: int| 0 <= j < first_index_of_id(s, id) ==> s[j].spec_id() != id,
    decreases s.len(),
{
    if s.len() == 0 {
    } else if s[0].spec_id() == id {
    } else {
        let tail = s.subrange(1, s.len() as int);
        assert(contains_id(tail, id)) by {
            let i = choose|i: int| 0 <= i < s.len() && s[i].spec_id() == id;
            assert(tail[i - 1].spec_id() == id);
        }
        lemma_first_index_of_id(tail, id);
        assert forall|j: int| 0 <= j < first_index_of_id(s, id) implies s[j].spec_id() != id by {
            if j > 0 {
                assert(tail[j - 1].spec_id() != id);
            }
        }
    }
}

/// An immutable, duplicate-free, insertion-ordered set of handles.
#[derive(Debug)]
pub struct ObjectSet<T> {
    inner: Vec<Handle<T>>,
}

impl<T> View for ObjectSet<T> {
    type V = Seq<Handle<T>>;

    closed spec fn view(&self) -> Seq<Handle<T>> {
        self.inner@
    }
}

impl<T> ObjectSet<T> {
    /// The set's validity: no two elements share an identity. This holds of
    /// every set the library constructs.
    #[verifier::type_invariant]
    pub open spec fn inv(self) -> bool {
        distinct_ids(self@)
    }

    /// Create an `ObjectSet` from a sequence of handles.
    ///
    /// Passing two handles with the same identity is a caller error: the
    /// set never holds a duplicate identity.
    pub fn new(handles: Vec<Handle<T>>) -> (r: Self)
        requires
            distinct_ids(handles@),
        ensures
            r@ == handles@,
    {
        ObjectSet { inner: handles }
    }

    /// Return the number of objects in this set.
    pub fn len(&self) -> (r: usize)
        ensures
            r == self@.len(),
    {
        self.inner.len()
    }

    /// Indicate whether the set is empty.
    pub fn is_empty(&self) -> (r: bool)
        ensures
            r == (self@.len() == 0),
    {
        self.inner.len() == 0
    }

    /// Indicate whether the set contains a handle with the identity of the
    /// provided one.
    pub fn contains(&self, object: &Handle<T>) -> (r: bool)
        ensures
            r == contains_id(self@, object.spec_id()),
    {
        self.index_of(object).is_some()
    }

    /// Return the only item.
    ///
    /// Calling this on a set whose cardinality is not exactly one is a
    /// caller error.
    pub fn only(&self) -> (r: &Handle<T>)
        requires
            self@.len() == 1,
        ensures
            *r == self@[0],
    {
        &self.inner[0]
    }

    /// Return the first item.
    ///
    /// Calling this on an empty set is a caller error.
    pub fn first(&self) -> (r: &Handle<T>)
        requires
            self@.len() >= 1,
        ensures
            *r == self@[0],
    {
        &self.inner[0]
    }

    /// Return the n-th item, or nothing if the index is out of bounds.
    pub fn nth(&self, index: usize) -> (r: Option<&Handle<T>>)
        ensures
            match r {
                Some(h) => index < self@.len() && *h == self@[index as int],
                None => index >= self@.len(),
            },
    {
        if index < self.inner.len() {
            Some(&self.inner[index])
        } else {
            None
        }
    }

    /// Return the n-th item, treating the index space as circular: index
    /// `i` and index `i % len` retrieve the same element.
    ///
    /// Calling this on an empty set is a caller error.
    pub fn nth_circular(&self, index: usize) -> (r: &Handle<T>)
        requires
            self@.len() > 0,
        ensures
            *r == self@[index as int % self@.len() as int],
    {
        let index = index % self.inner.len();
        &self.inner[index]
    }

    /// Retrieving index `i` and index `i + len` circularly give the same
    /// element, for every integer `i`.
    pub proof fn lemma_nth_circular_wraps(&self, i: int)
        requires
            self@.len() > 0,
        ensures
            self@[i % self@.len() as int] == self@[(i + self@.len() as int) % self@.len() as int],
    {
        let n = self@.len() as int;
        vstd::arithmetic::div_mod::lemma_mod_add_multiples_vanish(i, n);
        assert((i + n) % n == (n + i) % n);
    }

    /// Return the index of the handle with the identity of the provided
    /// one, or nothing if no such handle is present.
    pub fn index_of(&self, handle: &Handle<T>) -> (r: Option<usize>)
        ensures
            match r {
                Some(i) => contains_id(self@, handle.spec_id())
                    && i as int == first_index_of_id(self@, handle.spec_id()),
                None => !contains_id(self@, handle.spec_id()),
            },
    {
        let id = handle.id();
        let n = self.inner.len();
        let mut i: usize = 0;
        while i < n
            invariant
                n == self@.len(),
                0 <= i <= n,
                forall|j: int| 0 <= j < i ==> self@[j].spec_id() != handle.spec_id(),
                id == handle.spec_id(),
            decreases n - i,
        {
            if self.inner[i].id() == id {
                proof {
                    lemma_first_index_of_id(self@, handle.spec_id());
                    let fi = first_index_of_id(self@, handle.spec_id());
                    if fi < i as int {
                        assert(self@[fi].spec_id() != handle.spec_id());
                    }
                }
                return Some(i);
            }
            i += 1;
        }
        None
    }

    /// Access the item after the provided one, in circular order.
    ///
    /// Returns nothing if the provided item is not in this set.
    pub fn after(&self, handle: &Handle<T>) -> (r: Option<&Handle<T>>)
        ensures
            match r {
                Some(h) => contains_id(self@, handle.spec_id())
                    && *h == self@[(first_index_of_id(self@, handle.spec_id()) + 1) % self@.len() as int],
                None => !contains_id(self@, handle.spec_id()),
            },
    {
        match self.index_of(handle) {
            Some(index) => {
                let n = self.inner.len();
                proof {
                    lemma_first_index_of_id(self@, handle.spec_id());
                }
                Some(self.nth_circular(index + 1))
            },
            None => None,
        }
    }

    /// Return the contained handles, in order.
    pub fn iter(&self) -> (r: Vec<Handle<T>>)
        ensures
            r@ == self@,
    {
        copy_handles(&self.inner)
    }

    /// Return the neighboring pairs of all contained objects, in circular
    /// order: each element is paired with its circular successor, so a
    /// non-empty set of `n` elements yields exactly `n` pairs and the last
    /// pair closes back on the first element.
    pub fn pairs(&self) -> (r: Vec<(Handle<T>, Handle<T>)>)
        ensures
            r@.len() == self@.len(),
            forall|i: int| 0 <= i < self@.len() ==> r@[i].0 == self@[i]
                && r@[i].1 == self@[(i + 1) % (self@.len() as int)],
    {
        circular_pairs(&self.inner)
    }

    /// Any sequence of pairs that `pairs` describes over a non-empty set
    /// closes the loop: the last pair's second element is the first pair's
    /// first element.
    pub proof fn lemma_pairs_closed(&self, r: Seq<(Handle<T>, Handle<T>)>)
        requires
            self@.len() > 0,
            r.len() == self@.len(),
            forall|i: int| 0 <= i < self@.len() ==> r[i].0 == self@[i]
                && r[i].1 == self@[(i + 1) % (self@.len() as int)],
        ensures
            r[r.len() - 1].1 == r[0].0,
    {
        let n = self@.len() as int;
        vstd::arithmetic::div_mod::lemma_mod_self_0(n);
    }

    /// Create a new set in which the first handle with the identity of
    /// `original` has been excised and `replacements` spliced in at its
    /// position, preserving the relative order of everything before and
    /// after. The receiver is untouched.
    ///
    /// Returns nothing if `original` is not present, whatever the
    /// replacements are. Producing a duplicate identity by the splice is a
    /// caller error.
    pub fn replace(&self, original: &Handle<T>, replacements: &[Handle<T>]) -> (r: Option<Self>)
        requires
            contains_id(self@, original.spec_id())
                ==> distinct_ids(spliced(self@, original.spec_id(), replacements@)),
        ensures
            match r {
                Some(s) => contains_id(self@, original.spec_id())
                    && s@ == spliced(self@, original.spec_id(), replacements@),
                None => !contains_id(self@, original.spec_id()),
            },
    {
        let idx = match self.index_of(original) {
            Some(i) => i,
            None => {
                return None;
            },
        };
        proof {
            lemma_first_index_of_id(self@, original.spec_id());
        }
        let mut out: Vec<Handle<T>> = Vec::new();
        let mut k: usize = 0;
        while k < idx
            invariant
                idx < self@.len(),
                0 <= k <= idx,
                out@ == self@.subrange(0, k as int),
            decreases idx - k,
        {
            out.push(self.inner[k]);
            proof {
                assert(out@ =~= self@.subrange(0, k + 1 as int));
            }
            k += 1;
        }
        let mut k2: usize = 0;
        while k2 < replacements.len()
            invariant
                idx < self@.len(),
                0 <= k2 <= replacements@.len(),
                out@ == self@.subrange(0, idx as int) + replacements@.subrange(0, k2 as int),
            decreases replacements@.len() - k2,
        {
            out.push(replacements[k2]);
            proof {
                assert(out@ =~= self@.subrange(0, idx as int)
                    + replacements@.subrange(0, k2 + 1 as int));
            }
            k2 += 1;
        }
        let n = self.inner.len();
        let mut k3: usize = idx + 1;
        while k3 < n
            invariant
                n == self@.len(),
                idx < n,
                idx + 1 <= k3 <= n,
                out@ == self@.subrange(0, idx as int) + replacements@
                    + self@.subrange(idx + 1 as int, k3 as int),
            decreases n - k3,
        {
            out.push(self.inner[k3]);
            proof {
                assert(out@ =~= self@.subrange(0, idx as int) + replacements@
                    + self@.subrange(idx + 1 as int, k3 + 1 as int));
            }
            k3 += 1;
        }
        proof {
            assert(replacements@.subrange(0, replacements@.len() as int) =~= replacements@);
            assert(out@ =~= spliced(self@, original.spec_id(), replacements@));
        }
        Some(ObjectSet { inner: out })
    }

    /// Splicing an empty replacement for a present identity shortens the
    /// set by one and removes that identity.
    pub proof fn lemma_replace_removes(&self, id: u64)
        requires
            self.inv(),
            contains_id(self@, id),
        ensures
            spliced(self@, id, Seq::<Handle<T>>::empty()).len() == self@.len() - 1,
            !contains_id(spliced(self@, id, Seq::<Handle<T>>::empty()), id),
    {
        lemma_first_index_of_id(self@, id);
        let fi = first_index_of_id(self@, id);
        let s = spliced(self@, id, Seq::<Handle<T>>::empty());
        assert forall|i: int| 0 <= i < s.len() implies s[i].spec_id() != id by {
            if i < fi {
                assert(s[i] == self@[i]);
            } else {
                assert(s[i] == self@[i + 1]);
            }
        }
    }

    /// Splicing a single replacement for a present identity preserves the
    /// length and puts the replacement at the replaced handle's position.
    pub proof fn lemma_replace_single(&self, id: u64, replacement: Handle<T>)
        requires
            contains_id(self@, id),
        ensures
            spliced(self@, id, seq![replacement]).len() == self@.len(),
            spliced(self@, id, seq![replacement])[first_index_of_id(self@, id)] == replacement,
    {
        lemma_first_index_of_id(self@, id);
    }
}

impl<T> Clone for ObjectSet<T> {
    fn clone(&self) -> (r: Self)
        ensures
            r@ == self@,
    {
        proof {
            use_type_invariant(self);
        }
        let inner = copy_handles(&self.inner);
        ObjectSet { inner }
    }
}

/// Copy a vector of handles, element for element.
fn copy_handles<T>(v: &Vec<Handle<T>>) -> (r: Vec<Handle<T>>)
    ensures
        r@ == v@,
{
    let mut out: Vec<Handle<T>> = Vec::new();
    let n = v.len();
    let mut i: usize = 0;
    while i < n
        invariant
            n == v@.len(),
            0 <= i <= n,
            out@ == v@.subrange(0, i as int),
        decreases n - i,
    {
        out.push(v[i]);
        proof {
            assert(out@ =~= v@.subrange(0, i + 1 as int));
        }
        i += 1;
    }
    proof {
        assert(out@ =~= v@);
    }
    out
}

/// Relies on itertools' `circular_tuple_windows`: over a sequence of length
/// `n` it yields exactly `n` two-element windows, wrapping back to the first
/// element, so window `i` pairs element `i` with element `(i + 1) % n`.
#[verifier::external_body]
fn circular_pairs<T>(handles: &Vec<Handle<T>>) -> (r: Vec<(Handle<T>, Handle<T>)>)
    ensures
        r@.len() == handles@.len(),
        forall|i: int| 0 <= i < handles@.len() ==> r@[i].0 == handles@[i]
            && r@[i].1 == handles@[(i + 1) % (handles@.len() as int)],
{
    handles.iter().cloned().circular_tuple_windows().collect()
}

} // verus!
