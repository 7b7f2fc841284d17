//! A fixed-capacity wrapper around [`VecList`] that evicts when full.
//!
//! While fewer than `cap` elements are held, `add` appends at the back. Once
//! the list is full, `add` removes the back element and inserts the new value
//! at the front, so the newest element becomes the head and the previous back
//! element is discarded.

use crate::Iter;
use crate::VecList;
use vstd::prelude::*;

verus! {

/// Bounded list: delegates to a [`VecList`] and enforces the eviction policy
/// above. With a capacity of zero no eviction ever triggers after the first
/// insertion and the list simply grows.
pub struct BoundedList<T> {
    list: VecList<T>,
    cap: usize,
}

impl<T> BoundedList<T> {
    /// The held values, front to back.
    pub closed spec fn view(&self) -> Seq<T> {
        self.list@
    }

    /// The fixed capacity the wrapper was created with.
    pub closed spec fn cap_spec(&self) -> usize {
        self.cap
    }

    /// The inner list is well formed and, for a positive capacity, never
    /// holds more than `cap` elements.
    pub closed spec fn wf(&self) -> bool {
        &&& self.list.wf()
        &&& self.cap > 0 ==> self.list@.len() <= self.cap
    }

    /// A fresh, empty bounded list with capacity `cap`.
    pub fn new(cap: usize) -> (r: Self)
        ensures
            r.wf(),
            r@ == Seq::<T>::empty(),
            r.cap_spec() == cap,
    {
        BoundedList { cap, list: VecList::with_capacity(cap) }
    }

    /// Insert `val`: appended at the back while there is room; once full, the
    /// back element is evicted and `val` becomes the new front.
    pub fn add(&mut self, val: T)
        requires
            old(self).wf(),
            old(self)@.len() < usize::MAX,
        ensures
            final(self).wf(),
            final(self).cap_spec() == old(self).cap_spec(),
            old(self)@.len() == old(self).cap_spec() && old(self)@.len() > 0 ==> final(self)@
                == seq![val] + old(self)@.drop_last(),
            old(self)@.len() == old(self).cap_spec() && old(self)@.len() == 0 ==> final(self)@
                == seq![val],
            old(self)@.len() != old(self).cap_spec() ==> final(self)@ == old(self)@.push(val),
    {
        if self.list.len() == self.cap {
            self.list.pop_back();
            self.list.push_front(val);
        } else {
            self.list.push_back(val);
        }
    }

    /// Number of held values.
    pub fn len(&self) -> (r: usize)
        requires
            self.wf(),
        ensures
            r == self@.len(),
    {
        self.list.len()
    }

    /// Whether no value is held.
    pub fn is_empty(&self) -> (r: bool)
        requires
            self.wf(),
        ensures
            r <==> self@.len() == 0,
    {
        self.len() == 0
    }

    /// A read-only traversal of the held values, front to back.
    pub fn iter(&self) -> (it: Iter<'_, T>)
        requires
            self.wf(),
        ensures
            it.wf(),
            it.remaining() == self@,
    {
        self.list.iter()
    }
}

impl<T> Default for BoundedList<T> {
    /// The empty bounded list with capacity zero.
    fn default() -> (r: Self)
        ensures
            r.wf(),
            r@ == Seq::<T>::empty(),
            r.cap_spec() == 0,
    {
        Self::new(0)
    }
}

} // verus!
