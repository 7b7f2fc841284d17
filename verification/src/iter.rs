//! Lazy double-ended traversals of the live chain.
//!
//! Each traversal keeps a front cursor and a back cursor over the chain
//! links and may be stepped from either end until the cursors meet. The
//! ghost bounds `lo`/`hi` locate the cursors inside the list's handle
//! sequence, so what remains to be yielded is always the view's subrange
//! `[lo, hi)`.

use crate::Slot;
use crate::VecList;
use vstd::pervasive::unreached;
use vstd::prelude::*;

verus! {

broadcast use crate::VecList::lemma_value_update, crate::lemma_update_outside_subrange;

/// Read-only double-ended traversal borrowing the list.
pub struct Iter<'a, T> {
    list: &'a VecList<T>,
    next: Option<usize>,
    prev: Option<usize>,
    lo: Ghost<int>,
    hi: Ghost<int>,
}

impl<'a, T> Iter<'a, T> {
    /// The list this traversal reads.
    pub closed spec fn list_spec(&self) -> VecList<T> {
        *self.list
    }

    /// The values not yet yielded, front to back.
    pub closed spec fn remaining(&self) -> Seq<T> {
        self.list@.subrange(self.lo@, self.hi@)
    }

    /// The cursors sit on the ends of the unyielded subrange of the chain.
    pub closed spec fn wf(&self) -> bool {
        &&& self.list.wf()
        &&& 0 <= self.lo@ <= self.hi@ <= self.list.handles().len()
        &&& self.next == (if self.lo@ < self.hi@ {
            Some(self.list.handles()[self.lo@])
        } else {
            None::<usize>
        })
        &&& self.prev == (if self.lo@ < self.hi@ {
            Some(self.list.handles()[self.hi@ - 1])
        } else {
            None::<usize>
        })
    }

    /// Yield the front-most unyielded value, stepping the front cursor
    /// forward; `None` once the cursors have met. O(1).
    pub fn next(&mut self) -> (r: Option<&'a T>)
        requires
            old(self).wf(),
        ensures
            final(self).wf(),
            final(self).list_spec() == old(self).list_spec(),
            old(self).remaining().len() == 0 ==> r is None && final(self).remaining() == old(self).remaining(),
            old(self).remaining().len() > 0 ==> (r matches Some(v) && *v == old(self).remaining()[0]
                && final(self).remaining() == old(self).remaining().drop_first()),
    {
        let lst = self.list;
        let cur = match self.next {
            Some(c) => c,
            None => {
                return None;
            },
        };
        proof {
            assert(lst.live_slot_ok(self.lo@));
            assert(lst.live_slot_ok(self.hi@ - 1));
        }
        let last_one = match self.prev {
            Some(p) => p == cur,
            None => unreached(),
        };
        let r = match &lst.slots[cur] {
            Slot::Value { val, next, .. } => {
                if last_one {
                    self.next = None;
                    self.prev = None;
                } else {
                    self.next = *next;
                }
                Some(val)
            },
            Slot::Deleted { .. } => unreached(),
        };
        proof {
            self.lo@ = self.lo@ + 1;
            if self.lo@ < self.hi@ {
                assert(lst.live_slot_ok(self.lo@));
            }
            assert(final(self).remaining() =~= old(self).remaining().drop_first());
        }
        r
    }

    /// Yield the back-most unyielded value, stepping the back cursor
    /// backward; `None` once the cursors have met. O(1).
    pub fn next_back(&mut self) -> (r: Option<&'a T>)
        requires
            old(self).wf(),
        ensures
            final(self).wf(),
            final(self).list_spec() == old(self).list_spec(),
            old(self).remaining().len() == 0 ==> r is None && final(self).remaining() == old(self).remaining(),
            old(self).remaining().len() > 0 ==> (r matches Some(v) && *v == old(self).remaining().last()
                && final(self).remaining() == old(self).remaining().drop_last()),
    {
        let lst = self.list;
        let cur = match self.prev {
            Some(c) => c,
            None => {
                return None;
            },
        };
        proof {
            assert(lst.live_slot_ok(self.lo@));
            assert(lst.live_slot_ok(self.hi@ - 1));
        }
        let last_one = match self.next {
            Some(p) => p == cur,
            None => unreached(),
        };
        let r = match &lst.slots[cur] {
            Slot::Value { val, prev, .. } => {
                if last_one {
                    self.next = None;
                    self.prev = None;
                } else {
                    self.prev = *prev;
                }
                Some(val)
            },
            Slot::Deleted { .. } => unreached(),
        };
        proof {
            self.hi@ = self.hi@ - 1;
            if self.lo@ < self.hi@ {
                assert(lst.live_slot_ok(self.hi@ - 1));
            }
            assert(final(self).remaining() =~= old(self).remaining().drop_last());
        }
        r
    }
}

/// Cursor for a double-ended traversal that may mutate the values it visits.
///
/// The cursor holds no borrow of its own; each step takes the list anew, and
/// its contract requires the list not to have been restructured since the
/// cursor was made.
pub struct IterMut {
    next: Option<usize>,
    prev: Option<usize>,
    lo: Ghost<int>,
    hi: Ghost<int>,
}

impl IterMut {
    /// The chain positions not yet visited.
    pub closed spec fn lo_spec(&self) -> int {
        self.lo@
    }

    /// One past the last unvisited chain position.
    pub closed spec fn hi_spec(&self) -> int {
        self.hi@
    }

    /// The values of `list` not yet yielded, front to back.
    pub closed spec fn remaining<T>(&self, list: VecList<T>) -> Seq<T> {
        list@.subrange(self.lo@, self.hi@)
    }

    /// The cursors sit on the ends of the unvisited subrange of `list`'s
    /// chain.
    pub closed spec fn wf<T>(&self, list: VecList<T>) -> bool {
        &&& list.wf()
        &&& 0 <= self.lo@ <= self.hi@ <= list.handles().len()
        &&& self.next == (if self.lo@ < self.hi@ {
            Some(list.handles()[self.lo@])
        } else {
            None::<usize>
        })
        &&& self.prev == (if self.lo@ < self.hi@ {
            Some(list.handles()[self.hi@ - 1])
        } else {
            None::<usize>
        })
    }

    /// Mutably yield the front-most unvisited value of `list`, stepping the
    /// front cursor forward; `None` once the cursors have met. O(1).
    pub fn next<'a, T>(&mut self, list: &'a mut VecList<T>) -> (r: Option<&'a mut T>)
        requires
            old(self).wf(*old(list)),
        ensures
            old(self).remaining(*old(list)).len() == 0 ==> r is None && *final(list) == *old(list)
                && *final(self) == *old(self) && final(self).remaining(*final(list)) == old(
                self,
            ).remaining(*old(list)),
            old(self).remaining(*old(list)).len() == 0 ==> final(self).wf(*final(list)),
            old(self).remaining(*old(list)).len() > 0 ==> final(self).lo_spec() == old(
                self,
            ).lo_spec() + 1 && final(self).hi_spec() == old(self).hi_spec(),
            old(self).remaining(*old(list)).len() > 0 ==> (r matches Some(v)
                && *v == old(self).remaining(*old(list))[0]
                && VecList::value_update(
                    *old(list),
                    *final(list),
                    old(list).handles()[old(self).lo_spec()],
                    *final(v),
                )),
            r matches Some(v) && old(self).remaining(*old(list)).len() > 0
                && VecList::value_update(
                *old(list),
                *final(list),
                old(list).handles()[old(self).lo_spec()],
                *final(v),
            ) ==> (final(list)@ == old(list)@.update(
                old(self).lo_spec(),
                final(list).value_at(old(list).handles()[old(self).lo_spec()]),
            )
                && final(self).remaining(*final(list))
                    == old(self).remaining(*old(list)).drop_first()
                && final(self).wf(*final(list))
                && final(list).wf()
                && final(list).handles() == old(list).handles()
                && final(list).free_handles() == old(list).free_handles()
                && final(list).spec_cap() == old(list).spec_cap()),
    {
        let ghost pre_list = *list;
        let ghost lo0 = self.lo@;
        let ghost hi0 = self.hi@;
        let cur = match self.next {
            Some(c) => c,
            None => {
                return None;
            },
        };
        proof {
            assert(pre_list.live_slot_ok(lo0));
            assert(pre_list.live_slot_ok(hi0 - 1));
        }
        let last_one = match self.prev {
            Some(p) => p == cur,
            None => unreached(),
        };
        let link = match &list.slots[cur] {
            Slot::Value { next, .. } => *next,
            Slot::Deleted { .. } => unreached(),
        };
        if last_one {
            self.next = None;
            self.prev = None;
        } else {
            self.next = link;
        }
        proof {
            self.lo@ = lo0 + 1;
            if self.lo@ < self.hi@ {
                assert(pre_list.live_slot_ok(self.lo@));
            }
            assert(pre_list.order@[lo0] == cur);
            assert(pre_list.order@.contains(cur));
            let q = pre_list.order@.index_of(cur);
            assert(0 <= q < pre_list.order@.len() && pre_list.order@[q] == cur);
            assert(q == lo0);
            assert(pre_list@.subrange(lo0, hi0)[0] == pre_list@[lo0]);
            assert(pre_list@.subrange(lo0 + 1, hi0) =~= pre_list@.subrange(
                lo0,
                hi0,
            ).drop_first());
        }
        match &mut list.slots[cur] {
            Slot::Value { val, .. } => Some(val),
            Slot::Deleted { .. } => unreached(),
        }
    }

    /// Mutably yield the back-most unvisited value of `list`, stepping the
    /// back cursor backward; `None` once the cursors have met. O(1).
    pub fn next_back<'a, T>(&mut self, list: &'a mut VecList<T>) -> (r: Option<&'a mut T>)
        requires
            old(self).wf(*old(list)),
        ensures
            old(self).remaining(*old(list)).len() == 0 ==> r is None && *final(list) == *old(list)
                && *final(self) == *old(self) && final(self).remaining(*final(list)) == old(
                self,
            ).remaining(*old(list)),
            old(self).remaining(*old(list)).len() == 0 ==> final(self).wf(*final(list)),
            old(self).remaining(*old(list)).len() > 0 ==> final(self).hi_spec() == old(
                self,
            ).hi_spec() - 1 && final(self).lo_spec() == old(self).lo_spec(),
            old(self).remaining(*old(list)).len() > 0 ==> (r matches Some(v)
                && *v == old(self).remaining(*old(list)).last()
                && VecList::value_update(
                    *old(list),
                    *final(list),
                    old(list).handles()[old(self).hi_spec() - 1],
                    *final(v),
                )),
            r matches Some(v) && old(self).remaining(*old(list)).len() > 0
                && VecList::value_update(
                *old(list),
                *final(list),
                old(list).handles()[old(self).hi_spec() - 1],
                *final(v),
            ) ==> (final(list)@ == old(list)@.update(
                old(self).hi_spec() - 1,
                final(list).value_at(old(list).handles()[old(self).hi_spec() - 1]),
            )
                && final(self).remaining(*final(list))
                    == old(self).remaining(*old(list)).drop_last()
                && final(self).wf(*final(list))
                && final(list).wf()
                && final(list).handles() == old(list).handles()
                && final(list).free_handles() == old(list).free_handles()
                && final(list).spec_cap() == old(list).spec_cap()),
    {
        let ghost pre_list = *list;
        let ghost lo0 = self.lo@;
        let ghost hi0 = self.hi@;
        let cur = match self.prev {
            Some(c) => c,
            None => {
                return None;
            },
        };
        proof {
            assert(pre_list.live_slot_ok(lo0));
            assert(pre_list.live_slot_ok(hi0 - 1));
        }
        let last_one = match self.next {
            Some(p) => p == cur,
            None => unreached(),
        };
        let link = match &list.slots[cur] {
            Slot::Value { prev, .. } => *prev,
            Slot::Deleted { .. } => unreached(),
        };
        if last_one {
            self.next = None;
            self.prev = None;
        } else {
            self.prev = link;
        }
        proof {
            self.hi@ = hi0 - 1;
            if self.lo@ < self.hi@ {
                assert(pre_list.live_slot_ok(self.hi@ - 1));
            }
            assert(pre_list.order@[hi0 - 1] == cur);
            assert(pre_list.order@.contains(cur));
            let q = pre_list.order@.index_of(cur);
            assert(0 <= q < pre_list.order@.len() && pre_list.order@[q] == cur);
            assert(q == hi0 - 1);
            assert(pre_list@.subrange(lo0, hi0).last() == pre_list@[hi0 - 1]);
            assert(pre_list@.subrange(lo0, hi0 - 1) =~= pre_list@.subrange(
                lo0,
                hi0,
            ).drop_last());
        }
        match &mut list.slots[cur] {
            Slot::Value { val, .. } => Some(val),
            Slot::Deleted { .. } => unreached(),
        }
    }
}

/// Consuming double-ended traversal: owns the list and pops from its ends.
pub struct IntoIter<T> {
    list: VecList<T>,
}

impl<T> IntoIter<T> {
    /// The owned list is well formed.
    pub closed spec fn wf(&self) -> bool {
        self.list.wf()
    }

    /// The values not yet yielded, front to back.
    pub closed spec fn remaining(&self) -> Seq<T> {
        self.list@
    }

    /// Yield and remove the front-most remaining value. O(1).
    pub fn next(&mut self) -> (r: Option<T>)
        requires
            old(self).wf(),
        ensures
            final(self).wf(),
            old(self).remaining().len() == 0 ==> r is None && final(self).remaining() == old(self).remaining(),
            old(self).remaining().len() > 0 ==> r == Some(old(self).remaining()[0]) && final(self).remaining() == old(self).remaining().drop_first(),
    {
        self.list.pop_front()
    }

    /// Yield and remove the back-most remaining value. O(1).
    pub fn next_back(&mut self) -> (r: Option<T>)
        requires
            old(self).wf(),
        ensures
            final(self).wf(),
            old(self).remaining().len() == 0 ==> r is None && final(self).remaining() == old(self).remaining(),
            old(self).remaining().len() > 0 ==> r == Some(old(self).remaining().last()) && final(self).remaining() == old(self).remaining().drop_last(),
    {
        self.list.pop_back()
    }
}

impl<T> VecList<T> {
    /// A read-only traversal of the whole list, front and back cursors at the
    /// ends.
    pub fn iter(&self) -> (it: Iter<'_, T>)
        requires
            self.wf(),
        ensures
            it.wf(),
            it.list_spec() == *self,
            it.remaining() == self@,
    {
        let it = Iter {
            list: self,
            next: self.head,
            prev: self.tail,
            lo: Ghost(0),
            hi: Ghost(self.order@.len() as int),
        };
        proof {
            assert(it.remaining() =~= self@);
        }
        it
    }

    /// A cursor for mutable traversal of the whole list; each step takes the
    /// list itself.
    pub fn iter_mut(&self) -> (it: IterMut)
        requires
            self.wf(),
        ensures
            it.wf(*self),
            it.remaining(*self) == self@,
            it.lo_spec() == 0,
            it.hi_spec() == self@.len(),
    {
        let it = IterMut {
            next: self.head,
            prev: self.tail,
            lo: Ghost(0),
            hi: Ghost(self.order@.len() as int),
        };
        proof {
            assert(it.remaining(*self) =~= self@);
        }
        it
    }

    /// A consuming traversal that takes ownership of the list.
    pub fn into_iter(self) -> (it: IntoIter<T>)
        requires
            self.wf(),
        ensures
            it.wf(),
            it.remaining() == self@,
    {
        IntoIter { list: self }
    }
}

} // verus!

