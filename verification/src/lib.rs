//! A doubly linked list stored in one growable arena of slots.
//!
//! Every element lives in a slot of a single `Vec`; the slot's position is the
//! element's *handle*, returned by the insertion that created it and stable
//! until the element is deleted. Occupied slots carry forward and backward
//! links forming the live chain; deleted slots are threaded into a LIFO free
//! stack and recycled by later insertions, so insertion, removal by handle and
//! neighbour traversal are all O(1) without per-node allocation.

mod bounded;
mod iter;
pub mod laws;

pub use bounded::BoundedList;
pub use iter::IntoIter;
pub use iter::Iter;
pub use iter::IterMut;

use vstd::pervasive::unreached;
use vstd::pervasive::VecAdditionalExecFns;
use vstd::prelude::*;

verus! {

/// One arena position: either an occupied member of the live chain or a
/// deleted slot whose `prev` field is reused as the link to the next-older
/// entry of the free stack.
enum Slot<T> {
    Value { val: T, next: Option<usize>, prev: Option<usize> },
    Deleted { prev: Option<usize> },
}

/// Rewrite the forward link of the occupied slot `idx`, keeping its value and
/// backward link.
fn set_next<T>(slots: &mut Vec<Slot<T>>, idx: usize, new_next: Option<usize>)
    requires
        idx < old(slots)@.len(),
        old(slots)@[idx as int] is Value,
    ensures
        final(slots)@ == old(slots)@.update(
            idx as int,
            (Slot::Value {
                val: old(slots)@[idx as int]->Value_val,
                next: new_next,
                prev: old(slots)@[idx as int]->Value_prev,
            }),
        ),
{
    let mut tmp: Slot<T> = Slot::Deleted { prev: None };
    slots.set_and_swap(idx, &mut tmp);
    match tmp {
        Slot::Value { val, prev, .. } => {
            slots.set(idx, Slot::Value { val, next: new_next, prev });
        },
        Slot::Deleted { .. } => {
            proof {
                assert(false);
            }
        },
    }
}

/// Rewrite the backward link of the occupied slot `idx`, keeping its value and
/// forward link.
fn set_prev<T>(slots: &mut Vec<Slot<T>>, idx: usize, new_prev: Option<usize>)
    requires
        idx < old(slots)@.len(),
        old(slots)@[idx as int] is Value,
    ensures
        final(slots)@ == old(slots)@.update(
            idx as int,
            (Slot::Value {
                val: old(slots)@[idx as int]->Value_val,
                next: old(slots)@[idx as int]->Value_next,
                prev: new_prev,
            }),
        ),
{
    let mut tmp: Slot<T> = Slot::Deleted { prev: None };
    slots.set_and_swap(idx, &mut tmp);
    match tmp {
        Slot::Value { val, next, .. } => {
            slots.set(idx, Slot::Value { val, next, prev: new_prev });
        },
        Slot::Deleted { .. } => {
            proof {
                assert(false);
            }
        },
    }
}

/// Updating a sequence at a position outside a subrange leaves that subrange
/// unchanged.
pub broadcast proof fn lemma_update_outside_subrange<T>(s: Seq<T>, i: int, v: T, lo: int, hi: int)
    ensures
        (0 <= lo <= hi <= s.len() && 0 <= i < s.len() && (i < lo || i >= hi)) ==> #[trigger] s
            .update(i, v)
            .subrange(lo, hi) == s.subrange(lo, hi),
{
    if 0 <= lo <= hi <= s.len() && 0 <= i < s.len() && (i < lo || i >= hi) {
        assert(s.update(i, v).subrange(lo, hi) =~= s.subrange(lo, hi));
    }
}

/// Relies on Vec::capacity: a vector can hold at least its current length
/// without reallocating, so the reported capacity is at least the length.
#[verifier::external_body]
fn vec_capacity<T>(v: &Vec<T>) -> (r: usize)
    ensures
        r >= v@.len(),
{
    v.capacity()
}

/// Doubly linked list backed by a `Vec` arena.
///
/// `head`/`tail` anchor the live chain, `deleted_tail` is the top of the free
/// stack, and `len` counts occupied slots. The ghost fields `order` (arena
/// positions of the live chain, front to back) and `free` (positions of the
/// free stack, top first) are the mathematical model that `wf` ties to the
/// concrete links.
pub struct VecList<T> {
    slots: Vec<Slot<T>>,
    head: Option<usize>,
    tail: Option<usize>,
    deleted_tail: Option<usize>,
    len: usize,
    order: Ghost<Seq<usize>>,
    free: Ghost<Seq<usize>>,
}

impl<T> VecList<T> {
    /// The handles of the live elements, in chain order (front to back).
    pub closed spec fn handles(&self) -> Seq<usize> {
        self.order@
    }

    /// The handles of the deleted, reusable slots, most recently deleted first.
    pub closed spec fn free_handles(&self) -> Seq<usize> {
        self.free@
    }

    /// Total number of slots ever allocated (occupied plus deleted).
    pub closed spec fn spec_cap(&self) -> nat {
        self.slots@.len()
    }

    /// `h` addresses an occupied slot.
    pub closed spec fn live(&self, h: usize) -> bool {
        (h as int) < self.slots@.len() && self.slots@[h as int] is Value
    }

    /// The value stored in the occupied slot `h`.
    pub closed spec fn value_at(&self, h: usize) -> T
        recommends
            self.live(h),
    {
        self.slots@[h as int]->Value_val
    }

    /// The live chain's values, front to back.
    pub closed spec fn view(&self) -> Seq<T> {
        Seq::new(self.order@.len(), |i: int| self.slots@[self.order@[i] as int]->Value_val)
    }

    /// Position `i` of the live chain holds a `Value` slot whose links point at
    /// its chain neighbours.
    spec fn live_slot_ok(&self, i: int) -> bool {
        &&& (self.order@[i] as int) < self.slots@.len()
        &&& self.slots@[self.order@[i] as int] is Value
        &&& self.slots@[self.order@[i] as int]->Value_next == (if i + 1 == self.order@.len() {
            None::<usize>
        } else {
            Some(self.order@[i + 1])
        })
        &&& self.slots@[self.order@[i] as int]->Value_prev == (if i == 0 {
            None::<usize>
        } else {
            Some(self.order@[i - 1])
        })
    }

    /// Position `j` of the free stack holds a `Deleted` slot linking to the
    /// next-older entry.
    spec fn free_slot_ok(&self, j: int) -> bool {
        &&& (self.free@[j] as int) < self.slots@.len()
        &&& self.slots@[self.free@[j] as int] is Deleted
        &&& self.slots@[self.free@[j] as int]->Deleted_prev == (if j + 1 == self.free@.len() {
            None::<usize>
        } else {
            Some(self.free@[j + 1])
        })
    }

    /// Well-formedness: the ghost chain and free stack describe the slots
    /// exactly, every allocated slot is in exactly one of the two, and the
    /// anchors point at their ends.
    pub closed spec fn wf(&self) -> bool {
        &&& self.len == self.order@.len()
        &&& self.order@.len() + self.free@.len() == self.slots@.len()
        &&& forall|i: int| 0 <= i < self.order@.len() ==> #[trigger] self.live_slot_ok(i)
        &&& forall|j: int| 0 <= j < self.free@.len() ==> #[trigger] self.free_slot_ok(j)
        &&& forall|i: int, j: int|
            0 <= i < j < self.order@.len() ==> self.order@[i] != self.order@[j]
        &&& forall|i: int, j: int| 0 <= i < j < self.free@.len() ==> self.free@[i] != self.free@[j]
        &&& forall|i: int, j: int|
            0 <= i < self.order@.len() && 0 <= j < self.free@.len() ==> self.order@[i]
                != self.free@[j]
        &&& forall|k: int|
            0 <= k < self.slots@.len() && self.slots@[k] is Value ==> self.order@.contains(
                k as usize,
            )
        &&& self.head == (if self.order@.len() == 0 {
            None::<usize>
        } else {
            Some(self.order@[0])
        })
        &&& self.tail == (if self.order@.len() == 0 {
            None::<usize>
        } else {
            Some(self.order@[self.order@.len() - 1])
        })
        &&& self.deleted_tail == (if self.free@.len() == 0 {
            None::<usize>
        } else {
            Some(self.free@[0])
        })
    }

    /// A fresh, empty list.
    pub fn new() -> (r: Self)
        ensures
            r.wf(),
            r@ == Seq::<T>::empty(),
            r.handles() == Seq::<usize>::empty(),
            r.free_handles() == Seq::<usize>::empty(),
            r.spec_cap() == 0,
    {
        VecList {
            slots: Vec::new(),
            head: None,
            tail: None,
            deleted_tail: None,
            len: 0,
            order: Ghost(Seq::empty()),
            free: Ghost(Seq::empty()),
        }
    }

    /// A fresh, empty list whose arena has room reserved for `cap` elements.
    pub fn with_capacity(cap: usize) -> (r: Self)
        ensures
            r.wf(),
            r@ == Seq::<T>::empty(),
            r.handles() == Seq::<usize>::empty(),
            r.free_handles() == Seq::<usize>::empty(),
            r.spec_cap() == 0,
    {
        VecList {
            slots: Vec::with_capacity(cap),
            head: None,
            tail: None,
            deleted_tail: None,
            len: 0,
            order: Ghost(Seq::empty()),
            free: Ghost(Seq::empty()),
        }
    }

    /// Append `val` as the new back of the list, returning its handle.
    ///
    /// If a deleted slot is available the most recently deleted one is
    /// recycled and the arena does not grow; otherwise a slot is appended to
    /// the arena and the handle equals the old capacity. Average O(1).
    pub fn push_back(&mut self, val: T) -> (h: usize)
        requires
            old(self).wf(),
        ensures
            final(self).wf(),
            final(self)@ == old(self)@.push(val),
            final(self).handles() == old(self).handles().push(h),
            final(self).live(h),
            final(self).value_at(h) == val,
            forall|x: usize|
                old(self).live(x) ==> final(self).live(x) && final(self).value_at(x)
                    == old(self).value_at(x),
            old(self).free_handles().len() > 0 ==> h == old(self).free_handles()[0]
                && final(self).free_handles() == old(self).free_handles().drop_first()
                && final(self).spec_cap() == old(self).spec_cap(),
            old(self).free_handles().len() == 0 ==> h == old(self).spec_cap()
                && final(self).free_handles() == old(self).free_handles()
                && final(self).spec_cap() == old(self).spec_cap() + 1,
    {
        let ghost pre = *self;
        let arena = self.slots.len();
        if let Some(deleted_idx) = self.deleted_tail {
            proof {
                assert(pre.free_slot_ok(0));
            }
            let old_tail = self.tail;
            let deleted_prev = match &self.slots[deleted_idx] {
                Slot::Deleted { prev } => *prev,
                Slot::Value { .. } => unreached(),
            };
            self.slots.set(deleted_idx, Slot::Value { val, next: None, prev: old_tail });
            if let Some(t) = old_tail {
                proof {
                    assert(pre.live_slot_ok(pre.order@.len() - 1));
                }
                set_next(&mut self.slots, t, Some(deleted_idx));
            }
            self.deleted_tail = deleted_prev;
            self.tail = Some(deleted_idx);
            if self.len == 0 {
                self.head = self.tail;
            }
            self.len = self.len + 1;
            proof {
                let ord = pre.order@;
                let fr = pre.free@;
                let d = deleted_idx;
                let n = ord.len() as int;
                self.order@ = ord.push(d);
                self.free@ = fr.drop_first();
                assert forall|i: int| 0 <= i < self.order@.len() implies #[trigger] self
                    .live_slot_ok(i) by {
                    if i < n {
                        assert(pre.live_slot_ok(i));
                    }
                }
                assert forall|j: int| 0 <= j < self.free@.len() implies #[trigger] self
                    .free_slot_ok(j) by {
                    assert(pre.free_slot_ok(j + 1));
                    if n > 0 {
                        assert(pre.live_slot_ok(n - 1));
                    }
                }
                assert forall|k: int|
                    0 <= k < self.slots@.len() && self.slots@[k] is Value implies self
                    .order@.contains(k as usize) by {
                    if k == d as int {
                        assert(self.order@[n] == d);
                    } else {
                        assert(pre.slots@[k] is Value);
                        let i = ord.index_of(k as usize);
                        assert(self.order@[i] == k as usize);
                    }
                }
                assert forall|i: int, j: int|
                    0 <= i < j < self.order@.len() implies self.order@[i] != self.order@[j] by {
                    if j == n {
                        assert(pre.order@[i] != pre.free@[0]);
                    }
                }
                assert forall|i: int, j: int|
                    0 <= i < self.order@.len() && 0 <= j < self.free@.len() implies self.order@[i]
                    != self.free@[j] by {
                    if i < n {
                        assert(pre.order@[i] != pre.free@[j + 1]);
                    } else {
                        assert(pre.free@[0] != pre.free@[j + 1]);
                    }
                }
                assert forall|i: int| 0 <= i < self.order@.len() implies self@[i] == pre@.push(
                    val,
                )[i] by {
                    if i < n {
                        assert(pre.live_slot_ok(i));
                        assert(pre.order@[i] != pre.free@[0]);
                    }
                }
                assert(self@ =~= pre@.push(val));
                assert forall|x: usize| pre.live(x) implies self.live(x) && self.value_at(x)
                    == pre.value_at(x) by {
                    if n > 0 {
                        assert(pre.live_slot_ok(n - 1));
                    }
                    assert(pre.order@.contains(x));
                    let i = pre.order@.index_of(x);
                    assert(pre.order@[i] != pre.free@[0]);
                }
            }
            deleted_idx
        } else {
            let cur_idx = arena;
            self.slots.push(Slot::Value { val, next: None, prev: self.tail });
            let grown = self.slots.len();
            if self.len == 0 {
                self.head = Some(cur_idx);
            } else {
                proof {
                    assert(pre.live_slot_ok(pre.order@.len() - 1));
                }
                let t = match self.tail {
                    Some(t) => t,
                    None => unreached(),
                };
                set_next(&mut self.slots, t, Some(cur_idx));
            }
            self.tail = Some(cur_idx);
            proof {
                assert(grown == arena + 1);
            }
            self.len = self.len + 1;
            proof {
                let ord = pre.order@;
                let n = ord.len() as int;
                self.order@ = ord.push(cur_idx);
                assert forall|i: int| 0 <= i < self.order@.len() implies #[trigger] self
                    .live_slot_ok(i) by {
                    if i < n {
                        assert(pre.live_slot_ok(i));
                    }
                }
                assert forall|k: int|
                    0 <= k < self.slots@.len() && self.slots@[k] is Value implies self
                    .order@.contains(k as usize) by {
                    if k == cur_idx as int {
                        assert(self.order@[n] == cur_idx);
                    } else {
                        assert(pre.slots@[k] is Value);
                        let i = ord.index_of(k as usize);
                        assert(self.order@[i] == k as usize);
                    }
                }
                assert forall|i: int, j: int|
                    0 <= i < j < self.order@.len() implies self.order@[i] != self.order@[j] by {
                    if j == n {
                        assert(pre.live_slot_ok(i));
                    }
                }
                assert forall|i: int| 0 <= i < self.order@.len() implies self@[i] == pre@.push(
                    val,
                )[i] by {
                    if i < n {
                        assert(pre.live_slot_ok(i));
                    }
                }
                assert(self@ =~= pre@.push(val));
                assert forall|x: usize| pre.live(x) implies self.live(x) && self.value_at(x)
                    == pre.value_at(x) by {
                    if n > 0 {
                        assert(pre.live_slot_ok(n - 1));
                    }
                }
            }
            cur_idx
        }
    }

    /// Insert `val` as the new front of the list, returning its handle.
    ///
    /// Slot recycling and arena growth behave exactly as in `push_back`.
    /// Average O(1).
    pub fn push_front(&mut self, val: T) -> (h: usize)
        requires
            old(self).wf(),
        ensures
            final(self).wf(),
            final(self)@ == seq![val] + old(self)@,
            final(self).handles() == seq![h] + old(self).handles(),
            final(self).live(h),
            final(self).value_at(h) == val,
            forall|x: usize|
                old(self).live(x) ==> final(self).live(x) && final(self).value_at(x)
                    == old(self).value_at(x),
            old(self).free_handles().len() > 0 ==> h == old(self).free_handles()[0]
                && final(self).free_handles() == old(self).free_handles().drop_first()
                && final(self).spec_cap() == old(self).spec_cap(),
            old(self).free_handles().len() == 0 ==> h == old(self).spec_cap()
                && final(self).free_handles() == old(self).free_handles()
                && final(self).spec_cap() == old(self).spec_cap() + 1,
    {
        let ghost pre = *self;
        let arena = self.slots.len();
        if let Some(deleted_idx) = self.deleted_tail {
            proof {
                assert(pre.free_slot_ok(0));
            }
            let old_head = self.head;
            let deleted_prev = match &self.slots[deleted_idx] {
                Slot::Deleted { prev } => *prev,
                Slot::Value { .. } => unreached(),
            };
            self.slots.set(deleted_idx, Slot::Value { val, next: old_head, prev: None });
            if let Some(hd) = old_head {
                proof {
                    assert(pre.live_slot_ok(0));
                }
                set_prev(&mut self.slots, hd, Some(deleted_idx));
            }
            self.deleted_tail = deleted_prev;
            self.head = Some(deleted_idx);
            if self.len == 0 {
                self.tail = self.head;
            }
            self.len = self.len + 1;
            proof {
                let ord = pre.order@;
                let fr = pre.free@;
                let d = deleted_idx;
                let n = ord.len() as int;
                self.order@ = seq![d] + ord;
                self.free@ = fr.drop_first();
                assert forall|i: int| 0 <= i < self.order@.len() implies #[trigger] self
                    .live_slot_ok(i) by {
                    if i >= 1 {
                        assert(pre.live_slot_ok(i - 1));
                        assert(pre.order@[i - 1] != pre.free@[0]);
                    }
                }
                assert forall|j: int| 0 <= j < self.free@.len() implies #[trigger] self
                    .free_slot_ok(j) by {
                    assert(pre.free_slot_ok(j + 1));
                    if n > 0 {
                        assert(pre.live_slot_ok(0));
                    }
                }
                assert forall|k: int|
                    0 <= k < self.slots@.len() && self.slots@[k] is Value implies self
                    .order@.contains(k as usize) by {
                    if k == d as int {
                        assert(self.order@[0] == d);
                    } else {
                        assert(pre.slots@[k] is Value);
                        let i = ord.index_of(k as usize);
                        assert(self.order@[i + 1] == k as usize);
                    }
                }
                assert forall|i: int, j: int|
                    0 <= i < j < self.order@.len() implies self.order@[i] != self.order@[j] by {
                    if i == 0 {
                        assert(pre.order@[j - 1] != pre.free@[0]);
                    }
                }
                assert forall|i: int, j: int|
                    0 <= i < self.order@.len() && 0 <= j < self.free@.len() implies self.order@[i]
                    != self.free@[j] by {
                    if i >= 1 {
                        assert(pre.order@[i - 1] != pre.free@[j + 1]);
                    } else {
                        assert(pre.free@[0] != pre.free@[j + 1]);
                    }
                }
                assert forall|i: int| 0 <= i < self.order@.len() implies self@[i] == (seq![val]
                    + pre@)[i] by {
                    if i >= 1 {
                        assert(pre.live_slot_ok(i - 1));
                        assert(pre.order@[i - 1] != pre.free@[0]);
                    }
                }
                assert(self@ =~= seq![val] + pre@);
                assert forall|x: usize| pre.live(x) implies self.live(x) && self.value_at(x)
                    == pre.value_at(x) by {
                    if n > 0 {
                        assert(pre.live_slot_ok(0));
                    }
                    assert(pre.order@.contains(x));
                    let i = pre.order@.index_of(x);
                    assert(pre.order@[i] != pre.free@[0]);
                }
            }
            deleted_idx
        } else {
            let cur_idx = arena;
            self.slots.push(Slot::Value { val, next: self.head, prev: None });
            let grown = self.slots.len();
            if self.len == 0 {
                self.tail = Some(cur_idx);
            } else {
                proof {
                    assert(pre.live_slot_ok(0));
                }
                let hd = match self.head {
                    Some(hd) => hd,
                    None => unreached(),
                };
                set_prev(&mut self.slots, hd, Some(cur_idx));
            }
            self.head = Some(cur_idx);
            proof {
                assert(grown == arena + 1);
            }
            self.len = self.len + 1;
            proof {
                let ord = pre.order@;
                let n = ord.len() as int;
                self.order@ = seq![cur_idx] + ord;
                assert forall|i: int| 0 <= i < self.order@.len() implies #[trigger] self
                    .live_slot_ok(i) by {
                    if i >= 1 {
                        assert(pre.live_slot_ok(i - 1));
                    }
                }
                assert forall|k: int|
                    0 <= k < self.slots@.len() && self.slots@[k] is Value implies self
                    .order@.contains(k as usize) by {
                    if k == cur_idx as int {
                        assert(self.order@[0] == cur_idx);
                    } else {
                        assert(pre.slots@[k] is Value);
                        let i = ord.index_of(k as usize);
                        assert(self.order@[i + 1] == k as usize);
                    }
                }
                assert forall|i: int, j: int|
                    0 <= i < j < self.order@.len() implies self.order@[i] != self.order@[j] by {
                    if i == 0 {
                        assert(pre.live_slot_ok(j - 1));
                    }
                }
                assert forall|i: int| 0 <= i < self.order@.len() implies self@[i] == (seq![val]
                    + pre@)[i] by {
                    if i >= 1 {
                        assert(pre.live_slot_ok(i - 1));
                    }
                }
                assert(self@ =~= seq![val] + pre@);
                assert forall|x: usize| pre.live(x) implies self.live(x) && self.value_at(x)
                    == pre.value_at(x) by {
                    if n > 0 {
                        assert(pre.live_slot_ok(0));
                    }
                }
            }
            cur_idx
        }
    }

    /// A handle is live exactly when it occurs in the handle sequence, and a
    /// live handle's value is the view element at the handle's chain
    /// position. With the stability clauses of the mutating operations this
    /// says that a handle returned by an insertion, as long as it is not
    /// deleted, keeps addressing the same value however the rest of the list
    /// changes.
    pub proof fn lemma_live_iff_handle(self, h: usize)
        requires
            self.wf(),
        ensures
            self.live(h) <==> self.handles().contains(h),
            self.live(h) ==> 0 <= self.handles().index_of(h) < self@.len()
                && self.handles()[self.handles().index_of(h)] == h
                && self@[self.handles().index_of(h)] == self.value_at(h),
    {
        if self.live(h) {
            assert(self.order@.contains(h));
            let q = self.order@.index_of(h);
            assert(0 <= q < self.order@.len() && self.order@[q] == h);
            assert(self.live_slot_ok(q));
        }
        if self.handles().contains(h) {
            let q = choose|q: int| 0 <= q < self.order@.len() && self.order@[q] == h;
            assert(self.live_slot_ok(q));
        }
    }

    /// Remove the element at handle `idx` and return its value, unlinking it
    /// from the live chain and pushing its slot onto the free stack.
    ///
    /// Deleting an already deleted slot is an idempotent no-op returning
    /// `None`. The handle must address an allocated slot. O(1).
    #[verifier::rlimit(50)]
    pub fn delete(&mut self, idx: usize) -> (r: Option<T>)
        requires
            old(self).wf(),
            idx < old(self).spec_cap(),
        ensures
            final(self).wf(),
            final(self).spec_cap() == old(self).spec_cap(),
            !old(self).live(idx) ==> r is None && *final(self) == *old(self),
            old(self).live(idx) ==> ({
                let i = old(self).handles().index_of(idx);
                &&& r == Some(old(self)@[i])
                &&& final(self)@ == old(self)@.remove(i)
                &&& final(self).handles() == old(self).handles().remove(i)
                &&& final(self).free_handles() == seq![idx] + old(self).free_handles()
                &&& !final(self).live(idx)
            }),
            forall|x: usize|
                x != idx && old(self).live(x) ==> final(self).live(x) && final(self).value_at(x)
                    == old(self).value_at(x),
    {
        let ghost pre = *self;
        let arena = self.slots.len();
        proof {
            assert(arena == pre.slots@.len());
        }
        let old_delete_head = self.deleted_tail;
        let (is_live, to_delete_next, to_delete_prev) = match &self.slots[idx] {
            Slot::Value { next, prev, .. } => (true, *next, *prev),
            Slot::Deleted { .. } => (false, None, None),
        };
        if !is_live {
            return None;
        }
        proof {
            assert(pre.order@.contains(idx));
        }
        let ghost pos = pre.order@.index_of(idx);
        proof {
            assert(0 <= pos < pre.order@.len() && pre.order@[pos] == idx);
            assert(pre.live_slot_ok(pos));
            assert(pre.live_slot_ok(0));
            assert(pre.live_slot_ok(pre.order@.len() - 1));
        }
        let hh = match self.head {
            Some(hh) => hh,
            None => unreached(),
        };
        if hh == idx {
            self.head = to_delete_next;
        }
        let tt = match self.tail {
            Some(tt) => tt,
            None => unreached(),
        };
        if tt == idx {
            self.tail = to_delete_prev;
        }
        if let Some(p) = to_delete_prev {
            proof {
                assert(pre.live_slot_ok(pos - 1));
            }
            set_next(&mut self.slots, p, to_delete_next);
        }
        if let Some(nx) = to_delete_next {
            proof {
                assert(pre.live_slot_ok(pos + 1));
            }
            set_prev(&mut self.slots, nx, to_delete_prev);
        }
        let mut tmp: Slot<T> = Slot::Deleted { prev: old_delete_head };
        self.slots.set_and_swap(idx, &mut tmp);
        let deleted_val = match tmp {
            Slot::Value { val, .. } => val,
            Slot::Deleted { .. } => unreached(),
        };
        self.deleted_tail = Some(idx);
        self.len = self.len - 1;
        proof {
            let ord = pre.order@;
            let fr = pre.free@;
            let n = ord.len() as int;
            self.order@ = ord.remove(pos);
            self.free@ = seq![idx] + fr;
            // every free-stack slot is Deleted, so it differs from every
            // live-chain position, in particular from idx and its neighbours
            assert forall|j: int| 0 <= j < fr.len() implies #[trigger] pre.free_slot_ok(j) by {}
            assert forall|i: int| 0 <= i < self.order@.len() implies #[trigger] self
                .live_slot_ok(i) by {
                if i < pos {
                    assert(pre.live_slot_ok(i));
                    if i + 1 < pos {
                        assert(pre.live_slot_ok(i + 1));
                    }
                } else {
                    assert(pre.live_slot_ok(i + 1));
                    if i + 2 <= n - 1 {
                        assert(pre.live_slot_ok(i + 2));
                    }
                }
                if i >= 1 {
                    assert(pre.live_slot_ok(i - 1));
                }
            }
            assert forall|j: int| 0 <= j < self.free@.len() implies #[trigger] self.free_slot_ok(
                j,
            ) by {
                if j >= 1 {
                    assert(pre.free_slot_ok(j - 1));
                }
            }
            assert forall|k: int|
                0 <= k < self.slots@.len() && self.slots@[k] is Value implies self.order@.contains(
                    k as usize,
                ) by {
                assert(pre.slots@[k] is Value);
                assert(pre.order@.contains(k as usize));
                let q = ord.index_of(k as usize);
                assert(0 <= q < n && ord[q] == k as usize);
                assert(self.slots@[idx as int] is Deleted);
                assert(k != idx as int);
                assert(q != pos);
                if q < pos {
                    assert(self.order@[q] == k as usize);
                } else {
                    assert(self.order@[q - 1] == ord[q]);
                    assert(self.order@[q - 1] == k as usize);
                }
            }
            assert forall|i: int, j: int|
                0 <= i < j < self.order@.len() implies self.order@[i] != self.order@[j] by {
                let i0 = if i < pos {
                    i
                } else {
                    i + 1
                };
                let j0 = if j < pos {
                    j
                } else {
                    j + 1
                };
                assert(ord[i0] != ord[j0]);
            }
            assert forall|i: int, j: int|
                0 <= i < self.order@.len() && 0 <= j < self.free@.len() implies self.order@[i]
                != self.free@[j] by {
                let i0 = if i < pos {
                    i
                } else {
                    i + 1
                };
                assert(ord[i0] == self.order@[i]);
                if j >= 1 {
                    assert(ord[i0] != fr[j - 1]);
                } else {
                    assert(ord[i0] != ord[pos]);
                }
            }
            assert forall|i: int, j: int|
                0 <= i < j < self.free@.len() implies self.free@[i] != self.free@[j] by {
                if i >= 1 {
                    assert(fr[i - 1] != fr[j - 1]);
                } else {
                    assert(pre.free_slot_ok(j - 1));
                }
            }
            assert forall|i: int| 0 <= i < self.order@.len() implies self@[i] == pre@.remove(pos)[
                i
            ] by {
                let i0 = if i < pos {
                    i
                } else {
                    i + 1
                };
                assert(pre.live_slot_ok(i0));
                assert(ord[i0] != ord[pos]);
            }
            assert(self@ =~= pre@.remove(pos));
            assert(self.order@ =~= ord.remove(pos));
            assert forall|x: usize| x != idx && pre.live(x) implies self.live(x) && self.value_at(
                x,
            ) == pre.value_at(x) by {
                assert(pre.order@.contains(x));
                let q = ord.index_of(x);
                assert(ord[q] != ord[pos]);
            }
        }
        Some(deleted_val)
    }

    /// `post` is `pre` with the value of the occupied slot `h` replaced by `v`
    /// and everything else (links, anchors, ghost model) unchanged.
    pub closed spec fn value_update(pre: Self, post: Self, h: usize, v: T) -> bool {
        &&& post.order@ == pre.order@
        &&& post.free@ == pre.free@
        &&& post.head == pre.head
        &&& post.tail == pre.tail
        &&& post.deleted_tail == pre.deleted_tail
        &&& post.len == pre.len
        &&& (h as int) < pre.slots@.len()
        &&& pre.slots@[h as int] is Value
        &&& post.slots@ == pre.slots@.update(
            h as int,
            (Slot::Value {
                val: v,
                next: pre.slots@[h as int]->Value_next,
                prev: pre.slots@[h as int]->Value_prev,
            }),
        )
    }

    /// Replacing one live value in place preserves well-formedness, the
    /// handles, the free stack and the capacity, and updates the view at the
    /// handle's chain position only.
    pub broadcast proof fn lemma_value_update(pre: Self, post: Self, h: usize, v: T)
        ensures
            (pre.wf() && pre.live(h) && #[trigger] Self::value_update(pre, post, h, v)) ==> ({
                &&& post.wf()
                &&& post.handles() == pre.handles()
                &&& post.free_handles() == pre.free_handles()
                &&& post.spec_cap() == pre.spec_cap()
                &&& 0 <= pre.handles().index_of(h) < pre@.len()
                &&& pre.handles()[pre.handles().index_of(h)] == h
                &&& post@ == pre@.update(pre.handles().index_of(h), v)
                &&& post.live(h)
                &&& post.value_at(h) == v
                &&& forall|x: usize|
                    x != h && pre.live(x) ==> post.live(x) && post.value_at(x) == pre.value_at(x)
            }),
    {
        if pre.wf() && pre.live(h) && Self::value_update(pre, post, h, v) {
            assert(pre.order@.contains(h));
            let pos = pre.order@.index_of(h);
            assert(0 <= pos < pre.order@.len() && pre.order@[pos] == h);
            assert forall|i: int| 0 <= i < post.order@.len() implies #[trigger] post.live_slot_ok(
                i,
            ) by {
                assert(pre.live_slot_ok(i));
            }
            assert forall|j: int| 0 <= j < post.free@.len() implies #[trigger] post.free_slot_ok(
                j,
            ) by {
                assert(pre.free_slot_ok(j));
                assert(pre.order@[pos] != pre.free@[j]);
            }
            assert forall|i: int| 0 <= i < post.order@.len() implies post@[i] == pre@.update(
                pos,
                v,
            )[i] by {
                assert(pre.live_slot_ok(i));
                if pre.order@[i] == h {
                    assert(i == pos);
                }
            }
            assert(post@ =~= pre@.update(pos, v));
        }
    }

    /// A mutable borrow of the value at handle `idx`, or `None` if the handle
    /// is out of range or its slot is deleted. O(1).
    ///
    /// The structure around the value is untouched: `lemma_value_update`
    /// turns the returned relation into statements about the view.
    pub fn get_mut(&mut self, idx: usize) -> (r: Option<&mut T>)
        requires
            old(self).wf(),
        ensures
            r is None <==> !old(self).live(idx),
            r is None ==> *final(self) == *old(self),
            r matches Some(v) ==> *v == old(self).value_at(idx) && Self::value_update(
                *old(self),
                *final(self),
                idx,
                *final(v),
            ),
    {
        if idx >= self.slots.len() {
            return None;
        }
        let live_here = match &self.slots[idx] {
            Slot::Value { .. } => true,
            Slot::Deleted { .. } => false,
        };
        if !live_here {
            return None;
        }
        match &mut self.slots[idx] {
            Slot::Value { val, .. } => Some(val),
            Slot::Deleted { .. } => unreached(),
        }
    }

    /// Remove and return the front element, or `None` if the list is empty.
    /// Equivalent to deleting the head handle. O(1).
    pub fn pop_front(&mut self) -> (r: Option<T>)
        requires
            old(self).wf(),
        ensures
            final(self).wf(),
            final(self).spec_cap() == old(self).spec_cap(),
            old(self)@.len() == 0 ==> r is None && *final(self) == *old(self),
            old(self)@.len() > 0 ==> r == Some(old(self)@[0])
                && final(self)@ == old(self)@.drop_first()
                && final(self).handles() == old(self).handles().drop_first()
                && final(self).free_handles() == seq![old(self).handles()[0]]
                + old(self).free_handles(),
            forall|x: usize|
                old(self)@.len() > 0 && x != old(self).handles()[0] && old(self).live(x)
                    ==> final(self).live(x) && final(self).value_at(x) == old(self).value_at(x),
    {
        let ghost pre = *self;
        let h = match self.head {
            Some(h) => h,
            None => {
                return None;
            },
        };
        proof {
            assert(pre.live_slot_ok(0));
        }
        let r = self.delete(h);
        proof {
            assert(pre.order@[0] == h);
            assert(pre.order@.contains(h));
            let i = pre.order@.index_of(h);
            assert(0 <= i < pre.order@.len() && pre.order@[i] == h);
            assert(i == 0);
            assert(pre.order@.remove(0) =~= pre.order@.drop_first());
            assert(pre@.remove(0) =~= pre@.drop_first());
        }
        r
    }

    /// Remove and return the back element, or `None` if the list is empty.
    /// Equivalent to deleting the tail handle. O(1).
    pub fn pop_back(&mut self) -> (r: Option<T>)
        requires
            old(self).wf(),
        ensures
            final(self).wf(),
            final(self).spec_cap() == old(self).spec_cap(),
            old(self)@.len() == 0 ==> r is None && *final(self) == *old(self),
            old(self)@.len() > 0 ==> r == Some(old(self)@.last())
                && final(self)@ == old(self)@.drop_last()
                && final(self).handles() == old(self).handles().drop_last()
                && final(self).free_handles() == seq![old(self).handles().last()]
                + old(self).free_handles(),
            forall|x: usize|
                old(self)@.len() > 0 && x != old(self).handles().last() && old(self).live(x)
                    ==> final(self).live(x) && final(self).value_at(x) == old(self).value_at(x),
    {
        let ghost pre = *self;
        let h = match self.tail {
            Some(h) => h,
            None => {
                return None;
            },
        };
        proof {
            assert(pre.live_slot_ok(pre.order@.len() - 1));
        }
        let r = self.delete(h);
        proof {
            let n = pre.order@.len() as int;
            assert(pre.order@[n - 1] == h);
            assert(pre.order@.contains(h));
            let i = pre.order@.index_of(h);
            assert(0 <= i < pre.order@.len() && pre.order@[i] == h);
            assert(i == n - 1);
            assert(pre.order@.remove(n - 1) =~= pre.order@.drop_last());
            assert(pre@.remove(n - 1) =~= pre@.drop_last());
        }
        r
    }

    /// The front value and its handle, or `None` if the list is empty. O(1).
    pub fn front(&self) -> (r: Option<(&T, usize)>)
        requires
            self.wf(),
        ensures
            r is None <==> self@.len() == 0,
            r matches Some((v, h)) ==> *v == self@[0] && h == self.handles()[0] && self.live(h)
                && *v == self.value_at(h),
    {
        match self.head {
            None => None,
            Some(h) => {
                proof {
                    assert(self.live_slot_ok(0));
                }
                match &self.slots[h] {
                    Slot::Value { val, .. } => Some((val, h)),
                    Slot::Deleted { .. } => unreached(),
                }
            },
        }
    }

    /// The back value and its handle, or `None` if the list is empty. O(1).
    pub fn back(&self) -> (r: Option<(&T, usize)>)
        requires
            self.wf(),
        ensures
            r is None <==> self@.len() == 0,
            r matches Some((v, h)) ==> *v == self@.last() && h == self.handles().last()
                && self.live(h) && *v == self.value_at(h),
    {
        match self.tail {
            None => None,
            Some(h) => {
                proof {
                    assert(self.live_slot_ok(self.order@.len() - 1));
                }
                match &self.slots[h] {
                    Slot::Value { val, .. } => Some((val, h)),
                    Slot::Deleted { .. } => unreached(),
                }
            },
        }
    }

    /// A mutable borrow of the front value together with its handle, or
    /// `None` if the list is empty. O(1).
    pub fn front_mut(&mut self) -> (r: Option<(&mut T, usize)>)
        requires
            old(self).wf(),
        ensures
            r is None <==> old(self)@.len() == 0,
            r is None ==> *final(self) == *old(self),
            r matches Some((v, h)) ==> h == old(self).handles()[0] && *v == old(self)@[0] && *v
                == old(self).value_at(h) && Self::value_update(
                *old(self),
                *final(self),
                h,
                *final(v),
            ),
    {
        let h = match self.head {
            Some(h) => h,
            None => {
                return None;
            },
        };
        proof {
            assert(self.live_slot_ok(0));
        }
        match &mut self.slots[h] {
            Slot::Value { val, .. } => Some((val, h)),
            Slot::Deleted { .. } => unreached(),
        }
    }

    /// A mutable borrow of the back value together with its handle, or
    /// `None` if the list is empty. O(1).
    pub fn back_mut(&mut self) -> (r: Option<(&mut T, usize)>)
        requires
            old(self).wf(),
        ensures
            r is None <==> old(self)@.len() == 0,
            r is None ==> *final(self) == *old(self),
            r matches Some((v, h)) ==> h == old(self).handles().last() && *v == old(self)@.last()
                && *v == old(self).value_at(h) && Self::value_update(
                *old(self),
                *final(self),
                h,
                *final(v),
            ),
    {
        let h = match self.tail {
            Some(h) => h,
            None => {
                return None;
            },
        };
        proof {
            assert(self.live_slot_ok(self.order@.len() - 1));
        }
        match &mut self.slots[h] {
            Slot::Value { val, .. } => Some((val, h)),
            Slot::Deleted { .. } => unreached(),
        }
    }

    /// The handle of the chain successor of `h`: `None` if `h` is out of
    /// range, deleted, or the back of the list. A query, never a mutation.
    /// O(1).
    pub fn next(&self, h: usize) -> (r: Option<usize>)
        requires
            self.wf(),
        ensures
            !self.live(h) ==> r is None,
            self.live(h) ==> ({
                let i = self.handles().index_of(h);
                &&& (i + 1 == self.handles().len() ==> r is None)
                &&& (i + 1 < self.handles().len() ==> r == Some(self.handles()[i + 1]))
            }),
    {
        if h >= self.slots.len() {
            return None;
        }
        match &self.slots[h] {
            Slot::Value { next, .. } => {
                proof {
                    assert(self.order@.contains(h));
                    let q = self.order@.index_of(h);
                    assert(0 <= q < self.order@.len() && self.order@[q] == h);
                    assert(self.live_slot_ok(q));
                }
                *next
            },
            Slot::Deleted { .. } => None,
        }
    }

    /// The handle of the chain predecessor of `h`: `None` if `h` is out of
    /// range, deleted, or the front of the list. A query, never a mutation.
    /// O(1).
    pub fn previous(&self, h: usize) -> (r: Option<usize>)
        requires
            self.wf(),
        ensures
            !self.live(h) ==> r is None,
            self.live(h) ==> ({
                let i = self.handles().index_of(h);
                &&& (i == 0 ==> r is None)
                &&& (i > 0 ==> r == Some(self.handles()[i - 1]))
            }),
    {
        if h >= self.slots.len() {
            return None;
        }
        match &self.slots[h] {
            Slot::Value { prev, .. } => {
                proof {
                    assert(self.order@.contains(h));
                    let q = self.order@.index_of(h);
                    assert(0 <= q < self.order@.len() && self.order@[q] == h);
                    assert(self.live_slot_ok(q));
                }
                *prev
            },
            Slot::Deleted { .. } => None,
        }
    }

    /// The value at handle `idx`, or `None` if the handle is out of range or
    /// its slot is deleted. O(1).
    pub fn get(&self, idx: usize) -> (r: Option<&T>)
        ensures
            r is None <==> !self.live(idx),
            r matches Some(v) ==> *v == self.value_at(idx),
    {
        if idx >= self.slots.len() {
            return None;
        }
        match &self.slots[idx] {
            Slot::Value { val, .. } => Some(val),
            Slot::Deleted { .. } => None,
        }
    }

    /// Discard all storage and reset to the freshly constructed state.
    /// O(capacity).
    pub fn clear(&mut self)
        ensures
            final(self).wf(),
            final(self)@ == Seq::<T>::empty(),
            final(self).handles() == Seq::<usize>::empty(),
            final(self).free_handles() == Seq::<usize>::empty(),
            final(self).spec_cap() == 0,
    {
        self.slots.clear();
        self.len = 0;
        self.head = None;
        self.tail = None;
        self.deleted_tail = None;
        proof {
            self.order@ = Seq::empty();
            self.free@ = Seq::empty();
        }
    }

    /// Number of live elements.
    pub fn len(&self) -> (r: usize)
        requires
            self.wf(),
        ensures
            r == self@.len(),
            r == self.handles().len(),
    {
        self.len
    }

    /// Total slots ever allocated, occupied or deleted; never less than `len`.
    pub fn cap(&self) -> (r: usize)
        requires
            self.wf(),
        ensures
            r == self.spec_cap(),
            r >= self@.len(),
    {
        self.slots.len()
    }

    /// The capacity of the backing vector itself: slots it can hold without
    /// reallocating, at least as many as are allocated.
    pub fn vec_cap(&self) -> (r: usize)
        ensures
            r >= self.spec_cap(),
    {
        vec_capacity(&self.slots)
    }

    /// Whether the list holds no element.
    pub fn is_empty(&self) -> (r: bool)
        requires
            self.wf(),
        ensures
            r <==> self@.len() == 0,
    {
        self.len == 0
    }
}

impl<T> Default for VecList<T> {
    /// The empty list, as `new` builds it.
    fn default() -> (r: Self)
        ensures
            r.wf(),
            r@ == Seq::<T>::empty(),
            r.handles() == Seq::<usize>::empty(),
            r.free_handles() == Seq::<usize>::empty(),
            r.spec_cap() == 0,
    {
        Self::new()
    }
}

} // verus!

