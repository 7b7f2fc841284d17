//! Laws relating whole call sequences, stated over the view model.
//!
//! The contracts of the list operations describe one call each: `push_back`
//! appends to the view, `pop_front` returns the first view element and drops
//! it, `pop_back` the last, and the traversal steps of `Iter` do the same on
//! their remaining subrange. The spec functions here fold those single-step
//! descriptions over a whole sequence of values, and the lemmas state what
//! such call sequences produce.

use vstd::prelude::*;

verus! {

/// The view after pushing every element of `vs` at the back of a list whose
/// view is `s`, in order: the single-step description of `push_back`, folded.
pub open spec fn pushed_back<T>(s: Seq<T>, vs: Seq<T>) -> Seq<T>
    decreases vs.len(),
{
    if vs.len() == 0 {
        s
    } else {
        pushed_back(s.push(vs[0]), vs.drop_first())
    }
}

/// The values produced by popping from the front until a list whose view is
/// `s` is empty: each step yields the first remaining element, as the
/// contracts of `pop_front`, `Iter::next` and `IntoIter::next` state.
pub open spec fn front_pops<T>(s: Seq<T>) -> Seq<T>
    decreases s.len(),
{
    if s.len() == 0 {
        Seq::empty()
    } else {
        seq![s[0]] + front_pops(s.drop_first())
    }
}

/// The values produced by popping from the back until a list whose view is
/// `s` is empty: each step yields the last remaining element, as the
/// contracts of `pop_back`, `Iter::next_back` and `IntoIter::next_back`
/// state.
pub open spec fn back_pops<T>(s: Seq<T>) -> Seq<T>
    decreases s.len(),
{
    if s.len() == 0 {
        Seq::empty()
    } else {
        seq![s.last()] + back_pops(s.drop_last())
    }
}

/// Pushing each element of `vs` at the back appends `vs` to the view.
pub proof fn lemma_pushed_back<T>(s: Seq<T>, vs: Seq<T>)
    ensures
        pushed_back(s, vs) == s + vs,
    decreases vs.len(),
{
    if vs.len() == 0 {
        assert(pushed_back(s, vs) =~= s + vs);
    } else {
        lemma_pushed_back(s.push(vs[0]), vs.drop_first());
        assert(s.push(vs[0]) + vs.drop_first() =~= s + vs);
    }
}

/// Round trip: pushing `vs` with `push_back` onto an empty list and then
/// popping until empty returns `vs` itself in order when popping from the
/// front, and `vs` reversed when popping from the back.
pub proof fn lemma_round_trip<T>(vs: Seq<T>)
    ensures
        pushed_back(Seq::<T>::empty(), vs) == vs,
        front_pops(vs) == vs,
        back_pops(vs) == vs.reverse(),
{
    lemma_pushed_back(Seq::<T>::empty(), vs);
    assert(Seq::<T>::empty() + vs =~= vs);
    lemma_front_pops(vs);
    lemma_back_pops(vs);
}

/// Popping from the front yields the view unchanged, element by element.
pub proof fn lemma_front_pops<T>(s: Seq<T>)
    ensures
        front_pops(s) == s,
    decreases s.len(),
{
    if s.len() > 0 {
        lemma_front_pops(s.drop_first());
        assert(seq![s[0]] + s.drop_first() =~= s);
    } else {
        assert(front_pops(s) =~= s);
    }
}

/// Popping from the back yields the view reversed.
pub proof fn lemma_back_pops<T>(s: Seq<T>)
    ensures
        back_pops(s) == s.reverse(),
    decreases s.len(),
{
    if s.len() > 0 {
        lemma_back_pops(s.drop_last());
        assert(seq![s.last()] + s.drop_last().reverse() =~= s.reverse());
    } else {
        assert(back_pops(s) =~= s.reverse());
    }
}

/// Traversal agreement: stepping a traversal forward over `s` produces the
/// reverse of what stepping it backward produces, and either direction
/// produces exactly `s.len()` values.
pub proof fn lemma_traversal_agreement<T>(s: Seq<T>)
    ensures
        front_pops(s) == back_pops(s).reverse(),
        front_pops(s).len() == s.len(),
        back_pops(s).len() == s.len(),
{
    lemma_front_pops(s);
    lemma_back_pops(s);
    assert(s.reverse().reverse() =~= s);
}

} // verus!
